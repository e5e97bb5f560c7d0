//! The `@docs` groups of a module's documentation, which decide the layout
//! of the module's exposing list in elm-format layout.

use vstd::prelude::*;

use crate::text::{chars_of, lines_of, pieces, split_lines, split_on, string_of, trim, trim_end, trimmed};

verus! {

/// The names of a comma-separated list: each piece trimmed, empty ones
/// dropped.
pub open spec fn comma_names(s: Seq<char>) -> Seq<Seq<char>> {
    pieces(s, ',').map_values(|p: Seq<char>| trim(p)).filter(|n: Seq<char>| n.len() > 0)
}

/// `@docs`.
pub open spec fn docs_marker() -> Seq<char> {
    seq!['@', 'd', 'o', 'c', 's']
}

/// The groups so far and whether the next line continues a list that
/// ended with a comma, after one more line of documentation: an `@docs`
/// line starts a group; a line after a trailing comma (not blank, not a
/// heading) is a group of its own.
pub open spec fn docs_step(st: (Seq<Seq<Seq<char>>>, bool), line: Seq<char>) -> (Seq<Seq<Seq<char>>>, bool) {
    let t = trim(line);
    if t.len() >= 5 && t.take(5) == docs_marker() {
        let rest = t.skip(5);
        let names = comma_names(rest);
        (
            if names.len() > 0 {
                st.0.push(names)
            } else {
                st.0
            },
            trim_end(rest).len() > 0 && trim_end(rest).last() == ',',
        )
    } else if st.1 && t.len() > 0 && t[0] != '#' {
        let names = comma_names(t);
        (
            if names.len() > 0 {
                st.0.push(names)
            } else {
                st.0
            },
            t.last() == ',',
        )
    } else {
        (st.0, false)
    }
}

pub open spec fn docs_scan(ls: Seq<Seq<char>>) -> (Seq<Seq<Seq<char>>>, bool)
    decreases ls.len(),
{
    if ls.len() == 0 {
        (Seq::empty(), false)
    } else {
        docs_step(docs_scan(ls.drop_last()), ls.last())
    }
}

/// The `@docs` groups of a documentation text, one per `@docs` line (and
/// per continuation line).
pub open spec fn docs_groups(doc: Seq<char>) -> Seq<Seq<Seq<char>>> {
    docs_scan(lines_of(doc)).0
}

/// The characters of each string.
pub open spec fn strings_view(v: Seq<String>) -> Seq<Seq<char>> {
    v.map_values(|s: String| s@)
}

/// The characters of each name of each group.
pub open spec fn groups_view(v: Seq<Vec<String>>) -> Seq<Seq<Seq<char>>> {
    v.map_values(|g: Vec<String>| strings_view(g@))
}

/// The names of a comma-separated list.
pub(crate) fn split_names(v: &Vec<char>) -> (r: Vec<String>)
    ensures
        strings_view(r@) == comma_names(v@),
{
    let parts = split_on(v, ',');
    let ghost ps = pieces(v@, ',');
    let ghost tp = ps.map_values(|p: Seq<char>| trim(p));
    let mut r: Vec<String> = Vec::new();
    let mut i: usize = 0;
    while i < parts.len()
        invariant
            i <= parts@.len(),
            parts@.len() == ps.len(),
            ps == pieces(v@, ','),
            tp == ps.map_values(|p: Seq<char>| trim(p)),
            forall|k: int| 0 <= k < parts@.len() ==> (#[trigger] parts@[k])@ == ps[k],
            strings_view(r@) == tp.take(i as int).filter(|n: Seq<char>| n.len() > 0),
        decreases parts@.len() - i,
    {
        let t = trimmed(&parts[i]);
        proof {
            reveal(Seq::filter);
            assert(tp.take(i + 1).drop_last() =~= tp.take(i as int));
            assert(tp.take(i + 1).last() == t@);
        }
        if t.len() > 0 {
            let ghost before = r@;
            r.push(string_of(&t));
            proof {
                assert(strings_view(r@) =~= strings_view(before).push(t@));
            }
        }
        i = i + 1;
    }
    assert(tp.take(i as int) =~= tp);
    r
}

/// Whether `t` starts with `@docs`.
fn starts_with_docs(t: &Vec<char>) -> (r: bool)
    ensures
        r == (t@.len() >= 5 && t@.take(5) == docs_marker()),
{
    if t.len() < 5 {
        return false;
    }
    let r = t[0] == '@' && t[1] == 'd' && t[2] == 'o' && t[3] == 'c' && t[4] == 's';
    proof {
        if r {
            assert(t@.take(5) =~= docs_marker());
        } else {
            if t@.take(5) == docs_marker() {
                assert(t@.take(5)[0] == '@');
                assert(t@.take(5)[1] == 'd');
                assert(t@.take(5)[2] == 'o');
                assert(t@.take(5)[3] == 'c');
                assert(t@.take(5)[4] == 's');
            }
        }
    }
    r
}

/// Parse the `@docs` directives of a module documentation text: one group
/// of names per `@docs` line, and one per continuation line after a line
/// that ended with a comma.
pub fn parse_docs_groups(doc: &str) -> (r: Vec<Vec<String>>)
    ensures
        groups_view(r@) == docs_groups(doc@),
{
    let chars = chars_of(doc);
    let lines = split_lines(&chars);
    let ghost ls = lines_of(doc@);
    let mut groups: Vec<Vec<String>> = Vec::new();
    let mut in_continuation = false;
    let mut i: usize = 0;
    while i < lines.len()
        invariant
            i <= lines@.len(),
            lines@.len() == ls.len(),
            ls == lines_of(doc@),
            forall|k: int| 0 <= k < lines@.len() ==> (#[trigger] lines@[k])@ == ls[k],
            (groups_view(groups@), in_continuation) == docs_scan(ls.take(i as int)),
        decreases lines@.len() - i,
    {
        proof {
            assert(ls.take(i + 1).drop_last() =~= ls.take(i as int));
            assert(ls.take(i + 1).last() == lines@[i as int]@);
        }
        let t = trimmed(&lines[i]);
        let ghost before = groups@;
        if starts_with_docs(&t) {
            let rest = crate::text::chars_range(&t, 5, t.len());
            assert(rest@ =~= t@.skip(5));
            let names = split_names(&rest);
            if names.len() > 0 {
                groups.push(names);
                proof {
                    assert(groups_view(groups@) =~= groups_view(before).push(comma_names(rest@)));
                }
            }
            let re = crate::text::trimmed_end(&rest);
            in_continuation = re.len() > 0 && re[re.len() - 1] == ',';
        } else if in_continuation && t.len() > 0 && t[0] != '#' {
            let names = split_names(&t);
            if names.len() > 0 {
                groups.push(names);
                proof {
                    assert(groups_view(groups@) =~= groups_view(before).push(comma_names(t@)));
                }
            }
            in_continuation = t[t.len() - 1] == ',';
        } else {
            in_continuation = false;
        }
        i = i + 1;
    }
    assert(ls.take(i as int) =~= ls);
    groups
}

} // verus!

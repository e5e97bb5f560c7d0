//! Rewriting of `@docs` lines: names separated by `, `, and a list
//! continued over lines after a trailing comma split into one `@docs` line
//! per source line.

use vstd::prelude::*;

use super::super::doc_groups::{comma_names, split_names, strings_view};
use super::lines::{join_to_string, starts_with, starts_with_str};
use crate::text::{chars_of, chars_range, join_lines, lines_of, split_lines, trim, trim_end, trim_start, trimmed, trimmed_end};

verus! {

/// Names joined with `, `.
pub open spec fn comma_joined(ns: Seq<Seq<char>>) -> Seq<char>
    decreases ns.len(),
{
    if ns.len() == 0 {
        Seq::empty()
    } else if ns.len() == 1 {
        ns[0]
    } else {
        comma_joined(ns.drop_last()) + seq![',', ' '] + ns.last()
    }
}

/// An `@docs` line with the given indentation and names.
pub open spec fn docs_line(lead: Seq<char>, names: Seq<Seq<char>>) -> Seq<char> {
    lead + "@docs "@ + comma_joined(names)
}

/// The continuation lines from `k` on of a list whose `@docs` line ended
/// with a comma, each as its own `@docs` line, and the index after them:
/// they run to a blank line or a line starting with `@` or `#`, and end
/// after a line without a trailing comma.
pub open spec fn continuation(ls: Seq<Seq<char>>, k: int, lead: Seq<char>) -> (Seq<Seq<char>>, int)
    decreases ls.len() - k,
{
    if k < 0 || k >= ls.len() {
        (Seq::empty(), k)
    } else {
        let next = trim(ls[k]);
        if next.len() == 0 || next[0] == '@' || next[0] == '#' {
            (Seq::empty(), k)
        } else {
            let cl = docs_line(lead, comma_names(next));
            if next.last() == ',' {
                let r = continuation(ls, k + 1, lead);
                (seq![cl] + r.0, r.1)
            } else {
                (seq![cl], k + 1)
            }
        }
    }
}

proof fn lemma_continuation_bounds(ls: Seq<Seq<char>>, k: int, lead: Seq<char>)
    requires
        0 <= k <= ls.len(),
    ensures
        k <= continuation(ls, k, lead).1 <= ls.len(),
    decreases ls.len() - k,
{
    if k < ls.len() {
        lemma_continuation_bounds(ls, k + 1, lead);
    }
}

/// The output lines for the lines from `i` on.
pub open spec fn docs_lines_from(ls: Seq<Seq<char>>, i: int) -> Seq<Seq<char>>
    decreases ls.len() - i,
{
    if i < 0 || i >= ls.len() {
        Seq::empty()
    } else {
        let t = trim(ls[i]);
        if starts_with(t, "@docs"@) {
            let lead = ls[i].take(ls[i].len() - trim_start(ls[i]).len());
            let rest = t.skip(5);
            let first = docs_line(lead, comma_names(rest));
            let re = trim_end(rest);
            if re.len() > 0 && re.last() == ',' {
                let c = continuation(ls, i + 1, lead);
                if i + 1 <= c.1 <= ls.len() {
                    seq![first] + c.0 + docs_lines_from(ls, c.1)
                } else {
                    seq![first]
                }
            } else {
                seq![first] + docs_lines_from(ls, i + 1)
            }
        } else {
            seq![ls[i]] + docs_lines_from(ls, i + 1)
        }
    }
}

/// The text with its `@docs` lines rewritten.
pub open spec fn docs_lines_normalized(t: Seq<char>) -> Seq<char> {
    join_lines(docs_lines_from(lines_of(t), 0))
}

/// An `@docs` line with the given indentation and names.
fn make_docs_line(lead: &Vec<char>, names: &Vec<String>) -> (r: Vec<char>)
    ensures
        r@ == docs_line(lead@, strings_view(names@)),
{
    let mut r = chars_range(lead, 0, lead.len());
    let mut kw = chars_of("@docs ");
    r.append(&mut kw);
    let ghost base = r@;
    let mut i: usize = 0;
    while i < names.len()
        invariant
            i <= names@.len(),
            r@ == base + comma_joined(strings_view(names@).take(i as int)),
        decreases names@.len() - i,
    {
        if i > 0 {
            r.push(',');
            r.push(' ');
        }
        let mut n = chars_of(names[i].as_str());
        r.append(&mut n);
        proof {
            let t = strings_view(names@).take(i + 1);
            assert(t.drop_last() =~= strings_view(names@).take(i as int));
            assert(t.last() == names@[i as int]@);
            assert(r@ =~= base + comma_joined(t));
        }
        i = i + 1;
    }
    assert(strings_view(names@).take(i as int) =~= strings_view(names@));
    assert(lead@.subrange(0, lead@.len() as int) =~= lead@);
    r
}

/// Rewrite `@docs` lines: the names separated by `, `, and the lines that
/// continue a list ending with a comma each made an `@docs` line of their
/// own with the same indentation.
pub fn normalize_docs_lines(text: &str) -> (r: String)
    ensures
        r@ == docs_lines_normalized(text@),
{
    let lines = split_lines(&chars_of(text));
    let ghost ls = lines_of(text@);
    proof {
        assert(lines@.map_values(|l: Vec<char>| l@) =~= ls);
    }
    let n = lines.len();
    let mut out: Vec<Vec<char>> = Vec::new();
    let mut i: usize = 0;
    while i < n
        invariant
            i <= n,
            n == ls.len(),
            lines@.map_values(|l: Vec<char>| l@) == ls,
            out@.map_values(|l: Vec<char>| l@) + docs_lines_from(ls, i as int) == docs_lines_from(ls, 0),
        decreases n - i,
    {
        let ghost before = out@.map_values(|l: Vec<char>| l@);
        let line = &lines[i];
        assert(ls[i as int] == line@);
        let t = trimmed(line);
        if starts_with_str(&t, "@docs") {
            proof {
                reveal_strlit("@docs");
                crate::text::lemma_trim_start_suffix(line@);
            }
            let ts = super::lines::trim_start_chars(line);
            let lead = chars_range(line, 0, line.len() - ts.len());
            assert(lead@ =~= line@.take(line@.len() - trim_start(line@).len()));
            let rest = chars_range(&t, 5, t.len());
            assert(rest@ =~= t@.skip(5));
            let first = make_docs_line(&lead, &split_names(&rest));
            let re = trimmed_end(&rest);
            out.push(first);
            if re.len() > 0 && re[re.len() - 1] == ',' {
                let ghost lead_v = lead@;
                let mut k = i + 1;
                proof {
                    lemma_continuation_bounds(ls, i + 1, lead_v);
                }
                loop
                    invariant_except_break
                        out@.map_values(|l: Vec<char>| l@) + continuation(ls, k as int, lead_v).0
                            == before.push(docs_line(lead_v, comma_names(rest@))) + continuation(ls, i + 1, lead_v).0,
                        continuation(ls, k as int, lead_v).1 == continuation(ls, i + 1, lead_v).1,
                    invariant
                        i + 1 <= k <= n,
                        n == ls.len(),
                        lines@.map_values(|l: Vec<char>| l@) == ls,
                        lead@ == lead_v,
                        continuation(ls, i + 1, lead_v).1 <= n,
                    ensures
                        out@.map_values(|l: Vec<char>| l@) == before.push(docs_line(lead_v, comma_names(rest@)))
                            + continuation(ls, i + 1, lead_v).0,
                        k == continuation(ls, i + 1, lead_v).1,
                    decreases n - k,
                {
                    if k >= n {
                        break;
                    }
                    let next = trimmed(&lines[k]);
                    assert(ls[k as int] == lines@[k as int]@);
                    if next.len() == 0 || next[0] == '@' || next[0] == '#' {
                        break;
                    }
                    let cl = make_docs_line(&lead, &split_names(&next));
                    let ghost o = out@.map_values(|l: Vec<char>| l@);
                    out.push(cl);
                    proof {
                        assert(out@.map_values(|l: Vec<char>| l@) =~= o.push(cl@));
                    }
                    if next[next.len() - 1] != ',' {
                        k = k + 1;
                        break;
                    }
                    proof {
                        lemma_continuation_bounds(ls, k + 1, lead_v);
                    }
                    k = k + 1;
                }
                i = k;
            } else {
                i = i + 1;
            }
        } else {
            out.push(chars_range(line, 0, line.len()));
            assert(line@.subrange(0, line@.len() as int) =~= line@);
            i = i + 1;
        }
    }
    proof {
        assert(out@.map_values(|l: Vec<char>| l@) =~= docs_lines_from(ls, 0));
    }
    join_to_string(&out)
}

} // verus!

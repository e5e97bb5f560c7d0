//! Printing of patterns.

use vstd::prelude::*;

use super::literals::{literal_text, hex_digits};
use super::types::qualified_name;
use super::Printer;
use crate::ident::Ident;
use crate::node::Spanned;
use crate::pattern::Pattern;

verus! {

/// A constructor pattern applied to at least one argument.
pub open spec fn is_applied_ctor(p: Pattern) -> bool {
    p matches Pattern::Constructor { args, .. } && args@.len() > 0
}

/// Ranks that order the mutually recursive pattern printers on one pattern.
pub open spec fn pattern_rank(p: Pattern, level: nat) -> nat {
    if p is Cons {
        seq![2nat, 1, 4, 3][level as int]
    } else if p is As {
        seq![1nat, 4, 3, 2][level as int]
    } else if is_applied_ctor(p) {
        seq![3nat, 2, 1, 4][level as int]
    } else {
        seq![4nat, 3, 2, 1][level as int]
    }
}

/// The text of a pattern. In elm-format layout an applied constructor under
/// `as` is parenthesized.
pub open spec fn pattern_text(p: Pattern, pretty: bool) -> Seq<char>
    decreases p, pattern_rank(p, 0),
{
    match p {
        Pattern::As { pattern, name } => {
            let parens = pretty && is_applied_ctor(pattern.value);
            (if parens {
                seq!['(']
            } else {
                Seq::empty()
            }) + pattern_cons_text(pattern.value, pretty) + (if parens {
                seq![')']
            } else {
                Seq::empty()
            }) + " as "@ + name.value@
        },
        _ => pattern_cons_text(p, pretty),
    }
}

/// The text of a pattern at `::` level. In elm-format layout an applied
/// constructor on the left of `::` is parenthesized.
pub open spec fn pattern_cons_text(p: Pattern, pretty: bool) -> Seq<char>
    decreases p, pattern_rank(p, 1),
{
    match p {
        Pattern::Cons { head, tail } => {
            let parens = pretty && is_applied_ctor(head.value);
            (if parens {
                seq!['(']
            } else {
                Seq::empty()
            }) + pattern_app_text(head.value, pretty) + (if parens {
                seq![')']
            } else {
                Seq::empty()
            }) + " :: "@ + pattern_cons_text(tail.value, pretty)
        },
        _ => pattern_app_text(p, pretty),
    }
}

/// The text of a pattern at application level: an applied constructor
/// with its arguments in atomic form.
pub open spec fn pattern_app_text(p: Pattern, pretty: bool) -> Seq<char>
    decreases p, pattern_rank(p, 2),
{
    match p {
        Pattern::Constructor { module_name, name, args } => if args@.len() > 0 {
            qualified_name(module_name@, name@) + pattern_args_text(args@, pretty)
        } else {
            pattern_atomic_text(p, pretty)
        },
        _ => pattern_atomic_text(p, pretty),
    }
}

/// Each pattern preceded by a space, in atomic form.
pub open spec fn pattern_args_text(args: Seq<Spanned<Pattern>>, pretty: bool) -> Seq<char>
    decreases args, 0nat,
{
    if args.len() == 0 {
        Seq::empty()
    } else {
        pattern_args_text(args.drop_last(), pretty) + seq![' '] + pattern_atomic_text(
            args.last().value,
            pretty,
        )
    }
}

/// Patterns separated by `, `.
pub open spec fn pattern_list_text(elems: Seq<Spanned<Pattern>>, pretty: bool) -> Seq<char>
    decreases elems, 0nat,
{
    if elems.len() == 0 {
        Seq::empty()
    } else if elems.len() == 1 {
        pattern_text(elems[0].value, pretty)
    } else {
        pattern_list_text(elems.drop_last(), pretty) + ", "@ + pattern_text(
            elems.last().value,
            pretty,
        )
    }
}

/// Names separated by `, `.
pub open spec fn name_list_text(names: Seq<Spanned<Ident>>) -> Seq<char>
    decreases names.len(),
{
    if names.len() == 0 {
        Seq::empty()
    } else if names.len() == 1 {
        names[0].value@
    } else {
        name_list_text(names.drop_last()) + ", "@ + names.last().value@
    }
}

/// The two's complement value of a 64-bit integer.
pub open spec fn u64_bits(n: i64) -> nat {
    if n < 0 {
        (n + 0x1_0000_0000_0000_0000int) as nat
    } else {
        n as nat
    }
}

/// The text of a pattern in atomic position; compound patterns are
/// parenthesized.
pub open spec fn pattern_atomic_text(p: Pattern, pretty: bool) -> Seq<char>
    decreases p, pattern_rank(p, 3),
{
    match p {
        Pattern::Anything => seq!['_'],
        Pattern::Var(name) => name@,
        Pattern::Literal(lit) => literal_text(lit, pretty),
        Pattern::Unit => "()"@,
        Pattern::Hex(n) => "0x"@ + hex_digits(u64_bits(n), 0),
        Pattern::Tuple(elems) => "( "@ + pattern_list_text(elems@, pretty) + " )"@,
        Pattern::Record(fields) => "{ "@ + name_list_text(fields@) + " }"@,
        Pattern::List(elems) => if elems@.len() == 0 {
            "[]"@
        } else {
            "[ "@ + pattern_list_text(elems@, pretty) + " ]"@
        },
        Pattern::Parenthesized(inner) => seq!['('] + pattern_text(inner.value, pretty) + seq![')'],
        Pattern::Constructor { module_name, name, args } => if args@.len() == 0 {
            qualified_name(module_name@, name@)
        } else {
            seq!['('] + pattern_text(p, pretty) + seq![')']
        },
        Pattern::Cons { .. } => seq!['('] + pattern_text(p, pretty) + seq![')'],
        Pattern::As { .. } => seq!['('] + pattern_text(p, pretty) + seq![')'],
    }
}

impl Printer {
    /// Write a pattern.
    pub fn write_pattern(&mut self, pat: &Pattern)
        ensures
            old(self).appended(&*final(self), pattern_text(*pat, old(self).pretty())),
        decreases *pat, pattern_rank(*pat, 0),
    {
        let ghost pretty = self.pretty();
        match pat {
            Pattern::As { pattern, name } => {
                let needs_parens = self.is_pretty() && match &pattern.value {
                    Pattern::Constructor { args, .. } => args.len() > 0,
                    _ => false,
                };
                if needs_parens {
                    self.write_char('(');
                }
                self.write_pattern_cons(&pattern.value);
                if needs_parens {
                    self.write_char(')');
                }
                self.write(" as ");
                self.write(name.value.as_str());
                assert(self.text() =~= old(self).text() + pattern_text(*pat, pretty));
            },
            _ => self.write_pattern_cons(pat),
        }
    }

    fn write_pattern_cons(&mut self, pat: &Pattern)
        ensures
            old(self).appended(&*final(self), pattern_cons_text(*pat, old(self).pretty())),
        decreases *pat, pattern_rank(*pat, 1),
    {
        let ghost pretty = self.pretty();
        match pat {
            Pattern::Cons { head, tail } => {
                let needs_parens = self.is_pretty() && match &head.value {
                    Pattern::Constructor { args, .. } => args.len() > 0,
                    _ => false,
                };
                if needs_parens {
                    self.write_char('(');
                }
                self.write_pattern_app(&head.value);
                if needs_parens {
                    self.write_char(')');
                }
                self.write(" :: ");
                self.write_pattern_cons(&tail.value);
                assert(self.text() =~= old(self).text() + pattern_cons_text(*pat, pretty));
            },
            _ => self.write_pattern_app(pat),
        }
    }

    fn write_pattern_app(&mut self, pat: &Pattern)
        ensures
            old(self).appended(&*final(self), pattern_app_text(*pat, old(self).pretty())),
        decreases *pat, pattern_rank(*pat, 2),
    {
        let ghost pretty = self.pretty();
        match pat {
            Pattern::Constructor { module_name, name, args } => {
                if args.len() > 0 {
                    self.write_qualified(module_name, name.as_str());
                    let mut i: usize = 0;
                    while i < args.len()
                        invariant
                            i <= args@.len(),
                            pretty == self.pretty(),
                            *pat matches Pattern::Constructor { args: a, .. } && a == args,
                            old(self).same_state(&*self),
                            self.text() == old(self).text() + qualified_name(module_name@, name@)
                                + pattern_args_text(args@.take(i as int), pretty),
                        decreases args@.len() - i,
                    {
                        self.write_char(' ');
                        self.write_pattern_atomic(&args[i].value);
                        proof {
                            let t = args@.take(i + 1);
                            assert(t.drop_last() =~= args@.take(i as int));
                            assert(self.text() =~= old(self).text() + qualified_name(module_name@, name@)
                                + pattern_args_text(t, pretty));
                        }
                        i = i + 1;
                    }
                    assert(args@.take(i as int) =~= args@);
                    assert(self.text() =~= old(self).text() + pattern_app_text(*pat, pretty));
                } else {
                    self.write_pattern_atomic(pat);
                }
            },
            _ => self.write_pattern_atomic(pat),
        }
    }

    /// Write patterns separated by `, `.
    fn write_pattern_list(&mut self, elems: &Vec<Spanned<Pattern>>)
        ensures
            old(self).appended(&*final(self), pattern_list_text(elems@, old(self).pretty())),
        decreases elems@, 1nat,
    {
        let ghost pretty = self.pretty();
        let mut i: usize = 0;
        while i < elems.len()
            invariant
                i <= elems@.len(),
                pretty == self.pretty(),
                old(self).appended(&*self, pattern_list_text(elems@.take(i as int), pretty)),
            decreases elems@.len() - i,
        {
            if i > 0 {
                self.write(", ");
            }
            self.write_pattern(&elems[i].value);
            proof {
                let t = elems@.take(i + 1);
                assert(t.drop_last() =~= elems@.take(i as int));
                assert(self.text() =~= old(self).text() + pattern_list_text(t, pretty));
            }
            i = i + 1;
        }
        assert(elems@.take(i as int) =~= elems@);
    }

    pub(super) fn write_pattern_atomic(&mut self, pat: &Pattern)
        ensures
            old(self).appended(&*final(self), pattern_atomic_text(*pat, old(self).pretty())),
        decreases *pat, pattern_rank(*pat, 3),
    {
        let ghost pretty = self.pretty();
        match pat {
            Pattern::Anything => self.write_char('_'),
            Pattern::Var(name) => self.write(name.as_str()),
            Pattern::Literal(lit) => self.write_literal(lit),
            Pattern::Unit => self.write("()"),
            Pattern::Hex(n) => {
                self.write("0x");
                let bits: u64 = if *n < 0 {
                    (*n + 1 + 0x7FFF_FFFF_FFFF_FFFF) as u64 + 0x8000_0000_0000_0000u64
                } else {
                    *n as u64
                };
                self.write_padded(bits, 16, 0);
            },
            Pattern::Tuple(elems) => {
                self.write("( ");
                self.write_pattern_list(elems);
                self.write(" )");
            },
            Pattern::Constructor { module_name, name, args } => {
                if args.len() == 0 {
                    self.write_qualified(module_name, name.as_str());
                } else {
                    self.write_char('(');
                    self.write_pattern(pat);
                    self.write_char(')');
                }
            },
            Pattern::Record(fields) => {
                self.write("{ ");
                let mut i: usize = 0;
                while i < fields.len()
                    invariant
                        i <= fields@.len(),
                        old(self).same_state(&*self),
                        self.text() == old(self).text() + "{ "@ + name_list_text(fields@.take(i as int)),
                    decreases fields@.len() - i,
                {
                    if i > 0 {
                        self.write(", ");
                    }
                    self.write(fields[i].value.as_str());
                    proof {
                        let t = fields@.take(i + 1);
                        assert(t.drop_last() =~= fields@.take(i as int));
                        assert(self.text() =~= old(self).text() + "{ "@ + name_list_text(t));
                    }
                    i = i + 1;
                }
                assert(fields@.take(i as int) =~= fields@);
                self.write(" }");
            },
            Pattern::List(elems) => {
                if elems.len() == 0 {
                    self.write("[]");
                } else {
                    self.write("[ ");
                    self.write_pattern_list(elems);
                    self.write(" ]");
                }
            },
            Pattern::Parenthesized(inner) => {
                self.write_char('(');
                self.write_pattern(&inner.value);
                self.write_char(')');
            },
            Pattern::Cons { .. } | Pattern::As { .. } => {
                self.write_char('(');
                self.write_pattern(pat);
                self.write_char(')');
            },
        }
        assert(self.text() =~= old(self).text() + pattern_atomic_text(*pat, pretty));
    }
}

} // verus!

//! Printing of type annotations.

use vstd::prelude::*;

use super::Printer;
use crate::node::Spanned;
use crate::type_annotation::{RecordField, TypeAnnotation};

verus! {

/// Module name segments joined with `.`.
pub open spec fn dotted(parts: Seq<String>) -> Seq<char>
    decreases parts.len(),
{
    if parts.len() == 0 {
        Seq::empty()
    } else if parts.len() == 1 {
        parts[0]@
    } else {
        dotted(parts.drop_last()) + "."@ + parts.last()@
    }
}

/// A name qualified by its module: `name` or `Mod.Sub.name`.
pub open spec fn qualified_name(module_name: Seq<String>, name: Seq<char>) -> Seq<char> {
    if module_name.len() == 0 {
        name
    } else {
        dotted(module_name) + seq!['.'] + name
    }
}

/// A function type whose source span starts before its argument on the same
/// line: it was written inside parentheses.
pub open spec fn has_outer_parens(ta: Spanned<TypeAnnotation>) -> bool {
    match ta.value {
        TypeAnnotation::FunctionType { from, .. } => {
            let outer = ta.span.start;
            let inner = from.span.start;
            outer.line != 0 && inner.line != 0 && outer.line == inner.line && outer.column
                < inner.column
        },
        _ => false,
    }
}

pub open spec fn rank_type(ty: TypeAnnotation) -> nat {
    if ty is FunctionType {
        0
    } else {
        3
    }
}

pub open spec fn rank_non_arrow(ty: TypeAnnotation) -> nat {
    if ty is FunctionType {
        1
    } else {
        2
    }
}

pub open spec fn rank_atomic(ty: TypeAnnotation) -> nat {
    match ty {
        TypeAnnotation::Typed { args, .. } => if args@.len() > 0 {
            4
        } else {
            1
        },
        _ => 1,
    }
}

/// The single-line text of a type. In elm-format layout a parenthesized
/// function type on the right of an arrow keeps its parentheses.
pub open spec fn type_text(ty: TypeAnnotation, pretty: bool) -> Seq<char>
    decreases ty, rank_type(ty),
{
    match ty {
        TypeAnnotation::FunctionType { from, to } => {
            let rhs = if pretty && to.value is FunctionType && has_outer_parens(*to) {
                seq!['('] + type_text(to.value, pretty) + seq![')']
            } else {
                type_text(to.value, pretty)
            };
            type_non_arrow_text(from.value, pretty) + " -> "@ + rhs
        },
        _ => type_non_arrow_text(ty, pretty),
    }
}

/// The text of a type where an arrow would be ambiguous: function types are
/// parenthesized; applied types keep their arguments.
pub open spec fn type_non_arrow_text(ty: TypeAnnotation, pretty: bool) -> Seq<char>
    decreases ty, rank_non_arrow(ty),
{
    match ty {
        TypeAnnotation::FunctionType { .. } => seq!['('] + type_text(ty, pretty) + seq![')'],
        TypeAnnotation::Typed { module_name, name, args } => qualified_name(
            module_name@,
            name.value@,
        ) + type_args_text(args@, pretty),
        _ => type_atomic_text(ty, pretty),
    }
}

/// Each type argument preceded by a space, in atomic form.
pub open spec fn type_args_text(args: Seq<Spanned<TypeAnnotation>>, pretty: bool) -> Seq<char>
    decreases args, 0nat,
{
    if args.len() == 0 {
        Seq::empty()
    } else {
        type_args_text(args.drop_last(), pretty) + seq![' '] + type_atomic_text(
            args.last().value,
            pretty,
        )
    }
}

/// The text of a type in argument position: anything that is not a
/// variable, unit, bare name, tuple or record is parenthesized.
pub open spec fn type_atomic_text(ty: TypeAnnotation, pretty: bool) -> Seq<char>
    decreases ty, rank_atomic(ty),
{
    match ty {
        TypeAnnotation::GenericType(name) => name@,
        TypeAnnotation::Unit => "()"@,
        TypeAnnotation::Typed { module_name, name, args } => if args@.len() == 0 {
            qualified_name(module_name@, name.value@)
        } else {
            seq!['('] + type_text(ty, pretty) + seq![')']
        },
        TypeAnnotation::Tupled(elems) => "( "@ + type_list_text(elems@, pretty) + " )"@,
        TypeAnnotation::Record(fields) => record_fields_text(fields@, None, pretty),
        TypeAnnotation::GenericRecord { base, fields } => record_fields_text(
            fields@,
            Some(base.value@),
            pretty,
        ),
        TypeAnnotation::FunctionType { .. } => seq!['('] + type_text(ty, pretty) + seq![')'],
    }
}

/// Types separated by `, `.
pub open spec fn type_list_text(elems: Seq<Spanned<TypeAnnotation>>, pretty: bool) -> Seq<char>
    decreases elems, 0nat,
{
    if elems.len() == 0 {
        Seq::empty()
    } else if elems.len() == 1 {
        type_text(elems[0].value, pretty)
    } else {
        type_list_text(elems.drop_last(), pretty) + ", "@ + type_text(elems.last().value, pretty)
    }
}

/// Record fields `name : type` separated by `, `.
pub open spec fn field_list_text(fields: Seq<Spanned<RecordField>>, pretty: bool) -> Seq<char>
    decreases fields, 0nat,
{
    if fields.len() == 0 {
        Seq::empty()
    } else {
        let f = fields.last().value;
        let one = f.name.value@ + " : "@ + type_text(f.type_annotation.value, pretty);
        if fields.len() == 1 {
            one
        } else {
            field_list_text(fields.drop_last(), pretty) + ", "@ + one
        }
    }
}

/// A single-line record type: `{}`, `{ a : A, b : B }` or `{ r | a : A }`.
pub open spec fn record_fields_text(
    fields: Seq<Spanned<RecordField>>,
    base: Option<Seq<char>>,
    pretty: bool,
) -> Seq<char>
    decreases fields, 1nat,
{
    if fields.len() == 0 && base is None {
        "{}"@
    } else {
        let head = match base {
            Some(b) => "{ "@ + b + " | "@,
            None => "{ "@,
        };
        head + field_list_text(fields, pretty) + " }"@
    }
}

impl Printer {
    /// Write a module name with its segments joined by `.`.
    pub(super) fn write_dotted(&mut self, parts: &Vec<String>)
        ensures
            old(self).appended(&*final(self), dotted(parts@)),
    {
        let ghost start = self.text();
        let mut i: usize = 0;
        while i < parts.len()
            invariant
                i <= parts@.len(),
                old(self).appended(&*self, dotted(parts@.take(i as int))),
            decreases parts@.len() - i,
        {
            let ghost before = self.text();
            if i > 0 {
                self.write(".");
            }
            self.write(parts[i].as_str());
            proof {
                let t = parts@.take(i + 1);
                assert(t.drop_last() =~= parts@.take(i as int));
                assert(t.last() == parts@[i as int]);
                if i == 0 {
                    assert(t.len() == 1);
                    assert(self.text() =~= old(self).text() + dotted(t));
                } else {
                    assert(self.text() =~= old(self).text() + (dotted(t.drop_last()) + "."@ + t.last()@));
                }
            }
            i = i + 1;
        }
        proof {
            assert(parts@.take(i as int) =~= parts@);
        }
    }

    /// Write `name` qualified by `module_name`.
    pub(super) fn write_qualified(&mut self, module_name: &Vec<String>, name: &str)
        ensures
            old(self).appended(&*final(self), qualified_name(module_name@, name@)),
    {
        if module_name.len() > 0 {
            self.write_dotted(module_name);
            self.write_char('.');
        }
        self.write(name);
        assert(self.text() =~= old(self).text() + qualified_name(module_name@, name@));
    }

    /// Whether a function type was written inside parentheses in the source.
    pub(super) fn type_ann_has_outer_parens(ta: &Spanned<TypeAnnotation>) -> (r: bool)
        ensures
            r == has_outer_parens(*ta),
    {
        match &ta.value {
            TypeAnnotation::FunctionType { from, .. } => {
                let outer = ta.span.start;
                let inner = from.span.start;
                if outer.line == 0 || inner.line == 0 {
                    return false;
                }
                outer.line == inner.line && outer.column < inner.column
            },
            _ => false,
        }
    }

    /// Write a type annotation on one line.
    pub fn write_type(&mut self, ty: &TypeAnnotation)
        ensures
            old(self).appended(&*final(self), type_text(*ty, old(self).pretty())),
        decreases *ty, rank_type(*ty),
    {
        let ghost pretty = self.pretty();
        match ty {
            TypeAnnotation::FunctionType { from, to } => {
                self.write_type_non_arrow(&from.value);
                self.write(" -> ");
                let preserve_parens = self.is_pretty() && matches!(to.value, TypeAnnotation::FunctionType { .. })
                    && Self::type_ann_has_outer_parens(to);
                if preserve_parens {
                    self.write_char('(');
                    self.write_type(&to.value);
                    self.write_char(')');
                } else {
                    self.write_type(&to.value);
                }
                assert(self.text() =~= old(self).text() + type_text(*ty, pretty));
            },
            _ => self.write_type_non_arrow(ty),
        }
    }

    /// Write a type where a bare arrow would be ambiguous.
    pub(super) fn write_type_non_arrow(&mut self, ty: &TypeAnnotation)
        ensures
            old(self).appended(&*final(self), type_non_arrow_text(*ty, old(self).pretty())),
        decreases *ty, rank_non_arrow(*ty),
    {
        let ghost pretty = self.pretty();
        match ty {
            TypeAnnotation::FunctionType { .. } => {
                self.write_char('(');
                self.write_type(ty);
                self.write_char(')');
                assert(self.text() =~= old(self).text() + type_non_arrow_text(*ty, pretty));
            },
            TypeAnnotation::Typed { module_name, name, args } => {
                self.write_qualified(module_name, name.value.as_str());
                self.write_type_args(args);
                assert(self.text() =~= old(self).text() + type_non_arrow_text(*ty, pretty));
            },
            _ => self.write_type_atomic(ty),
        }
    }

    /// Write each type argument preceded by a space.
    fn write_type_args(&mut self, args: &Vec<Spanned<TypeAnnotation>>)
        ensures
            old(self).appended(&*final(self), type_args_text(args@, old(self).pretty())),
        decreases args@, 1nat,
    {
        let ghost pretty = self.pretty();
        let mut i: usize = 0;
        while i < args.len()
            invariant
                i <= args@.len(),
                pretty == self.pretty(),
                old(self).appended(&*self, type_args_text(args@.take(i as int), pretty)),
            decreases args@.len() - i,
        {
            self.write_char(' ');
            self.write_type_atomic(&args[i].value);
            proof {
                let t = args@.take(i + 1);
                assert(t.drop_last() =~= args@.take(i as int));
                assert(self.text() =~= old(self).text() + type_args_text(t, pretty));
            }
            i = i + 1;
        }
        assert(args@.take(i as int) =~= args@);
    }

    /// Write a type in argument position.
    pub(super) fn write_type_atomic(&mut self, ty: &TypeAnnotation)
        ensures
            old(self).appended(&*final(self), type_atomic_text(*ty, old(self).pretty())),
        decreases *ty, rank_atomic(*ty),
    {
        let ghost pretty = self.pretty();
        match ty {
            TypeAnnotation::GenericType(name) => self.write(name.as_str()),
            TypeAnnotation::Unit => self.write("()"),
            TypeAnnotation::Typed { module_name, name, args } => {
                if args.len() == 0 {
                    self.write_qualified(module_name, name.value.as_str());
                } else {
                    self.write_char('(');
                    self.write_type(ty);
                    self.write_char(')');
                    assert(self.text() =~= old(self).text() + type_atomic_text(*ty, pretty));
                }
            },
            TypeAnnotation::Tupled(elems) => {
                self.write("( ");
                self.write_type_list(elems);
                self.write(" )");
                assert(self.text() =~= old(self).text() + type_atomic_text(*ty, pretty));
            },
            TypeAnnotation::Record(fields) => {
                self.write_record_type_fields(fields, None);
            },
            TypeAnnotation::GenericRecord { base, fields } => {
                self.write_record_type_fields(fields, Some(base.value.as_str()));
            },
            TypeAnnotation::FunctionType { .. } => {
                self.write_char('(');
                self.write_type(ty);
                self.write_char(')');
                assert(self.text() =~= old(self).text() + type_atomic_text(*ty, pretty));
            },
        }
    }

    /// Write types separated by `, `.
    fn write_type_list(&mut self, elems: &Vec<Spanned<TypeAnnotation>>)
        ensures
            old(self).appended(&*final(self), type_list_text(elems@, old(self).pretty())),
        decreases elems@, 1nat,
    {
        let ghost pretty = self.pretty();
        let mut i: usize = 0;
        while i < elems.len()
            invariant
                i <= elems@.len(),
                pretty == self.pretty(),
                old(self).appended(&*self, type_list_text(elems@.take(i as int), pretty)),
            decreases elems@.len() - i,
        {
            if i > 0 {
                self.write(", ");
            }
            self.write_type(&elems[i].value);
            proof {
                let t = elems@.take(i + 1);
                assert(t.drop_last() =~= elems@.take(i as int));
                if i == 0 {
                    assert(self.text() =~= old(self).text() + type_list_text(t, pretty));
                } else {
                    assert(self.text() =~= old(self).text() + type_list_text(t, pretty));
                }
            }
            i = i + 1;
        }
        assert(elems@.take(i as int) =~= elems@);
    }

    /// Write a record type on one line.
    fn write_record_type_fields(&mut self, fields: &Vec<Spanned<RecordField>>, base: Option<&str>)
        ensures
            old(self).appended(
                &*final(self),
                record_fields_text(
                    fields@,
                    match base {
                        Some(b) => Some(b@),
                        None => None,
                    },
                    old(self).pretty(),
                ),
            ),
        decreases fields@, 2nat,
    {
        let ghost pretty = self.pretty();
        let ghost b = match base {
            Some(b) => Some(b@),
            None => None::<Seq<char>>,
        };
        if fields.len() == 0 && base.is_none() {
            self.write("{}");
            return;
        }
        self.write("{ ");
        if let Some(base_name) = base {
            self.write(base_name);
            self.write(" | ");
        }
        let ghost head = self.text();
        let mut i: usize = 0;
        while i < fields.len()
            invariant
                i <= fields@.len(),
                pretty == self.pretty(),
                old(self).same_state(&*self),
                self.text() == head + field_list_text(fields@.take(i as int), pretty),
            decreases fields@.len() - i,
        {
            if i > 0 {
                self.write(", ");
            }
            self.write(fields[i].value.name.value.as_str());
            self.write(" : ");
            self.write_type(&fields[i].value.type_annotation.value);
            proof {
                let t = fields@.take(i + 1);
                assert(t.drop_last() =~= fields@.take(i as int));
                assert(self.text() =~= head + field_list_text(t, pretty));
            }
            i = i + 1;
        }
        assert(fields@.take(i as int) =~= fields@);
        self.write(" }");
        assert(self.text() =~= old(self).text() + record_fields_text(fields@, b, pretty));
    }
}

/// Law: a type applied to arguments prints its name followed by its
/// arguments, and an argument that is itself applied to arguments is
/// parenthesized, so that `List (Maybe Int)` reads back as the same tree.
pub proof fn law_applied_type_argument_parenthesized(ty: TypeAnnotation, pretty: bool)
    requires
        ty is Typed,
        ty->args@.len() > 0,
        ty->args@.last().value is Typed,
        ty->args@.last().value->args@.len() > 0,
    ensures
        ({
            let args = ty->args@;
            let head = qualified_name(ty->module_name@, ty->name.value@);
            &&& type_text(ty, pretty) == head + type_args_text(args.drop_last(), pretty) + " ("@ + type_text(
                args.last().value,
                pretty,
            ) + ")"@
            &&& args.len() == 1 ==> type_text(ty, pretty) == head + " ("@ + type_text(args[0].value, pretty)
                + ")"@
        }),
{
    let args = ty->args@;
    let head = qualified_name(ty->module_name@, ty->name.value@);
    reveal_strlit(" (");
    reveal_strlit(")");
    assert(type_text(ty, pretty) == type_non_arrow_text(ty, pretty));
    assert(type_text(ty, pretty) == head + type_args_text(args, pretty));
    assert(type_atomic_text(args.last().value, pretty) == seq!['('] + type_text(args.last().value, pretty) + seq![
        ')',
    ]);
    assert(type_args_text(args, pretty) == type_args_text(args.drop_last(), pretty) + seq![' '] + type_atomic_text(
        args.last().value,
        pretty,
    ));
    assert(type_text(ty, pretty) =~= head + type_args_text(args.drop_last(), pretty) + " ("@ + type_text(
        args.last().value,
        pretty,
    ) + ")"@);
    if args.len() == 1 {
        assert(args.drop_last() =~= Seq::<Spanned<TypeAnnotation>>::empty());
        assert(args.last() == args[0]);
        assert(type_text(ty, pretty) =~= head + " ("@ + type_text(args[0].value, pretty) + ")"@);
    }
}

/// Law: a function type standing as the argument of an arrow is
/// parenthesized, so that `(a -> b) -> c` never reads back as
/// `a -> (b -> c)`.
pub proof fn law_function_argument_type_parenthesized(ty: TypeAnnotation, pretty: bool)
    requires
        ty is FunctionType,
        ty->from.value is FunctionType,
    ensures
        ({
            let lhs = seq!['('] + type_text(ty->from.value, pretty) + ")"@ + " -> "@;
            &&& type_text(ty, pretty).len() >= lhs.len()
            &&& type_text(ty, pretty).subrange(0, lhs.len() as int) == lhs
        }),
{
    let from = ty->from.value;
    let to = ty->to.value;
    reveal_strlit(")");
    reveal_strlit(" -> ");
    let rhs = if pretty && to is FunctionType && has_outer_parens(*ty->to) {
        seq!['('] + type_text(to, pretty) + seq![')']
    } else {
        type_text(to, pretty)
    };
    assert(type_non_arrow_text(from, pretty) == seq!['('] + type_text(from, pretty) + seq![')']);
    assert(type_text(ty, pretty) == type_non_arrow_text(from, pretty) + " -> "@ + rhs);
    let lhs = seq!['('] + type_text(from, pretty) + ")"@ + " -> "@;
    assert(type_text(ty, pretty) =~= lhs + rhs);
    assert(type_text(ty, pretty).subrange(0, lhs.len() as int) =~= lhs);
}

} // verus!

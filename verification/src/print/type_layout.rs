//! Multi-line layouts of type annotations (signatures, alias bodies,
//! constructor arguments and record fields whose source spanned lines).

use vstd::prelude::*;

use super::exprs::{nl, prefixed_lines, lemma_prefixed_lines_step};
use super::types::{has_outer_parens, qualified_name, type_args_text, type_atomic_text, type_non_arrow_text, type_text};
use super::Printer;
use crate::expr::Signature;
use crate::node::Spanned;
use crate::type_annotation::{RecordField, TypeAnnotation};

verus! {

/// The first and last source lines of a type annotation's content, looking
/// through wrapper spans that may include whitespace before the content.
pub open spec fn content_lines(sp: Spanned<TypeAnnotation>) -> (u32, u32)
    decreases sp,
{
    match sp.value {
        TypeAnnotation::FunctionType { from, to } => (content_lines(*from).0, content_lines(*to).1),
        TypeAnnotation::Typed { name, args, .. } => (
            name.span.start.line,
            if args@.len() > 0 {
                content_lines(args@[args@.len() - 1]).1
            } else {
                name.span.end.line
            },
        ),
        TypeAnnotation::Tupled(elems) => (
            if elems@.len() > 0 {
                content_lines(elems@[0]).0
            } else {
                sp.span.start.line
            },
            sp.span.end.line,
        ),
        _ => (sp.span.start.line, sp.span.end.line),
    }
}

/// The content of a type annotation crosses source lines.
pub open spec fn content_multi(sp: Spanned<TypeAnnotation>) -> bool {
    let (s, e) = content_lines(sp);
    s != 0 && e != 0 && e > s
}

/// A constructor argument that prints on several lines: a record of two
/// or more fields or a function type, whose content crossed lines.
pub open spec fn ctor_arg_multi(a: Spanned<TypeAnnotation>) -> bool {
    content_multi(a) && (match a.value {
        TypeAnnotation::Record(fs) => fs@.len() >= 2,
        TypeAnnotation::FunctionType { .. } => true,
        _ => false,
    })
}

/// The source span of a node covers several lines.
pub open spec fn source_multi<T>(sp: Spanned<T>) -> bool {
    sp.span.end.line > sp.span.start.line && sp.span.start.line != 0
}

/// A record argument that expands over several lines.
pub open spec fn expanding_record_arg(a: Spanned<TypeAnnotation>) -> bool {
    match a.value {
        TypeAnnotation::Record(fs) => fs@.len() >= 2 && content_multi(a),
        TypeAnnotation::GenericRecord { fields, .. } => fields@.len() > 0 && content_multi(a),
        _ => false,
    }
}

/// An arm of a multi-line function type that itself expands over lines.
pub open spec fn arm_multi(arm: Spanned<TypeAnnotation>) -> bool {
    match arm.value {
        TypeAnnotation::Record(fs) => fs@.len() >= 2 && source_multi(arm),
        TypeAnnotation::GenericRecord { fields, .. } => fields@.len() > 0 && source_multi(arm),
        TypeAnnotation::Typed { args, .. } => args@.len() > 0 && source_multi(arm) && exists|i: int|
            0 <= i < args@.len() && #[trigger] expanding_record_arg(args@[i]),
        _ => false,
    }
}

pub proof fn lemma_decreases_trans<A, B, C>(a: A, b: B, c: C)
    requires
        decreases_to!(a => b),
        decreases_to!(b => c),
    ensures
        decreases_to!(a => c),
{
}

pub fn type_ann_content_lines(sp: &Spanned<TypeAnnotation>) -> (r: (u32, u32))
    ensures
        r == content_lines(*sp),
    decreases *sp,
{
    match &sp.value {
        TypeAnnotation::FunctionType { from, to } => {
            let (fs, _fe) = type_ann_content_lines(from);
            let (_ts, te) = type_ann_content_lines(to);
            (fs, te)
        },
        TypeAnnotation::Typed { name, args, .. } => {
            let s = name.span.start.line;
            let e = if args.len() > 0 {
                proof {
                    assert(decreases_to!(sp.value => args@[args@.len() - 1]));
                }
                type_ann_content_lines(&args[args.len() - 1]).1
            } else {
                name.span.end.line
            };
            (s, e)
        },
        TypeAnnotation::Tupled(elems) => {
            let s = if elems.len() > 0 {
                proof {
                    assert(decreases_to!(sp.value => elems@[0]));
                }
                type_ann_content_lines(&elems[0]).0
            } else {
                sp.span.start.line
            };
            (s, sp.span.end.line)
        },
        _ => (sp.span.start.line, sp.span.end.line),
    }
}

/// Whether the content of a type annotation crosses source lines.
pub fn type_ann_spans_multi_lines(sp: &Spanned<TypeAnnotation>) -> (r: bool)
    ensures
        r == content_multi(*sp),
{
    let (s, e) = type_ann_content_lines(sp);
    s != 0 && e != 0 && e > s
}

pub(super) fn ctor_arg_prints_multiline(a: &Spanned<TypeAnnotation>) -> (r: bool)
    ensures
        r == ctor_arg_multi(*a),
{
    if !type_ann_spans_multi_lines(a) {
        return false;
    }
    match &a.value {
        TypeAnnotation::Record(fs) => fs.len() >= 2,
        TypeAnnotation::FunctionType { .. } => true,
        _ => false,
    }
}

fn is_expanding_record_arg(a: &Spanned<TypeAnnotation>) -> (r: bool)
    ensures
        r == expanding_record_arg(*a),
{
    match &a.value {
        TypeAnnotation::Record(fs) => fs.len() >= 2 && type_ann_spans_multi_lines(a),
        TypeAnnotation::GenericRecord { fields, .. } => fields.len() > 0 && type_ann_spans_multi_lines(a),
        _ => false,
    }
}

fn type_arm_is_multiline(arm: &Spanned<TypeAnnotation>) -> (r: bool)
    ensures
        r == arm_multi(*arm),
{
    let src_multi = arm.span.end.line > arm.span.start.line && arm.span.start.line != 0;
    match &arm.value {
        TypeAnnotation::Record(fields) => fields.len() >= 2 && src_multi,
        TypeAnnotation::GenericRecord { fields, .. } => fields.len() > 0 && src_multi,
        TypeAnnotation::Typed { args, .. } => {
            if args.len() > 0 && src_multi {
                let mut i: usize = 0;
                while i < args.len()
                    invariant
                        i <= args@.len(),
                        args@.len() > 0,
                        source_multi(*arm),
                        arm.value matches TypeAnnotation::Typed { args: a, .. } && a == args,
                        forall|k: int| 0 <= k < i ==> !#[trigger] expanding_record_arg(args@[k]),
                    decreases args@.len() - i,
                {
                    if is_expanding_record_arg(&args[i]) {
                        assert(expanding_record_arg(args@[i as int]));
                        return true;
                    }
                    i = i + 1;
                }
                false
            } else {
                false
            }
        },
        _ => false,
    }
}

/// A signature on one line: `name : type`.
pub open spec fn signature_line(sig: Signature, pretty: bool) -> Seq<char> {
    sig.name.value@ + seq![' ', ':', ' '] + type_text(sig.type_annotation.value, pretty)
}

/// A record type of two or more fields whose fields sit on several source
/// lines: elm-format layout expands it at the top of an alias.
pub open spec fn expands_record(ty: TypeAnnotation) -> bool {
    match ty {
        TypeAnnotation::Record(fields) => fields@.len() >= 2 && fields@.last().span.end.line
            > fields@[0].span.start.line,
        _ => false,
    }
}

/// An arm of a multi-line function type that stays on one line: one that
/// did not cross source lines, or that has nothing to expand.
pub open spec fn arm_flat(arm: Spanned<TypeAnnotation>) -> bool {
    !source_multi(arm) || match arm.value {
        TypeAnnotation::Record(fs) => fs@.len() < 2,
        TypeAnnotation::GenericRecord { fields, .. } => fields@.len() == 0,
        TypeAnnotation::Typed { args, .. } => args@.len() == 0,
        _ => true,
    }
}

/// One `-> arm` step on a new line at `cols`, for an arm that stays on one
/// line.
pub open spec fn arm_step_text(arm: Spanned<TypeAnnotation>, pretty: bool, cols: nat) -> Option<Seq<char>> {
    if arm_flat(arm) {
        Some(nl(cols) + seq!['-', '>', ' '] + type_non_arrow_text(arm.value, pretty))
    } else {
        None
    }
}

/// The steps after the first arm of a multi-line function type, each on a
/// new line at `cols`; in elm-format layout a function type that had its
/// own parentheses stays whole on one line after `->`.
pub open spec fn arrow_tail_text(cur: Spanned<TypeAnnotation>, pretty: bool, cols: nat) -> Option<Seq<char>>
    decreases cur,
{
    if pretty && cur.value is FunctionType && has_outer_parens(cur) {
        Some(nl(cols) + seq!['-', '>', ' ', '('] + type_text(cur.value, pretty) + seq![')'])
    } else {
        match cur.value {
            TypeAnnotation::FunctionType { from, to } => match (
                arm_step_text(*from, pretty, cols),
                arrow_tail_text(*to, pretty, cols),
            ) {
                (Some(a), Some(b)) => Some(a + b),
                _ => None,
            },
            _ => arm_step_text(cur, pretty, cols),
        }
    }
}

/// An element of a multi-line tuple type that expands over lines: a record
/// of two or more fields, or an extensible record, whose content crossed
/// source lines.
pub open spec fn tuple_elem_expands(elem: Spanned<TypeAnnotation>) -> bool {
    content_multi(elem) && match elem.value {
        TypeAnnotation::Record(fs) => fs@.len() >= 2,
        TypeAnnotation::GenericRecord { .. } => true,
        _ => false,
    }
}

/// The text of a tuple element that stays on one line.
pub open spec fn tuple_elem_text(elem: Spanned<TypeAnnotation>, pretty: bool) -> Option<Seq<char>> {
    if tuple_elem_expands(elem) {
        None
    } else {
        Some(type_text(elem.value, pretty))
    }
}

/// A multi-line tuple type: `( A`, then `, B` lines at `cols`, then `)`.
pub open spec fn tupled_lines_text(elems: Seq<Spanned<TypeAnnotation>>, pretty: bool, cols: nat) -> Option<Seq<char>> {
    match (
        tuple_elem_text(elems[0], pretty),
        prefixed_lines(
            elems.skip(1).map_values(|e: Spanned<TypeAnnotation>| tuple_elem_text(e, pretty)),
            cols,
            seq![',', ' '],
            seq![',', ' '],
        ),
    ) {
        (Some(a), Some(b)) => Some(seq!['(', ' '] + a + b + nl(cols) + seq![')']),
        _ => None,
    }
}

/// A constructor argument that prints on one line (in atomic form).
pub open spec fn ctor_arg_flat(ty: Spanned<TypeAnnotation>) -> bool {
    match ty.value {
        TypeAnnotation::Record(fs) => fs@.len() < 2,
        TypeAnnotation::FunctionType { .. } => !content_multi(ty),
        _ => true,
    }
}

/// A record field's type goes below the field in elm-format layout: its
/// source span crossed lines.
pub open spec fn field_type_breaks(ta: Spanned<TypeAnnotation>) -> bool {
    ta.span.start.line != 0 && ta.span.end.line != 0 && ta.span.end.line > ta.span.start.line
}

/// An argument of an applied type that expands over lines in a multi-line
/// type: a non-empty record, or an extensible record, whose content crossed
/// source lines.
pub open spec fn typed_arg_expands(arg: Spanned<TypeAnnotation>) -> bool {
    content_multi(arg) && match arg.value {
        TypeAnnotation::Record(fs) => fs@.len() > 0,
        TypeAnnotation::GenericRecord { .. } => true,
        _ => false,
    }
}

/// A type written over several lines where nothing in it expands: a
/// function type with its first arm, then the arrow steps at `cols`; a
/// tuple of two or more elements one per line; anything else on one line.
/// `None` where a record expands.
pub open spec fn type_multiline_text(ty: Spanned<TypeAnnotation>, pretty: bool, cols: nat) -> Option<Seq<char>> {
    match ty.value {
        TypeAnnotation::FunctionType { from, to } => if arm_flat(*from) {
            match arrow_tail_text(*to, pretty, cols) {
                Some(t) => Some(type_non_arrow_text(from.value, pretty) + t),
                None => None,
            }
        } else {
            None
        },
        TypeAnnotation::Record(fs) => if fs@.len() > 0 {
            None
        } else {
            Some(type_text(ty.value, pretty))
        },
        TypeAnnotation::GenericRecord { fields, .. } => if fields@.len() > 0 {
            None
        } else {
            Some(type_text(ty.value, pretty))
        },
        TypeAnnotation::Typed { args, .. } => if exists|k: int| 0 <= k < args@.len() && #[trigger] typed_arg_expands(args@[k]) {
            None
        } else {
            Some(type_text(ty.value, pretty))
        },
        TypeAnnotation::Tupled(elems) => if elems@.len() >= 2 {
            tupled_lines_text(elems@, pretty, cols)
        } else {
            Some(type_text(ty.value, pretty))
        },
        _ => Some(type_text(ty.value, pretty)),
    }
}

/// A record field with no comments around it on one line: `name : type`.
pub open spec fn field_line(f: Spanned<RecordField>, pretty: bool) -> Option<Seq<char>> {
    if f.comments@.len() > 0 || (pretty && field_type_breaks(f.value.type_annotation)) {
        None
    } else {
        Some(f.value.name.value@ + seq![' ', ':', ' '] + type_text(f.value.type_annotation.value, pretty))
    }
}

/// The fields of a record type one per line: the first, then `, field`
/// lines at `cols`.
pub open spec fn field_lines_text(fields: Seq<Spanned<RecordField>>, pretty: bool, cols: nat) -> Option<Seq<char>> {
    if fields.len() == 0 {
        Some(Seq::empty())
    } else {
        match (
            field_line(fields[0], pretty),
            prefixed_lines(
                fields.skip(1).map_values(|f: Spanned<RecordField>| field_line(f, pretty)),
                cols,
                seq![',', ' '],
                seq![',', ' '],
            ),
        ) {
            (Some(a), Some(b)) => Some(a + b),
            _ => None,
        }
    }
}

/// A record type with one field per line: `{ a : A`, `, b : B` lines at
/// `cols`, `}`; for an extensible record `{ r`, then `| a : A` and the
/// other fields one level in at `inner` columns.
pub open spec fn record_lines_text(
    fields: Seq<Spanned<RecordField>>,
    base: Option<Seq<char>>,
    pretty: bool,
    cols: nat,
    inner: nat,
) -> Option<Seq<char>> {
    let lead = match base {
        Some(b) => seq!['{', ' '] + b + nl(inner) + seq!['|', ' '],
        None => seq!['{', ' '],
    };
    match field_lines_text(fields, pretty, if base is Some { inner } else { cols }) {
        Some(t) => Some(lead + t + nl(cols) + seq!['}']),
        None => None,
    }
}

/// A record field's type on the lines below the field, one level in at
/// `cols` (`inner` two levels in): a non-empty record or an extensible
/// record one field per line, an applied type as `type_multiline_text`,
/// anything else on one line.
pub open spec fn broken_field_type_text(ta: Spanned<TypeAnnotation>, pretty: bool, cols: nat, inner: nat) -> Option<
    Seq<char>,
> {
    match ta.value {
        TypeAnnotation::Record(fs) => if fs@.len() > 0 {
            record_lines_text(fs@, None, pretty, cols, inner)
        } else {
            Some(type_text(ta.value, pretty))
        },
        TypeAnnotation::GenericRecord { base, fields } => record_lines_text(fields@, Some(base.value@), pretty, cols, inner),
        TypeAnnotation::Typed { .. } => type_multiline_text(ta, pretty, cols),
        _ => Some(type_text(ta.value, pretty)),
    }
}

/// The arms of a function type: the argument types in order, then the
/// result type.
pub open spec fn fn_arms(ty: TypeAnnotation) -> Seq<TypeAnnotation>
    decreases ty,
{
    match ty {
        TypeAnnotation::FunctionType { from, to } => seq![from.value] + fn_arms(to.value),
        _ => seq![ty],
    }
}

/// A function type in parentheses with one arm per line: `(` and the first
/// arm, then ` -> arm` lines at `cols`, then `)` on a line of its own.
pub open spec fn paren_fn_type_text(ty: TypeAnnotation, pretty: bool, cols: nat) -> Option<Seq<char>> {
    let arms = fn_arms(ty);
    match prefixed_lines(
        arms.skip(1).map_values(|a: TypeAnnotation| Some(type_non_arrow_text(a, pretty))),
        cols,
        seq![' ', '-', '>', ' '],
        seq![' ', '-', '>', ' '],
    ) {
        Some(t) => Some(seq!['('] + type_atomic_text(arms[0], pretty) + t + nl(cols) + seq![')']),
        None => None,
    }
}

impl Printer {
    /// Write a type signature `name : type`; in elm-format layout a type
    /// whose content crossed source lines is written over several lines.
    pub(super) fn write_signature(&mut self, sig: &Signature)
        requires
            old(self).wf(),
        ensures
            old(self).extended(&*final(self)),
            !(old(self).pretty() && content_multi(sig.type_annotation)) ==> final(self).text() == old(self).text()
                + signature_line(*sig, old(self).pretty()),
    {
        self.write(sig.name.value.as_str());
        if self.is_pretty() && type_ann_spans_multi_lines(&sig.type_annotation) {
            self.write(" :");
            self.indent();
            self.newline_indent();
            self.write_type_multiline(&sig.type_annotation);
            self.dedent();
        } else {
            self.write(" : ");
            self.write_type(&sig.type_annotation.value);
            proof {
                reveal_strlit(" : ");
                assert(self.text() =~= old(self).text() + signature_line(*sig, old(self).pretty()));
            }
        }
    }

    /// Write a type annotation over several lines: function arrows on their
    /// own lines, records expanded.
    #[verifier::spinoff_prover]
    pub(super) fn write_type_multiline(&mut self, ty: &Spanned<TypeAnnotation>)
        requires
            old(self).wf(),
        ensures
            old(self).extended(&*final(self)),
            type_multiline_text(*ty, old(self).pretty(), old(self).indent_columns()) matches Some(t)
                ==> final(self).text() == old(self).text() + t,
        decreases *ty, 0nat,
    {
        let ghost pretty = self.pretty();
        let ghost cols = self.indent_columns();
        match &ty.value {
            TypeAnnotation::FunctionType { from, to } => {
                self.write_type_arm_multiline(from);
                let ghost a = self.text();
                proof {
                    old(self).same_state_keeps_layout(&*self);
                }
                self.write_arrow_tail(to);
                proof {
                    if let Some(t) = type_multiline_text(*ty, pretty, cols) {
                        assert(a == old(self).text() + type_non_arrow_text(from.value, pretty));
                        assert(self.text() =~= old(self).text() + t);
                    }
                }
            },
            TypeAnnotation::Record(fields) => {
                if fields.len() > 0 {
                    self.write_record_type_fields_multiline(fields, None);
                } else {
                    self.write_type(&ty.value);
                }
            },
            TypeAnnotation::GenericRecord { base, fields } => {
                if fields.len() > 0 {
                    self.write_record_type_fields_multiline(fields, Some(base.value.as_str()));
                } else {
                    self.write_type(&ty.value);
                }
            },
            TypeAnnotation::Typed { module_name, name, args } => {
                if args.len() > 0 {
                    self.write_qualified(module_name, name.value.as_str());
                    let ghost head = self.text();
                    let ghost flat = !exists|k: int| 0 <= k < args@.len() && #[trigger] typed_arg_expands(args@[k]);
                    let mut i: usize = 0;
                    while i < args.len()
                        invariant
                            i <= args@.len(),
                            old(self).wf(),
                            old(self).extended(&*self),
                            pretty == old(self).pretty(),
                            ty.value matches TypeAnnotation::Typed { args: a, .. } && a == args,
                            flat == !exists|k: int| 0 <= k < args@.len() && #[trigger] typed_arg_expands(args@[k]),
                            head == old(self).text() + qualified_name(module_name@, name.value@),
                            flat ==> self.text() == head + type_args_text(args@.take(i as int), pretty),
                        decreases args@.len() - i,
                    {
                        let ghost before = self.text();
                        proof {
                            old(self).same_state_keeps_layout(&*self);
                            if flat {
                                assert(!typed_arg_expands(args@[i as int]));
                            }
                        }
                        let arg = &args[i];
                        proof {
                            assert(decreases_to!(ty.value => args@[i as int]));
                            lemma_decreases_trans(*ty, ty.value, args@[i as int]);
                        }
                        let mut done = false;
                        if type_ann_spans_multi_lines(arg) {
                            match &arg.value {
                                TypeAnnotation::Record(rfields) => {
                                    if rfields.len() > 0 {
                                        self.indent();
                                        self.newline_indent();
                                        self.write_record_type_fields_multiline(rfields, None);
                                        self.dedent();
                                        done = true;
                                    }
                                },
                                TypeAnnotation::GenericRecord { base, fields: rfields } => {
                                    self.indent();
                                    self.newline_indent();
                                    self.write_record_type_fields_multiline(rfields, Some(base.value.as_str()));
                                    self.dedent();
                                    done = true;
                                },
                                _ => {},
                            }
                        }
                        if !done {
                            self.write_char(' ');
                            self.write_type_atomic(&arg.value);
                        }
                        proof {
                            if flat {
                                assert(!done);
                                let t = args@.take(i + 1);
                                assert(t.drop_last() =~= args@.take(i as int));
                                assert(self.text() =~= head + type_args_text(t, pretty));
                            }
                        }
                        i = i + 1;
                    }
                    proof {
                        assert(args@.take(i as int) =~= args@);
                        if flat {
                            assert(type_text(ty.value, pretty) == type_non_arrow_text(ty.value, pretty));
                            assert(self.text() =~= old(self).text() + type_text(ty.value, pretty));
                        }
                    }
                } else {
                    self.write_type(&ty.value);
                }
            },
            TypeAnnotation::Tupled(elems) => {
                if elems.len() >= 2 {
                    self.write_tupled_multiline(elems);
                } else {
                    self.write_type(&ty.value);
                }
            },
            _ => self.write_type(&ty.value),
        }
    }

    /// The arms after the first one of a multi-line function type, each on
    /// its own line after `->`. A right-hand function type that had its own
    /// parentheses in the source stays whole on one line.
    fn write_arrow_tail(&mut self, cur: &Spanned<TypeAnnotation>)
        requires
            old(self).wf(),
        ensures
            old(self).extended(&*final(self)),
            arrow_tail_text(*cur, old(self).pretty(), old(self).indent_columns()) matches Some(t) ==> final(self).text()
                == old(self).text() + t,
        decreases *cur, 3nat,
    {
        let ghost pretty = self.pretty();
        let ghost cols = self.indent_columns();
        let is_fn = match &cur.value {
            TypeAnnotation::FunctionType { .. } => true,
            _ => false,
        };
        if self.is_pretty() && is_fn && Self::type_ann_has_outer_parens(cur) {
            self.newline_indent();
            self.write("-> (");
            self.write_type(&cur.value);
            self.write_char(')');
            proof {
                reveal_strlit("-> (");
                assert(self.text() =~= old(self).text() + nl(cols) + seq!['-', '>', ' ', '('] + type_text(cur.value, pretty)
                    + seq![')']);
            }
            return;
        }
        match &cur.value {
            TypeAnnotation::FunctionType { from, to } => {
                self.write_function_arm_arrow(from);
                let ghost a = self.text();
                proof {
                    old(self).same_state_keeps_layout(&*self);
                }
                self.write_arrow_tail(to);
                proof {
                    if let Some(t) = arrow_tail_text(*cur, pretty, cols) {
                        assert(a == old(self).text() + arm_step_text(**from, pretty, cols)->0);
                        assert(self.text() =~= old(self).text() + t);
                    }
                }
            },
            _ => {
                self.write_function_arm_arrow(cur);
            },
        }
    }

    /// A multi-line tuple type: `( A` then `, B` lines, then `)`.
    #[verifier::spinoff_prover]
    fn write_tupled_multiline(&mut self, elems: &Vec<Spanned<TypeAnnotation>>)
        requires
            old(self).wf(),
            elems@.len() > 0,
        ensures
            old(self).extended(&*final(self)),
            tupled_lines_text(elems@, old(self).pretty(), old(self).indent_columns()) matches Some(t)
                ==> final(self).text() == old(self).text() + t,
        decreases *elems, 0nat,
    {
        let ghost pretty = self.pretty();
        let ghost cols = self.indent_columns();
        let ghost parts = elems@.skip(1).map_values(|e: Spanned<TypeAnnotation>| tuple_elem_text(e, pretty));
        let ghost whole = tupled_lines_text(elems@, pretty, cols);
        self.write("( ");
        self.write_tuple_elem(&elems[0]);
        let ghost start = self.text();
        proof {
            reveal(prefixed_lines);
            assert(parts.take(0) =~= Seq::<Option<Seq<char>>>::empty());
        }
        let mut i: usize = 1;
        while i < elems.len()
            invariant
                1 <= i <= elems@.len(),
                parts.len() == elems@.len() - 1,
                old(self).wf(),
                old(self).extended(&*self),
                pretty == old(self).pretty(),
                cols == old(self).indent_columns(),
                parts == elems@.skip(1).map_values(|e: Spanned<TypeAnnotation>| tuple_elem_text(e, pretty)),
                whole == tupled_lines_text(elems@, pretty, cols),
                whole is Some ==> prefixed_lines(parts, cols, seq![',', ' '], seq![',', ' ']) is Some,
                whole is Some ==> (prefixed_lines(parts.take(i - 1), cols, seq![',', ' '], seq![',', ' ']) matches Some(
                    t,
                ) && self.text() == start + t),
            decreases elems@.len() - i,
        {
            proof {
                old(self).same_state_keeps_layout(&*self);
                if whole is Some {
                    lemma_prefixed_lines_step(parts, cols, seq![',', ' '], seq![',', ' '], i - 1);
                }
            }
            let ghost before = self.text();
            self.newline_indent();
            self.write(", ");
            let ghost a = self.text();
            self.write_tuple_elem(&elems[i]);
            proof {
                reveal_strlit(", ");
                if whole is Some {
                    assert(parts[i - 1] == tuple_elem_text(elems@[i as int], pretty));
                    assert(a =~= before + nl(cols) + seq![',', ' ']);
                    assert(self.text() =~= start + prefixed_lines(
                        parts.take(i as int),
                        cols,
                        seq![',', ' '],
                        seq![',', ' '],
                    )->0);
                }
            }
            i = i + 1;
        }
        let ghost end = self.text();
        proof {
            assert(parts.take(i - 1) =~= parts);
            old(self).same_state_keeps_layout(&*self);
        }
        self.newline_indent();
        self.write(")");
        proof {
            reveal_strlit("( ");
            reveal_strlit(")");
            if let Some(t) = whole {
                let a = tuple_elem_text(elems@[0], pretty)->0;
                assert(start =~= old(self).text() + seq!['(', ' '] + a);
                assert(self.text() =~= old(self).text() + t);
            }
        }
    }

    /// One element of a multi-line tuple type; a multi-line record element
    /// expands at its own column, two past the tuple's `(`.
    fn write_tuple_elem(&mut self, elem: &Spanned<TypeAnnotation>)
        requires
            old(self).wf(),
        ensures
            old(self).extended(&*final(self)),
            tuple_elem_text(*elem, old(self).pretty()) matches Some(t) ==> final(self).text() == old(self).text() + t,
        decreases *elem, 0nat,
    {
        let elem_multi = type_ann_spans_multi_lines(elem);
        match &elem.value {
            TypeAnnotation::Record(fields) => {
                if elem_multi && fields.len() >= 2 {
                    let saved = self.indent_extra;
                    self.indent_extra = saved.saturating_add(2);
                    self.write_record_type_fields_multiline(fields, None);
                    self.indent_extra = saved;
                } else {
                    self.write_type(&elem.value);
                }
            },
            TypeAnnotation::GenericRecord { base, fields } => {
                if elem_multi {
                    let saved = self.indent_extra;
                    self.indent_extra = saved.saturating_add(2);
                    self.write_record_type_fields_multiline(fields, Some(base.value.as_str()));
                    self.indent_extra = saved;
                } else {
                    self.write_type(&elem.value);
                }
            },
            _ => self.write_type(&elem.value),
        }
    }

    /// One `-> arm` step of a multi-line function type; an arm that itself
    /// expands over lines goes below a lone `->`.
    fn write_function_arm_arrow(&mut self, arm: &Spanned<TypeAnnotation>)
        requires
            old(self).wf(),
        ensures
            old(self).extended(&*final(self)),
            arm_step_text(*arm, old(self).pretty(), old(self).indent_columns()) matches Some(t) ==> final(self).text()
                == old(self).text() + t,
        decreases *arm, 2nat,
    {
        let ghost pretty = self.pretty();
        let ghost cols = self.indent_columns();
        self.newline_indent();
        if type_arm_is_multiline(arm) {
            self.write("->");
            self.indent();
            self.newline_indent();
            self.write_type_arm_multiline(arm);
            self.dedent();
        } else {
            self.write("-> ");
            let ghost a = self.text();
            proof {
                old(self).same_state_keeps_layout(&*self);
            }
            self.write_type_arm_multiline(arm);
            proof {
                reveal_strlit("-> ");
                if let Some(t) = arm_step_text(*arm, pretty, cols) {
                    assert(a =~= old(self).text() + nl(cols) + seq!['-', '>', ' ']);
                    assert(self.text() =~= old(self).text() + t);
                }
            }
        }
    }

    /// One arm of a multi-line function type: records and applied types
    /// whose source crossed lines expand; others stay on one line.
    fn write_type_arm_multiline(&mut self, arm: &Spanned<TypeAnnotation>)
        requires
            old(self).wf(),
        ensures
            old(self).extended(&*final(self)),
            arm_flat(*arm) ==> final(self).text() == old(self).text() + type_non_arrow_text(
                arm.value,
                old(self).pretty(),
            ),
        decreases *arm, 1nat,
    {
        let source_multi = arm.span.end.line > arm.span.start.line && arm.span.start.line != 0;
        match &arm.value {
            TypeAnnotation::Record(fields) => {
                if fields.len() >= 2 && source_multi {
                    self.write_record_type_fields_multiline(fields, None);
                } else {
                    self.write_type_non_arrow(&arm.value);
                }
            },
            TypeAnnotation::GenericRecord { base, fields } => {
                if fields.len() > 0 && source_multi {
                    self.write_record_type_fields_multiline(fields, Some(base.value.as_str()));
                } else {
                    self.write_type_non_arrow(&arm.value);
                }
            },
            TypeAnnotation::Typed { args, .. } => {
                if args.len() > 0 && source_multi {
                    self.write_type_multiline(arm);
                } else {
                    self.write_type_non_arrow(&arm.value);
                }
            },
            _ => self.write_type_non_arrow(&arm.value),
        }
    }

    /// The body of a type alias in elm-format layout when its content is on
    /// one line: a record of two or more fields whose fields sit on several
    /// source lines is expanded, anything else stays on one line.
    pub(super) fn write_type_pretty_toplevel(&mut self, ty: &TypeAnnotation)
        requires
            old(self).wf(),
        ensures
            old(self).extended(&*final(self)),
            !expands_record(*ty) ==> final(self).text() == old(self).text() + type_text(*ty, old(self).pretty()),
    {
        match ty {
            TypeAnnotation::Record(fields) => {
                if fields.len() >= 2 {
                    let first_line = fields[0].span.start.line;
                    let last_line = fields[fields.len() - 1].span.end.line;
                    if last_line > first_line {
                        self.write_record_type_fields_multiline(fields, None);
                    } else {
                        self.write_type(ty);
                    }
                } else {
                    self.write_type(ty);
                }
            },
            _ => self.write_type(ty),
        }
    }

    /// A record type with one field per line: `{ a : A`, `, b : B`, `}`
    /// (or `{ r` then `| a : A` for an extensible record).
    #[verifier::spinoff_prover]
    pub(super) fn write_record_type_fields_multiline(
        &mut self,
        fields: &Vec<Spanned<RecordField>>,
        base: Option<&str>,
    )
        requires
            old(self).wf(),
            base is None ==> fields@.len() > 0,
        ensures
            old(self).extended(&*final(self)),
            record_lines_text(
                fields@,
                match base {
                    Some(b) => Some(b@),
                    None => None,
                },
                old(self).pretty(),
                old(self).indent_columns(),
                old(self).inner_columns(),
            ) matches Some(t) ==> final(self).text() == old(self).text() + t,
        decreases *fields, 2nat,
    {
        let ghost pretty = self.pretty();
        let ghost cols = self.indent_columns();
        let ghost inner = self.inner_columns();
        let ghost lead;
        match base {
            Some(base_name) => {
                self.write("{ ");
                self.write(base_name);
                self.indent();
                self.newline_indent();
                self.write("| ");
                let ghost a = self.text();
                let ghost m0: Printer = *self;
                assert(m0.indented_from(&*old(self)));
                self.write_field_lines(fields);
                let ghost b = self.text();
                assert(m0.extended(&*self));
                self.dedent();
                proof {
                    reveal_strlit("{ ");
                    reveal_strlit("| ");
                    old(self).same_state_keeps_layout(&*self);
                    lead = seq!['{', ' '] + base_name@ + nl(inner) + seq!['|', ' '];
                    assert(a =~= old(self).text() + lead);
                    if let Some(t) = field_lines_text(fields@, pretty, inner) {
                        assert(self.text() == a + t);
                    }
                }
            },
            None => {
                self.write("{ ");
                let ghost a = self.text();
                self.write_field_lines(fields);
                proof {
                    reveal_strlit("{ ");
                    old(self).same_state_keeps_layout(&*self);
                    lead = seq!['{', ' '];
                    assert(a =~= old(self).text() + lead);
                }
            },
        }
        let ghost mid = self.text();
        assert(old(self).extended(&*self));
        self.newline_indent();
        self.write("}");
        proof {
            assert(self.text() =~= mid + nl(cols) + seq!['}']) by {
                reveal_strlit("}");
            }
            super::lemma_prefix_concat(mid, nl(cols) + seq!['}']);
            super::lemma_prefix_trans(old(self).text(), mid, self.text());
            reveal_strlit("}");
            let bv: Option<Seq<char>> = match base {
                Some(b) => Some(b@),
                None => None,
            };
            if let Some(t) = record_lines_text(fields@, bv, pretty, cols, inner) {
                let f = field_lines_text(fields@, pretty, if bv is Some { inner } else { cols })->0;
                assert(mid == old(self).text() + lead + f);
                assert(self.text() =~= old(self).text() + t);
            }
        }
    }

    /// The fields of a record type one per line: the first with its
    /// comments inline, then each after `,` on a new line.
    #[verifier::spinoff_prover]
    fn write_field_lines(&mut self, fields: &Vec<Spanned<RecordField>>)
        requires
            old(self).wf(),
        ensures
            old(self).extended(&*final(self)),
            field_lines_text(fields@, old(self).pretty(), old(self).indent_columns()) matches Some(t)
                ==> final(self).text() == old(self).text() + t,
        decreases *fields, 1nat,
    {
        let ghost pretty = self.pretty();
        let ghost cols = self.indent_columns();
        let ghost parts = fields@.skip(1).map_values(|f: Spanned<RecordField>| field_line(f, pretty));
        let ghost whole = field_lines_text(fields@, pretty, cols);
        if fields.len() == 0 {
            return;
        }
        let ghost start = self.text();
        proof {
            reveal(prefixed_lines);
            assert(parts.take(0) =~= Seq::<Option<Seq<char>>>::empty());
        }
        let mut i: usize = 0;
        while i < fields.len()
            invariant
                i <= fields@.len(),
                fields@.len() > 0,
                parts.len() == fields@.len() - 1,
                old(self).wf(),
                old(self).extended(&*self),
                pretty == old(self).pretty(),
                cols == old(self).indent_columns(),
                start == old(self).text(),
                parts == fields@.skip(1).map_values(|f: Spanned<RecordField>| field_line(f, pretty)),
                whole == field_lines_text(fields@, pretty, cols),
                whole is Some ==> prefixed_lines(parts, cols, seq![',', ' '], seq![',', ' ']) is Some,
                whole is Some ==> field_line(fields@[0], pretty) is Some,
                whole is Some && i == 0 ==> self.text() == start,
                prefixed_lines(parts.take(0), cols, seq![',', ' '], seq![',', ' ']) == Some(Seq::<char>::empty()),
                whole is Some && i > 0 ==> (prefixed_lines(parts.take(i - 1), cols, seq![',', ' '], seq![',', ' '])
                    matches Some(t) && self.text() == start + field_line(fields@[0], pretty)->0 + t),
            decreases fields@.len() - i,
        {
            proof {
                old(self).same_state_keeps_layout(&*self);
                if whole is Some && i > 0 {
                    lemma_prefixed_lines_step(parts, cols, seq![',', ' '], seq![',', ' '], i - 1);
                }
            }
            let ghost before = self.text();
            let field = &fields[i];
            if i > 0 {
                self.write_record_field_separator_with_comments(&field.comments);
            } else {
                self.write_record_field_leading_comments_inline(&field.comments);
            }
            let ghost a = self.text();
            proof {
                old(self).same_state_keeps_layout(&*self);
            }
            self.write(field.value.name.value.as_str());
            proof {
                assert(decreases_to!(*fields => fields@[i as int]));
                lemma_decreases_trans(*fields, fields@[i as int], fields@[i as int].value);
                lemma_decreases_trans(*fields, fields@[i as int].value, fields@[i as int].value.type_annotation);
            }
            let ghost b = self.text();
            self.write_field_type_with_possible_break(&field.value.type_annotation);
            proof {
                if whole is Some {
                    let fl = if i == 0 {
                        field_line(fields@[0], pretty)
                    } else {
                        parts[i - 1]
                    };
                    assert(fl == field_line(fields@[i as int], pretty));
                    assert(field.comments@.len() == 0);
                    if i > 0 {
                        assert(a =~= before + nl(cols) + seq![',', ' ']);
                    } else {
                        assert(a == before);
                    }
                    assert(self.text() =~= a + fl->0);
                    if i > 0 {
                        assert(self.text() =~= start + field_line(fields@[0], pretty)->0 + prefixed_lines(
                            parts.take(i as int),
                            cols,
                            seq![',', ' '],
                            seq![',', ' '],
                        )->0);
                    } else {
                        assert(self.text() =~= start + field_line(fields@[0], pretty)->0 + Seq::<char>::empty());
                    }
                }
            }
            i = i + 1;
        }
        proof {
            assert(parts.take(i - 1) =~= parts);
        }
    }

    /// ` : type` for a record field; in elm-format layout, when the source
    /// put the type on a later line, the type goes below on its own line.
    fn write_field_type_with_possible_break(&mut self, ta: &Spanned<TypeAnnotation>)
        requires
            old(self).wf(),
        ensures
            old(self).extended(&*final(self)),
            !(old(self).pretty() && field_type_breaks(*ta)) ==> final(self).text() == old(self).text() + seq![
                ' ',
                ':',
                ' ',
            ] + type_text(ta.value, old(self).pretty()),
            old(self).pretty() && field_type_breaks(*ta) ==> (broken_field_type_text(
                *ta,
                old(self).pretty(),
                old(self).inner_columns(),
                old(self).inner2_columns(),
            ) matches Some(t) ==> final(self).text() == old(self).text() + seq![' ', ':'] + nl(old(self).inner_columns())
                + t),
        decreases *ta, 1nat,
    {
        let ghost pretty = self.pretty();
        let ghost inner = self.inner_columns();
        let ghost inner2 = self.inner2_columns();
        let wrapper_multi = ta.span.start.line != 0 && ta.span.end.line != 0 && ta.span.end.line
            > ta.span.start.line;
        if self.is_pretty() && wrapper_multi {
            self.write(" :");
            proof {
                old(self).same_state_keeps_layout(&*self);
            }
            self.indent();
            self.newline_indent();
            let ghost a = self.text();
            match &ta.value {
                TypeAnnotation::Record(rfields) => {
                    if rfields.len() > 0 {
                        self.write_record_type_fields_multiline(rfields, None);
                    } else {
                        self.write_type(&ta.value);
                    }
                },
                TypeAnnotation::GenericRecord { base, fields: rfields } => {
                    self.write_record_type_fields_multiline(rfields, Some(base.value.as_str()));
                },
                TypeAnnotation::Typed { .. } => {
                    self.write_type_multiline(ta);
                },
                _ => {
                    self.write_type(&ta.value);
                },
            }
            let ghost b = self.text();
            self.dedent();
            proof {
                reveal_strlit(" :");
                if let Some(t) = broken_field_type_text(*ta, pretty, inner, inner2) {
                    assert(a =~= old(self).text() + seq![' ', ':'] + nl(inner));
                    assert(b == a + t);
                }
            }
            return;
        }
        self.write(" : ");
        self.write_type(&ta.value);
        proof {
            reveal_strlit(" : ");
            assert(self.text() =~= old(self).text() + seq![' ', ':', ' '] + type_text(ta.value, pretty));
        }
    }

    /// One argument of a constructor laid out over several lines.
    pub(super) fn write_ctor_arg_multiline(&mut self, ty: &Spanned<TypeAnnotation>)
        requires
            old(self).wf(),
        ensures
            old(self).extended(&*final(self)),
            ctor_arg_flat(*ty) ==> final(self).text() == old(self).text() + type_atomic_text(
                ty.value,
                old(self).pretty(),
            ),
    {
        match &ty.value {
            TypeAnnotation::Record(fields) => {
                if fields.len() >= 2 {
                    self.write_record_type_fields_multiline(fields, None);
                } else {
                    self.write_type_atomic(&ty.value);
                }
            },
            TypeAnnotation::FunctionType { .. } => {
                if type_ann_spans_multi_lines(ty) {
                    self.write_parenthesized_function_type_multiline(&ty.value);
                } else {
                    self.write_type_atomic(&ty.value);
                }
            },
            _ => self.write_type_atomic(&ty.value),
        }
    }

    /// A function type in parentheses with one arm per line, the arrows one
    /// column past the `(` and the `)` on its own line.
    #[verifier::spinoff_prover]
    fn write_parenthesized_function_type_multiline(&mut self, ty: &TypeAnnotation)
        requires
            old(self).wf(),
        ensures
            old(self).extended(&*final(self)),
            paren_fn_type_text(*ty, old(self).pretty(), old(self).indent_columns()) matches Some(t)
                ==> final(self).text() == old(self).text() + t,
    {
        let ghost pretty = self.pretty();
        let ghost cols = self.indent_columns();
        self.write_char('(');
        let mut arms: Vec<&TypeAnnotation> = Vec::new();
        let mut cur = ty;
        loop
            invariant_except_break
                arms@.map_values(|r: &TypeAnnotation| *r) + fn_arms(*cur) == fn_arms(*ty),
            invariant
                old(self).extended(&*self),
            ensures
                arms@.map_values(|r: &TypeAnnotation| *r) == fn_arms(*ty),
            decreases *cur,
        {
            let ghost before = arms@;
            match cur {
                TypeAnnotation::FunctionType { from, to } => {
                    arms.push(&from.value);
                    cur = &to.value;
                    proof {
                        assert(arms@.map_values(|r: &TypeAnnotation| *r) =~= before.map_values(
                            |r: &TypeAnnotation| *r,
                        ).push(from.value));
                    }
                },
                _ => {
                    arms.push(cur);
                    proof {
                        assert(arms@.map_values(|r: &TypeAnnotation| *r) =~= before.map_values(
                            |r: &TypeAnnotation| *r,
                        ) + fn_arms(*cur));
                    }
                    break;
                },
            }
        }
        let ghost av = arms@.map_values(|r: &TypeAnnotation| *r);
        let ghost parts = av.skip(1).map_values(|a: TypeAnnotation| Some(type_non_arrow_text(a, pretty)));
        let ghost whole = paren_fn_type_text(*ty, pretty, cols);
        proof {
            reveal(prefixed_lines);
            assert(parts.take(0) =~= Seq::<Option<Seq<char>>>::empty());
        }
        if arms.len() > 0 {
            self.write_type_atomic(arms[0]);
            let ghost start = self.text();
            let mut i: usize = 1;
            while i < arms.len()
                invariant
                    1 <= i <= arms@.len(),
                    av == arms@.map_values(|r: &TypeAnnotation| *r),
                    av == fn_arms(*ty),
                    parts.len() == av.len() - 1,
                    parts == av.skip(1).map_values(|a: TypeAnnotation| Some(type_non_arrow_text(a, pretty))),
                    old(self).extended(&*self),
                    pretty == old(self).pretty(),
                    cols == old(self).indent_columns(),
                    whole == paren_fn_type_text(*ty, pretty, cols),
                    whole is Some ==> prefixed_lines(parts, cols, seq![' ', '-', '>', ' '], seq![' ', '-', '>', ' ']) is Some,
                    whole is Some ==> (prefixed_lines(
                        parts.take(i - 1),
                        cols,
                        seq![' ', '-', '>', ' '],
                        seq![' ', '-', '>', ' '],
                    ) matches Some(t) && self.text() == start + t),
                decreases arms@.len() - i,
            {
                proof {
                    old(self).same_state_keeps_layout(&*self);
                    if whole is Some {
                        lemma_prefixed_lines_step(parts, cols, seq![' ', '-', '>', ' '], seq![' ', '-', '>', ' '], i - 1);
                    }
                }
                let ghost before = self.text();
                self.newline_indent();
                self.write_char(' ');
                self.write("-> ");
                let ghost a = self.text();
                self.write_type_non_arrow(arms[i]);
                proof {
                    reveal_strlit("-> ");
                    if whole is Some {
                        assert(parts[i - 1] == Some(type_non_arrow_text(av[i as int], pretty)));
                        assert(a =~= before + nl(cols) + seq![' ', '-', '>', ' ']);
                        assert(self.text() =~= start + prefixed_lines(
                            parts.take(i as int),
                            cols,
                            seq![' ', '-', '>', ' '],
                            seq![' ', '-', '>', ' '],
                        )->0);
                    }
                }
                i = i + 1;
            }
            proof {
                assert(parts.take(i - 1) =~= parts);
                old(self).same_state_keeps_layout(&*self);
                if let Some(t) = whole {
                    assert(start =~= old(self).text() + seq!['('] + type_atomic_text(av[0], pretty));
                }
            }
        }
        let ghost end = self.text();
        self.newline_indent();
        self.write_char(')');
        proof {
            if let Some(t) = whole {
                assert(self.text() =~= old(self).text() + t);
            }
        }
    }
}

} // verus!

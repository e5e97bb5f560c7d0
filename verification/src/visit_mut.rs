//! Mutable visitor trait for traversing and transforming Elm syntax trees.
//!
//! Implement [`VisitMut`] to change nodes in place. A `visit_*_mut` method
//! that wants the usual descent calls the corresponding `walk_*_mut`
//! function, which visits the node's children in source order. As for
//! [`crate::visit::Visit`], only the leaf hooks have a default body, which
//! leaves the node as it is; a `walk_*_mut` function hands each child to
//! the same method, and the same nodes, as the `walk_*` function of
//! [`crate::visit`] does.
//!
//! Each implementation says, through [`VisitMut::visits_mut`], how one
//! call changes it and the node it is handed; the `walk_*_mut` functions
//! state which calls they make, in order, as a chain of such steps
//! ([`visit_run_mut`]), over the children before and after.

use vstd::prelude::*;

use crate::comment::Comment;
use crate::declaration::{CustomType, Declaration, InfixDef, TypeAlias, ValueConstructor};
use crate::exposing::{ExposedItem, Exposing};
use crate::expr::{
    CaseBranch, Expr, Function, FunctionImplementation, LetDeclaration, RecordSetter, Signature,
};
use crate::file::ElmModule;
use crate::import::Import;
use crate::literal::Literal;
use crate::module_header::ModuleHeader;
use crate::node::Spanned;
use crate::pattern::Pattern;
use crate::type_annotation::{RecordField, TypeAnnotation};
use crate::visit::{
    arm_nodes, case_branch_nodes, comment_nodes, constructor_nodes, custom_type_nodes, declaration_list_nodes,
    declaration_nodes, expr_nodes, expr_nodes_of, exposed_item_nodes, exposing_nodes, field_nodes, function_implementation_nodes,
    function_nodes, import_list_nodes, import_nodes, let_declaration_list_nodes, let_declaration_nodes, module_header_nodes,
    module_nodes, name_nodes, operand_nodes, pattern_nodes, pattern_nodes_of, setter_nodes, signature_nodes, type_nodes,
    type_nodes_of, Visited,
};

verus! {

/// Mutable visitor. Each method receives one node; the `walk_*_mut`
/// functions below visit a node's children in source order. What a call
/// does to the visitor and to the node is what the implementation's
/// `visits_mut` says.
pub trait VisitMut: Sized {
    /// One call, handed the node `before` and leaving it as `after`, takes
    /// the visitor from `self` to `next`.
    spec fn visits_mut(self, next: Self, before: Visited, after: Visited) -> bool;

    fn visit_module_mut(&mut self, module: &mut ElmModule)
        ensures
            (*old(self)).visits_mut(*final(self), Visited::Module(*old(module)), Visited::Module(*final(module))),
    ;

    fn visit_module_header_mut(&mut self, header: &mut Spanned<ModuleHeader>)
        ensures
            (*old(self)).visits_mut(*final(self), Visited::ModuleHeader(*old(header)), Visited::ModuleHeader(*final(header))),
    ;

    fn visit_import_mut(&mut self, import: &mut Spanned<Import>)
        ensures
            (*old(self)).visits_mut(*final(self), Visited::Import(*old(import)), Visited::Import(*final(import))),
    ;

    fn visit_exposing_mut(&mut self, exposing: &mut Spanned<Exposing>)
        ensures
            (*old(self)).visits_mut(*final(self), Visited::Exposing(*old(exposing)), Visited::Exposing(*final(exposing))),
    ;

    fn visit_exposed_item_mut(&mut self, item: &mut Spanned<ExposedItem>)
        ensures
            (*old(self)).visits_mut(*final(self), Visited::ExposedItem(*old(item)), Visited::ExposedItem(*final(item))),
    {
        proof {
            Self::lemma_leaf_unchanged_mut(*self, Visited::ExposedItem(*item));
        }
    }

    /// Being handed an exposed item, an infix definition, a literal, a
    /// comment or a name and doing nothing, as the default methods for
    /// those do, is a step of the visitor that leaves the node as it was.
    proof fn lemma_leaf_unchanged_mut(a: Self, node: Visited)
        requires
            node is ExposedItem || node is InfixDef || node is Literal || node is Comment || node is Ident,
        ensures
            a.visits_mut(a, node, node),
    ;

    fn visit_declaration_mut(&mut self, decl: &mut Spanned<Declaration>)
        ensures
            (*old(self)).visits_mut(*final(self), Visited::Declaration(*old(decl)), Visited::Declaration(*final(decl))),
    ;

    fn visit_function_mut(&mut self, func: &mut Function)
        ensures
            (*old(self)).visits_mut(*final(self), Visited::Function(*old(func)), Visited::Function(*final(func))),
    ;

    fn visit_signature_mut(&mut self, sig: &mut Spanned<Signature>)
        ensures
            (*old(self)).visits_mut(*final(self), Visited::Signature(*old(sig)), Visited::Signature(*final(sig))),
    ;

    fn visit_function_implementation_mut(&mut self, imp: &mut Spanned<FunctionImplementation>)
        ensures
            (*old(self)).visits_mut(*final(self), Visited::FunctionImplementation(*old(imp)), Visited::FunctionImplementation(*final(imp))),
    ;

    fn visit_type_alias_mut(&mut self, alias: &mut TypeAlias)
        ensures
            (*old(self)).visits_mut(*final(self), Visited::TypeAlias(*old(alias)), Visited::TypeAlias(*final(alias))),
    ;

    fn visit_custom_type_mut(&mut self, ct: &mut CustomType)
        ensures
            (*old(self)).visits_mut(*final(self), Visited::CustomType(*old(ct)), Visited::CustomType(*final(ct))),
    ;

    fn visit_value_constructor_mut(&mut self, ctor: &mut Spanned<ValueConstructor>)
        ensures
            (*old(self)).visits_mut(*final(self), Visited::ValueConstructor(*old(ctor)), Visited::ValueConstructor(*final(ctor))),
    ;

    fn visit_infix_def_mut(&mut self, infix: &mut InfixDef)
        ensures
            (*old(self)).visits_mut(*final(self), Visited::InfixDef(*old(infix)), Visited::InfixDef(*final(infix))),
    {
        proof {
            Self::lemma_leaf_unchanged_mut(*self, Visited::InfixDef(*infix));
        }
    }

    fn visit_expr_mut(&mut self, expr: &mut Spanned<Expr>)
        ensures
            (*old(self)).visits_mut(*final(self), Visited::Expr(*old(expr)), Visited::Expr(*final(expr))),
    ;

    fn visit_pattern_mut(&mut self, pattern: &mut Spanned<Pattern>)
        ensures
            (*old(self)).visits_mut(*final(self), Visited::Pattern(*old(pattern)), Visited::Pattern(*final(pattern))),
    ;

    fn visit_type_annotation_mut(&mut self, ty: &mut Spanned<TypeAnnotation>)
        ensures
            (*old(self)).visits_mut(*final(self), Visited::TypeAnnotation(*old(ty)), Visited::TypeAnnotation(*final(ty))),
    ;

    fn visit_record_field_mut(&mut self, field: &mut Spanned<RecordField>)
        ensures
            (*old(self)).visits_mut(*final(self), Visited::RecordField(*old(field)), Visited::RecordField(*final(field))),
    ;

    fn visit_let_declaration_mut(&mut self, decl: &mut Spanned<LetDeclaration>)
        ensures
            (*old(self)).visits_mut(*final(self), Visited::LetDeclaration(*old(decl)), Visited::LetDeclaration(*final(decl))),
    ;

    fn visit_case_branch_mut(&mut self, branch: &mut CaseBranch)
        ensures
            (*old(self)).visits_mut(*final(self), Visited::CaseBranch(*old(branch)), Visited::CaseBranch(*final(branch))),
    ;

    fn visit_record_setter_mut(&mut self, setter: &mut Spanned<RecordSetter>)
        ensures
            (*old(self)).visits_mut(*final(self), Visited::RecordSetter(*old(setter)), Visited::RecordSetter(*final(setter))),
    ;

    fn visit_literal_mut(&mut self, lit: &mut Literal)
        ensures
            (*old(self)).visits_mut(*final(self), Visited::Literal(*old(lit)), Visited::Literal(*final(lit))),
    {
        proof {
            Self::lemma_leaf_unchanged_mut(*self, Visited::Literal(*lit));
        }
    }

    fn visit_comment_mut(&mut self, comment: &mut Spanned<Comment>)
        ensures
            (*old(self)).visits_mut(*final(self), Visited::Comment(*old(comment)), Visited::Comment(*final(comment))),
    {
        proof {
            Self::lemma_leaf_unchanged_mut(*self, Visited::Comment(*comment));
        }
    }

    fn visit_ident_mut(&mut self, name: &mut String)
        ensures
            (*old(self)).visits_mut(*final(self), Visited::Ident(old(name)@), Visited::Ident(final(name)@)),
    {
        proof {
            Self::lemma_leaf_unchanged_mut(*self, Visited::Ident(name@));
        }
    }
}

/// `states` are the visitor before and after each call of a run from `a`
/// to `b`, one call per node, handed `before[i]` and leaving `after[i]`.
pub open spec fn run_states_mut<V: VisitMut>(
    states: Seq<V>,
    a: V,
    b: V,
    before: Seq<Visited>,
    after: Seq<Visited>,
) -> bool {
    &&& states.len() == before.len() + 1
    &&& after.len() == before.len()
    &&& states[0] == a
    &&& states.last() == b
    &&& forall|i: int| 0 <= i < before.len() ==> #[trigger] states[i].visits_mut(states[i + 1], before[i], after[i])
}

/// The visitor goes from `a` to `b` through one call per node, in order,
/// each handed `before[i]` and leaving it as `after[i]`.
pub open spec fn visit_run_mut<V: VisitMut>(a: V, b: V, before: Seq<Visited>, after: Seq<Visited>) -> bool {
    exists|states: Seq<V>| #[trigger] run_states_mut(states, a, b, before, after)
}

/// No calls leave the visitor as it is.
pub proof fn lemma_run_mut_empty<V: VisitMut>(a: V)
    ensures
        visit_run_mut(a, a, Seq::empty(), Seq::empty()),
{
    assert(run_states_mut(seq![a], a, a, Seq::empty(), Seq::empty()));
}

/// One more call extends a run.
pub proof fn lemma_run_mut_step<V: VisitMut>(
    a: V,
    m: V,
    b: V,
    bs: Seq<Visited>,
    as_: Seq<Visited>,
    nb: Visited,
    na: Visited,
)
    requires
        visit_run_mut(a, m, bs, as_),
        m.visits_mut(b, nb, na),
    ensures
        visit_run_mut(a, b, bs.push(nb), as_.push(na)),
{
    let st = choose|st: Seq<V>| #[trigger] run_states_mut(st, a, m, bs, as_);
    let st2 = st.push(b);
    assert forall|i: int| 0 <= i < bs.push(nb).len() implies #[trigger] st2[i].visits_mut(
        st2[i + 1],
        bs.push(nb)[i],
        as_.push(na)[i],
    ) by {
        if i < bs.len() {
            assert(st[i].visits_mut(st[i + 1], bs[i], as_[i]));
        }
    }
    assert(run_states_mut(st2, a, b, bs.push(nb), as_.push(na)));
}

/// Two runs one after the other make one run.
pub proof fn lemma_run_mut_concat<V: VisitMut>(
    a: V,
    m: V,
    b: V,
    xb: Seq<Visited>,
    xa: Seq<Visited>,
    yb: Seq<Visited>,
    ya: Seq<Visited>,
)
    requires
        visit_run_mut(a, m, xb, xa),
        visit_run_mut(m, b, yb, ya),
    ensures
        visit_run_mut(a, b, xb + yb, xa + ya),
{
    let s1 = choose|st: Seq<V>| #[trigger] run_states_mut(st, a, m, xb, xa);
    let s2 = choose|st: Seq<V>| #[trigger] run_states_mut(st, m, b, yb, ya);
    let st = s1 + s2.drop_first();
    assert forall|i: int| 0 <= i < (xb + yb).len() implies #[trigger] st[i].visits_mut(
        st[i + 1],
        (xb + yb)[i],
        (xa + ya)[i],
    ) by {
        if i < xb.len() {
            assert(s1[i].visits_mut(s1[i + 1], xb[i], xa[i]));
        } else {
            let k = i - xb.len();
            assert(s2[k].visits_mut(s2[k + 1], yb[k], ya[k]));
        }
    }
    assert(run_states_mut(st, a, b, xb + yb, xa + ya));
}

/// Visit each of `xs` in order.
fn visit_comments_mut<V: VisitMut>(v: &mut V, xs: &mut Vec<Spanned<Comment>>)
    ensures
        visit_run_mut(*old(v), *final(v), comment_nodes(old(xs)@), comment_nodes(final(xs)@)),
        final(xs)@.len() == old(xs)@.len(),
{
    let ghost mut bs: Seq<Visited> = Seq::empty();
    let ghost mut as_: Seq<Visited> = Seq::empty();
    proof {
        lemma_run_mut_empty(*v);
    }
    let ghost base_b = bs;
    let ghost base_a = as_;
    let ghost orig = xs@;
    let mut i: usize = 0;
    while i < xs.len()
        invariant
            i <= xs@.len(),
            xs@.len() == orig.len(),
            forall|k: int| i <= k < orig.len() ==> xs@[k] == orig[k],
            visit_run_mut(*old(v), *v, base_b + comment_nodes(orig.take(i as int)), base_a + comment_nodes(xs@.take(i as int))),
        decreases xs@.len() - i,
    {
        let ghost pre = *v;
        let ghost cur = xs@;
        v.visit_comment_mut(&mut xs[i]);
        proof {
            assert(xs@.take(i as int) =~= cur.take(i as int));
            lemma_run_mut_step(
                *old(v),
                pre,
                *v,
                base_b + comment_nodes(orig.take(i as int)),
                base_a + comment_nodes(cur.take(i as int)),
                Visited::Comment(orig[i as int]),
                Visited::Comment(xs@[i as int]),
            );
            assert((base_b + comment_nodes(orig.take(i as int))).push(Visited::Comment(orig[i as int])) =~= base_b + comment_nodes(orig.take(i + 1)));
            assert((base_a + comment_nodes(xs@.take(i as int))).push(Visited::Comment(xs@[i as int])) =~= base_a + comment_nodes(xs@.take(i + 1)));
        }
        i = i + 1;
    }
    proof {
        assert(orig.take(i as int) =~= orig);
        assert(xs@.take(i as int) =~= xs@);
        bs = base_b + comment_nodes(orig);
        as_ = base_a + comment_nodes(xs@);
    }
    proof {
        assert(bs =~= comment_nodes(old(xs)@));
        assert(as_ =~= comment_nodes(xs@));
    }
}

/// Visit each of `xs` in order.
fn visit_exprs_mut<V: VisitMut>(v: &mut V, xs: &mut Vec<Spanned<Expr>>)
    ensures
        visit_run_mut(*old(v), *final(v), expr_nodes(old(xs)@), expr_nodes(final(xs)@)),
        final(xs)@.len() == old(xs)@.len(),
{
    let ghost mut bs: Seq<Visited> = Seq::empty();
    let ghost mut as_: Seq<Visited> = Seq::empty();
    proof {
        lemma_run_mut_empty(*v);
    }
    let ghost base_b = bs;
    let ghost base_a = as_;
    let ghost orig = xs@;
    let mut i: usize = 0;
    while i < xs.len()
        invariant
            i <= xs@.len(),
            xs@.len() == orig.len(),
            forall|k: int| i <= k < orig.len() ==> xs@[k] == orig[k],
            visit_run_mut(*old(v), *v, base_b + expr_nodes(orig.take(i as int)), base_a + expr_nodes(xs@.take(i as int))),
        decreases xs@.len() - i,
    {
        let ghost pre = *v;
        let ghost cur = xs@;
        v.visit_expr_mut(&mut xs[i]);
        proof {
            assert(xs@.take(i as int) =~= cur.take(i as int));
            lemma_run_mut_step(
                *old(v),
                pre,
                *v,
                base_b + expr_nodes(orig.take(i as int)),
                base_a + expr_nodes(cur.take(i as int)),
                Visited::Expr(orig[i as int]),
                Visited::Expr(xs@[i as int]),
            );
            assert((base_b + expr_nodes(orig.take(i as int))).push(Visited::Expr(orig[i as int])) =~= base_b + expr_nodes(orig.take(i + 1)));
            assert((base_a + expr_nodes(xs@.take(i as int))).push(Visited::Expr(xs@[i as int])) =~= base_a + expr_nodes(xs@.take(i + 1)));
        }
        i = i + 1;
    }
    proof {
        assert(orig.take(i as int) =~= orig);
        assert(xs@.take(i as int) =~= xs@);
        bs = base_b + expr_nodes(orig);
        as_ = base_a + expr_nodes(xs@);
    }
    proof {
        assert(bs =~= expr_nodes(old(xs)@));
        assert(as_ =~= expr_nodes(xs@));
    }
}

/// Visit each of `xs` in order.
fn visit_patterns_mut<V: VisitMut>(v: &mut V, xs: &mut Vec<Spanned<Pattern>>)
    ensures
        visit_run_mut(*old(v), *final(v), pattern_nodes(old(xs)@), pattern_nodes(final(xs)@)),
        final(xs)@.len() == old(xs)@.len(),
{
    let ghost mut bs: Seq<Visited> = Seq::empty();
    let ghost mut as_: Seq<Visited> = Seq::empty();
    proof {
        lemma_run_mut_empty(*v);
    }
    let ghost base_b = bs;
    let ghost base_a = as_;
    let ghost orig = xs@;
    let mut i: usize = 0;
    while i < xs.len()
        invariant
            i <= xs@.len(),
            xs@.len() == orig.len(),
            forall|k: int| i <= k < orig.len() ==> xs@[k] == orig[k],
            visit_run_mut(*old(v), *v, base_b + pattern_nodes(orig.take(i as int)), base_a + pattern_nodes(xs@.take(i as int))),
        decreases xs@.len() - i,
    {
        let ghost pre = *v;
        let ghost cur = xs@;
        v.visit_pattern_mut(&mut xs[i]);
        proof {
            assert(xs@.take(i as int) =~= cur.take(i as int));
            lemma_run_mut_step(
                *old(v),
                pre,
                *v,
                base_b + pattern_nodes(orig.take(i as int)),
                base_a + pattern_nodes(cur.take(i as int)),
                Visited::Pattern(orig[i as int]),
                Visited::Pattern(xs@[i as int]),
            );
            assert((base_b + pattern_nodes(orig.take(i as int))).push(Visited::Pattern(orig[i as int])) =~= base_b + pattern_nodes(orig.take(i + 1)));
            assert((base_a + pattern_nodes(xs@.take(i as int))).push(Visited::Pattern(xs@[i as int])) =~= base_a + pattern_nodes(xs@.take(i + 1)));
        }
        i = i + 1;
    }
    proof {
        assert(orig.take(i as int) =~= orig);
        assert(xs@.take(i as int) =~= xs@);
        bs = base_b + pattern_nodes(orig);
        as_ = base_a + pattern_nodes(xs@);
    }
    proof {
        assert(bs =~= pattern_nodes(old(xs)@));
        assert(as_ =~= pattern_nodes(xs@));
    }
}

/// Visit each of `xs` in order.
fn visit_types_mut<V: VisitMut>(v: &mut V, xs: &mut Vec<Spanned<TypeAnnotation>>)
    ensures
        visit_run_mut(*old(v), *final(v), type_nodes(old(xs)@), type_nodes(final(xs)@)),
        final(xs)@.len() == old(xs)@.len(),
{
    let ghost mut bs: Seq<Visited> = Seq::empty();
    let ghost mut as_: Seq<Visited> = Seq::empty();
    proof {
        lemma_run_mut_empty(*v);
    }
    let ghost base_b = bs;
    let ghost base_a = as_;
    let ghost orig = xs@;
    let mut i: usize = 0;
    while i < xs.len()
        invariant
            i <= xs@.len(),
            xs@.len() == orig.len(),
            forall|k: int| i <= k < orig.len() ==> xs@[k] == orig[k],
            visit_run_mut(*old(v), *v, base_b + type_nodes(orig.take(i as int)), base_a + type_nodes(xs@.take(i as int))),
        decreases xs@.len() - i,
    {
        let ghost pre = *v;
        let ghost cur = xs@;
        v.visit_type_annotation_mut(&mut xs[i]);
        proof {
            assert(xs@.take(i as int) =~= cur.take(i as int));
            lemma_run_mut_step(
                *old(v),
                pre,
                *v,
                base_b + type_nodes(orig.take(i as int)),
                base_a + type_nodes(cur.take(i as int)),
                Visited::TypeAnnotation(orig[i as int]),
                Visited::TypeAnnotation(xs@[i as int]),
            );
            assert((base_b + type_nodes(orig.take(i as int))).push(Visited::TypeAnnotation(orig[i as int])) =~= base_b + type_nodes(orig.take(i + 1)));
            assert((base_a + type_nodes(xs@.take(i as int))).push(Visited::TypeAnnotation(xs@[i as int])) =~= base_a + type_nodes(xs@.take(i + 1)));
        }
        i = i + 1;
    }
    proof {
        assert(orig.take(i as int) =~= orig);
        assert(xs@.take(i as int) =~= xs@);
        bs = base_b + type_nodes(orig);
        as_ = base_a + type_nodes(xs@);
    }
    proof {
        assert(bs =~= type_nodes(old(xs)@));
        assert(as_ =~= type_nodes(xs@));
    }
}

/// Visit each of `xs` in order.
fn visit_record_fields_mut<V: VisitMut>(v: &mut V, xs: &mut Vec<Spanned<RecordField>>)
    ensures
        visit_run_mut(*old(v), *final(v), field_nodes(old(xs)@), field_nodes(final(xs)@)),
        final(xs)@.len() == old(xs)@.len(),
{
    let ghost mut bs: Seq<Visited> = Seq::empty();
    let ghost mut as_: Seq<Visited> = Seq::empty();
    proof {
        lemma_run_mut_empty(*v);
    }
    let ghost base_b = bs;
    let ghost base_a = as_;
    let ghost orig = xs@;
    let mut i: usize = 0;
    while i < xs.len()
        invariant
            i <= xs@.len(),
            xs@.len() == orig.len(),
            forall|k: int| i <= k < orig.len() ==> xs@[k] == orig[k],
            visit_run_mut(*old(v), *v, base_b + field_nodes(orig.take(i as int)), base_a + field_nodes(xs@.take(i as int))),
        decreases xs@.len() - i,
    {
        let ghost pre = *v;
        let ghost cur = xs@;
        v.visit_record_field_mut(&mut xs[i]);
        proof {
            assert(xs@.take(i as int) =~= cur.take(i as int));
            lemma_run_mut_step(
                *old(v),
                pre,
                *v,
                base_b + field_nodes(orig.take(i as int)),
                base_a + field_nodes(cur.take(i as int)),
                Visited::RecordField(orig[i as int]),
                Visited::RecordField(xs@[i as int]),
            );
            assert((base_b + field_nodes(orig.take(i as int))).push(Visited::RecordField(orig[i as int])) =~= base_b + field_nodes(orig.take(i + 1)));
            assert((base_a + field_nodes(xs@.take(i as int))).push(Visited::RecordField(xs@[i as int])) =~= base_a + field_nodes(xs@.take(i + 1)));
        }
        i = i + 1;
    }
    proof {
        assert(orig.take(i as int) =~= orig);
        assert(xs@.take(i as int) =~= xs@);
        bs = base_b + field_nodes(orig);
        as_ = base_a + field_nodes(xs@);
    }
    proof {
        assert(bs =~= field_nodes(old(xs)@));
        assert(as_ =~= field_nodes(xs@));
    }
}

/// Visit each of `xs` in order.
fn visit_record_setters_mut<V: VisitMut>(v: &mut V, xs: &mut Vec<Spanned<RecordSetter>>)
    ensures
        visit_run_mut(*old(v), *final(v), setter_nodes(old(xs)@), setter_nodes(final(xs)@)),
        final(xs)@.len() == old(xs)@.len(),
{
    let ghost mut bs: Seq<Visited> = Seq::empty();
    let ghost mut as_: Seq<Visited> = Seq::empty();
    proof {
        lemma_run_mut_empty(*v);
    }
    let ghost base_b = bs;
    let ghost base_a = as_;
    let ghost orig = xs@;
    let mut i: usize = 0;
    while i < xs.len()
        invariant
            i <= xs@.len(),
            xs@.len() == orig.len(),
            forall|k: int| i <= k < orig.len() ==> xs@[k] == orig[k],
            visit_run_mut(*old(v), *v, base_b + setter_nodes(orig.take(i as int)), base_a + setter_nodes(xs@.take(i as int))),
        decreases xs@.len() - i,
    {
        let ghost pre = *v;
        let ghost cur = xs@;
        v.visit_record_setter_mut(&mut xs[i]);
        proof {
            assert(xs@.take(i as int) =~= cur.take(i as int));
            lemma_run_mut_step(
                *old(v),
                pre,
                *v,
                base_b + setter_nodes(orig.take(i as int)),
                base_a + setter_nodes(cur.take(i as int)),
                Visited::RecordSetter(orig[i as int]),
                Visited::RecordSetter(xs@[i as int]),
            );
            assert((base_b + setter_nodes(orig.take(i as int))).push(Visited::RecordSetter(orig[i as int])) =~= base_b + setter_nodes(orig.take(i + 1)));
            assert((base_a + setter_nodes(xs@.take(i as int))).push(Visited::RecordSetter(xs@[i as int])) =~= base_a + setter_nodes(xs@.take(i + 1)));
        }
        i = i + 1;
    }
    proof {
        assert(orig.take(i as int) =~= orig);
        assert(xs@.take(i as int) =~= xs@);
        bs = base_b + setter_nodes(orig);
        as_ = base_a + setter_nodes(xs@);
    }
    proof {
        assert(bs =~= setter_nodes(old(xs)@));
        assert(as_ =~= setter_nodes(xs@));
    }
}

/// Two modules with the same parts visited, the same number of each, hold
/// the same header, imports, declarations and comments.
pub proof fn lemma_module_nodes_injective(a: ElmModule, b: ElmModule)
    requires
        a.imports@.len() == b.imports@.len(),
        a.declarations@.len() == b.declarations@.len(),
        a.comments@.len() == b.comments@.len(),
    ensures
        module_nodes(a) == module_nodes(b) ==> a.header == b.header && a.imports@ == b.imports@ && a.declarations@
            == b.declarations@ && a.comments@ == b.comments@,
{
    if module_nodes(a) == module_nodes(b) {
        let na = module_nodes(a);
        let ni = a.imports@.len() as int;
        let nd = a.declarations@.len() as int;
        assert(na[0] == Visited::ModuleHeader(a.header));
        assert(module_nodes(b)[0] == Visited::ModuleHeader(b.header));
        assert forall|k: int| 0 <= k < ni implies a.imports@[k] == b.imports@[k] by {
            assert(na[1 + k] == Visited::Import(a.imports@[k]));
            assert(module_nodes(b)[1 + k] == Visited::Import(b.imports@[k]));
        }
        assert forall|k: int| 0 <= k < nd implies a.declarations@[k] == b.declarations@[k] by {
            assert(na[1 + ni + k] == Visited::Declaration(a.declarations@[k]));
            assert(module_nodes(b)[1 + ni + k] == Visited::Declaration(b.declarations@[k]));
        }
        assert forall|k: int| 0 <= k < a.comments@.len() implies a.comments@[k] == b.comments@[k] by {
            assert(na[1 + ni + nd + k] == Visited::Comment(a.comments@[k]));
            assert(module_nodes(b)[1 + ni + nd + k] == Visited::Comment(b.comments@[k]));
        }
        assert(a.imports@ =~= b.imports@);
        assert(a.declarations@ =~= b.declarations@);
        assert(a.comments@ =~= b.comments@);
    }
}

/// Visit the header, then each import, each declaration and each top-level
/// comment, in order.
pub fn walk_module_mut<V: VisitMut>(v: &mut V, module: &mut ElmModule)
    ensures
        visit_run_mut(*old(v), *final(v), module_nodes(*old(module)), module_nodes(*final(module))),
        final(module).module_documentation == old(module).module_documentation,
        final(module).imports@.len() == old(module).imports@.len(),
        final(module).declarations@.len() == old(module).declarations@.len(),
        final(module).comments@.len() == old(module).comments@.len(),
        module_nodes(*final(module)) == module_nodes(*old(module)) ==> final(module).header == old(module).header
            && final(module).imports@ == old(module).imports@ && final(module).declarations@ == old(
            module,
        ).declarations@ && final(module).comments@ == old(module).comments@,
{
    let ghost mut bs: Seq<Visited> = Seq::empty();
    let ghost mut as_: Seq<Visited> = Seq::empty();
    let ghost start = *module;
    proof {
        lemma_run_mut_empty(*v);
    }
    let ghost pre = *v;
    let ghost nb = Visited::ModuleHeader(module.header);
    v.visit_module_header_mut(&mut module.header);
    proof {
        lemma_run_mut_step(*old(v), pre, *v, bs, as_, nb, Visited::ModuleHeader(module.header));
        bs = bs.push(nb);
        as_ = as_.push(Visited::ModuleHeader(module.header));
        assert(nb == Visited::ModuleHeader(start.header));
    }
    let ghost h1 = module.header;
    let ghost base_b = bs;
    let ghost base_a = as_;
    let ghost orig = module.imports@;
    let mut i: usize = 0;
    while i < module.imports.len()
        invariant
            i <= module.imports@.len(),
            module.imports@.len() == orig.len(),
            forall|k: int| i <= k < orig.len() ==> module.imports@[k] == orig[k],
            visit_run_mut(*old(v), *v, base_b + import_list_nodes(orig.take(i as int)), base_a + import_list_nodes(module.imports@.take(i as int))),
        module.header == h1,
        module.module_documentation == start.module_documentation,
        module.declarations == start.declarations,
        module.comments == start.comments,
        orig == start.imports@,
        decreases module.imports@.len() - i,
    {
        let ghost pre = *v;
        let ghost cur = module.imports@;
        v.visit_import_mut(&mut module.imports[i]);
        proof {
            assert(module.imports@.take(i as int) =~= cur.take(i as int));
            lemma_run_mut_step(
                *old(v),
                pre,
                *v,
                base_b + import_list_nodes(orig.take(i as int)),
                base_a + import_list_nodes(cur.take(i as int)),
                Visited::Import(orig[i as int]),
                Visited::Import(module.imports@[i as int]),
            );
            assert((base_b + import_list_nodes(orig.take(i as int))).push(Visited::Import(orig[i as int])) =~= base_b + import_list_nodes(orig.take(i + 1)));
            assert((base_a + import_list_nodes(module.imports@.take(i as int))).push(Visited::Import(module.imports@[i as int])) =~= base_a + import_list_nodes(module.imports@.take(i + 1)));
        }
        i = i + 1;
    }
    proof {
        assert(orig.take(i as int) =~= orig);
        assert(module.imports@.take(i as int) =~= module.imports@);
        bs = base_b + import_list_nodes(orig);
        as_ = base_a + import_list_nodes(module.imports@);
    }
    let ghost i1 = module.imports;
    let ghost base_b = bs;
    let ghost base_a = as_;
    let ghost orig = module.declarations@;
    let mut i: usize = 0;
    while i < module.declarations.len()
        invariant
            i <= module.declarations@.len(),
            module.declarations@.len() == orig.len(),
            forall|k: int| i <= k < orig.len() ==> module.declarations@[k] == orig[k],
            visit_run_mut(*old(v), *v, base_b + declaration_list_nodes(orig.take(i as int)), base_a + declaration_list_nodes(module.declarations@.take(i as int))),
        module.header == h1,
        module.module_documentation == start.module_documentation,
        module.imports == i1,
        module.comments == start.comments,
        orig == start.declarations@,
        decreases module.declarations@.len() - i,
    {
        let ghost pre = *v;
        let ghost cur = module.declarations@;
        v.visit_declaration_mut(&mut module.declarations[i]);
        proof {
            assert(module.declarations@.take(i as int) =~= cur.take(i as int));
            lemma_run_mut_step(
                *old(v),
                pre,
                *v,
                base_b + declaration_list_nodes(orig.take(i as int)),
                base_a + declaration_list_nodes(cur.take(i as int)),
                Visited::Declaration(orig[i as int]),
                Visited::Declaration(module.declarations@[i as int]),
            );
            assert((base_b + declaration_list_nodes(orig.take(i as int))).push(Visited::Declaration(orig[i as int])) =~= base_b + declaration_list_nodes(orig.take(i + 1)));
            assert((base_a + declaration_list_nodes(module.declarations@.take(i as int))).push(Visited::Declaration(module.declarations@[i as int])) =~= base_a + declaration_list_nodes(module.declarations@.take(i + 1)));
        }
        i = i + 1;
    }
    proof {
        assert(orig.take(i as int) =~= orig);
        assert(module.declarations@.take(i as int) =~= module.declarations@);
        bs = base_b + declaration_list_nodes(orig);
        as_ = base_a + declaration_list_nodes(module.declarations@);
    }
    let ghost pre = *v;
    let ghost lb = comment_nodes(module.comments@);
    visit_comments_mut(v, &mut module.comments);
    proof {
        lemma_run_mut_concat(*old(v), pre, *v, bs, as_, lb, comment_nodes(module.comments@));
        bs = bs + lb;
        as_ = as_ + comment_nodes(module.comments@);
    }
    proof {
        assert(bs =~= module_nodes(start));
        assert(as_ =~= module_nodes(*module));
        assert(module.module_documentation == start.module_documentation);
        lemma_module_nodes_injective(start, *module);
    }
}

/// Visit the header's exposing list.
pub fn walk_module_header_mut<V: VisitMut>(v: &mut V, header: &mut Spanned<ModuleHeader>)
    ensures
        visit_run_mut(*old(v), *final(v), module_header_nodes(*old(header)), module_header_nodes(*final(header))),
{
    let ghost mut bs: Seq<Visited> = Seq::empty();
    let ghost mut as_: Seq<Visited> = Seq::empty();
    let ghost start = *header;
    proof {
        lemma_run_mut_empty(*v);
    }
    match &mut header.value {
        ModuleHeader::Normal { exposing, .. } => {
            let ghost pre = *v;
            let ghost nb = Visited::Exposing(*exposing);
            v.visit_exposing_mut(exposing);
            proof {
                lemma_run_mut_step(*old(v), pre, *v, bs, as_, nb, Visited::Exposing(*exposing));
                bs = bs.push(nb);
                as_ = as_.push(Visited::Exposing(*exposing));
            }
        },
        ModuleHeader::Port { exposing, .. } => {
            let ghost pre = *v;
            let ghost nb = Visited::Exposing(*exposing);
            v.visit_exposing_mut(exposing);
            proof {
                lemma_run_mut_step(*old(v), pre, *v, bs, as_, nb, Visited::Exposing(*exposing));
                bs = bs.push(nb);
                as_ = as_.push(Visited::Exposing(*exposing));
            }
        },
        ModuleHeader::Effect { exposing, .. } => {
            let ghost pre = *v;
            let ghost nb = Visited::Exposing(*exposing);
            v.visit_exposing_mut(exposing);
            proof {
                lemma_run_mut_step(*old(v), pre, *v, bs, as_, nb, Visited::Exposing(*exposing));
                bs = bs.push(nb);
                as_ = as_.push(Visited::Exposing(*exposing));
            }
        },
    }
    proof {
        assert(bs =~= module_header_nodes(start));
        assert(as_ =~= module_header_nodes(*header));
    }
}

/// Visit the import's exposing list, if it has one.
pub fn walk_import_mut<V: VisitMut>(v: &mut V, import: &mut Spanned<Import>)
    ensures
        visit_run_mut(*old(v), *final(v), import_nodes(*old(import)), import_nodes(*final(import))),
{
    let ghost mut bs: Seq<Visited> = Seq::empty();
    let ghost mut as_: Seq<Visited> = Seq::empty();
    let ghost start = *import;
    proof {
        lemma_run_mut_empty(*v);
    }
    if let Some(exposing) = &mut import.value.exposing {
        let ghost pre = *v;
        let ghost nb = Visited::Exposing(*exposing);
        v.visit_exposing_mut(exposing);
        proof {
            lemma_run_mut_step(*old(v), pre, *v, bs, as_, nb, Visited::Exposing(*exposing));
            bs = bs.push(nb);
            as_ = as_.push(Visited::Exposing(*exposing));
        }
    }
    proof {
        assert(bs =~= import_nodes(start));
        assert(as_ =~= import_nodes(*import));
    }
}

/// Visit each item of an explicit exposing list.
pub fn walk_exposing_mut<V: VisitMut>(v: &mut V, exposing: &mut Spanned<Exposing>)
    ensures
        visit_run_mut(*old(v), *final(v), exposing_nodes(*old(exposing)), exposing_nodes(*final(exposing))),
{
    let ghost mut bs: Seq<Visited> = Seq::empty();
    let ghost mut as_: Seq<Visited> = Seq::empty();
    let ghost start = *exposing;
    proof {
        lemma_run_mut_empty(*v);
    }
    if let Exposing::Explicit(items) = &mut exposing.value {
        let ghost base_b = bs;
        let ghost base_a = as_;
        let ghost orig = items@;
        let mut i: usize = 0;
        while i < items.len()
            invariant
                i <= items@.len(),
                items@.len() == orig.len(),
                forall|k: int| i <= k < orig.len() ==> items@[k] == orig[k],
                visit_run_mut(*old(v), *v, base_b + exposed_item_nodes(orig.take(i as int)), base_a + exposed_item_nodes(items@.take(i as int))),
            decreases items@.len() - i,
        {
            let ghost pre = *v;
            let ghost cur = items@;
            v.visit_exposed_item_mut(&mut items[i]);
            proof {
                assert(items@.take(i as int) =~= cur.take(i as int));
                lemma_run_mut_step(
                    *old(v),
                    pre,
                    *v,
                    base_b + exposed_item_nodes(orig.take(i as int)),
                    base_a + exposed_item_nodes(cur.take(i as int)),
                    Visited::ExposedItem(orig[i as int]),
                    Visited::ExposedItem(items@[i as int]),
                );
                assert((base_b + exposed_item_nodes(orig.take(i as int))).push(Visited::ExposedItem(orig[i as int])) =~= base_b + exposed_item_nodes(orig.take(i + 1)));
                assert((base_a + exposed_item_nodes(items@.take(i as int))).push(Visited::ExposedItem(items@[i as int])) =~= base_a + exposed_item_nodes(items@.take(i + 1)));
            }
            i = i + 1;
        }
        proof {
            assert(orig.take(i as int) =~= orig);
            assert(items@.take(i as int) =~= items@);
            bs = base_b + exposed_item_nodes(orig);
            as_ = base_a + exposed_item_nodes(items@);
        }
    }
    proof {
        assert(bs =~= exposing_nodes(start));
        assert(as_ =~= exposing_nodes(*exposing));
    }
}

/// Dispatch a declaration to the visitor method for its kind.
pub fn walk_declaration_mut<V: VisitMut>(v: &mut V, decl: &mut Spanned<Declaration>)
    ensures
        visit_run_mut(*old(v), *final(v), declaration_nodes(*old(decl)), declaration_nodes(*final(decl))),
{
    let ghost mut bs: Seq<Visited> = Seq::empty();
    let ghost mut as_: Seq<Visited> = Seq::empty();
    let ghost start = *decl;
    proof {
        lemma_run_mut_empty(*v);
    }
    match &mut decl.value {
        Declaration::FunctionDeclaration(func) => {
            let ghost pre = *v;
            let ghost nb = Visited::Function(*func);
            v.visit_function_mut(func);
            proof {
                lemma_run_mut_step(*old(v), pre, *v, bs, as_, nb, Visited::Function(*func));
                bs = bs.push(nb);
                as_ = as_.push(Visited::Function(*func));
            }
        },
        Declaration::AliasDeclaration(alias) => {
            let ghost pre = *v;
            let ghost nb = Visited::TypeAlias(*alias);
            v.visit_type_alias_mut(alias);
            proof {
                lemma_run_mut_step(*old(v), pre, *v, bs, as_, nb, Visited::TypeAlias(*alias));
                bs = bs.push(nb);
                as_ = as_.push(Visited::TypeAlias(*alias));
            }
        },
        Declaration::CustomTypeDeclaration(ct) => {
            let ghost pre = *v;
            let ghost nb = Visited::CustomType(*ct);
            v.visit_custom_type_mut(ct);
            proof {
                lemma_run_mut_step(*old(v), pre, *v, bs, as_, nb, Visited::CustomType(*ct));
                bs = bs.push(nb);
                as_ = as_.push(Visited::CustomType(*ct));
            }
        },
        Declaration::PortDeclaration(sig) => {
            let ghost pre = *v;
            let ghost nb = Visited::Ident(sig.name.value@);
            v.visit_ident_mut(&mut sig.name.value);
            proof {
                lemma_run_mut_step(*old(v), pre, *v, bs, as_, nb, Visited::Ident(sig.name.value@));
                bs = bs.push(nb);
                as_ = as_.push(Visited::Ident(sig.name.value@));
            }
            let ghost pre = *v;
            let ghost nb = Visited::TypeAnnotation(sig.type_annotation);
            v.visit_type_annotation_mut(&mut sig.type_annotation);
            proof {
                lemma_run_mut_step(*old(v), pre, *v, bs, as_, nb, Visited::TypeAnnotation(sig.type_annotation));
                bs = bs.push(nb);
                as_ = as_.push(Visited::TypeAnnotation(sig.type_annotation));
            }
        },
        Declaration::InfixDeclaration(infix) => {
            let ghost pre = *v;
            let ghost nb = Visited::InfixDef(*infix);
            v.visit_infix_def_mut(infix);
            proof {
                lemma_run_mut_step(*old(v), pre, *v, bs, as_, nb, Visited::InfixDef(*infix));
                bs = bs.push(nb);
                as_ = as_.push(Visited::InfixDef(*infix));
            }
        },
        Declaration::Destructuring { pattern, body } => {
            let ghost pre = *v;
            let ghost nb = Visited::Pattern(*pattern);
            v.visit_pattern_mut(pattern);
            proof {
                lemma_run_mut_step(*old(v), pre, *v, bs, as_, nb, Visited::Pattern(*pattern));
                bs = bs.push(nb);
                as_ = as_.push(Visited::Pattern(*pattern));
            }
            let ghost pre = *v;
            let ghost nb = Visited::Expr(*body);
            v.visit_expr_mut(body);
            proof {
                lemma_run_mut_step(*old(v), pre, *v, bs, as_, nb, Visited::Expr(*body));
                bs = bs.push(nb);
                as_ = as_.push(Visited::Expr(*body));
            }
        },
    }
    proof {
        assert(bs =~= declaration_nodes(start));
        assert(as_ =~= declaration_nodes(*decl));
    }
}

/// Visit the signature (if any), then the implementation.
pub fn walk_function_mut<V: VisitMut>(v: &mut V, func: &mut Function)
    ensures
        visit_run_mut(*old(v), *final(v), function_nodes(*old(func)), function_nodes(*final(func))),
{
    let ghost mut bs: Seq<Visited> = Seq::empty();
    let ghost mut as_: Seq<Visited> = Seq::empty();
    let ghost start = *func;
    proof {
        lemma_run_mut_empty(*v);
    }
    if let Some(sig) = &mut func.signature {
        let ghost pre = *v;
        let ghost nb = Visited::Signature(*sig);
        v.visit_signature_mut(sig);
        proof {
            lemma_run_mut_step(*old(v), pre, *v, bs, as_, nb, Visited::Signature(*sig));
            bs = bs.push(nb);
            as_ = as_.push(Visited::Signature(*sig));
        }
    }
    let ghost pre = *v;
    let ghost nb = Visited::FunctionImplementation(func.declaration);
    v.visit_function_implementation_mut(&mut func.declaration);
    proof {
        lemma_run_mut_step(*old(v), pre, *v, bs, as_, nb, Visited::FunctionImplementation(func.declaration));
        bs = bs.push(nb);
        as_ = as_.push(Visited::FunctionImplementation(func.declaration));
    }
    proof {
        assert(bs =~= function_nodes(start));
        assert(as_ =~= function_nodes(*func));
    }
}

/// Visit the signature's name, then its type.
pub fn walk_signature_mut<V: VisitMut>(v: &mut V, sig: &mut Spanned<Signature>)
    ensures
        visit_run_mut(*old(v), *final(v), signature_nodes(*old(sig)), signature_nodes(*final(sig))),
{
    let ghost mut bs: Seq<Visited> = Seq::empty();
    let ghost mut as_: Seq<Visited> = Seq::empty();
    let ghost start = *sig;
    proof {
        lemma_run_mut_empty(*v);
    }
    let ghost pre = *v;
    let ghost nb = Visited::Ident(sig.value.name.value@);
    v.visit_ident_mut(&mut sig.value.name.value);
    proof {
        lemma_run_mut_step(*old(v), pre, *v, bs, as_, nb, Visited::Ident(sig.value.name.value@));
        bs = bs.push(nb);
        as_ = as_.push(Visited::Ident(sig.value.name.value@));
    }
    let ghost pre = *v;
    let ghost nb = Visited::TypeAnnotation(sig.value.type_annotation);
    v.visit_type_annotation_mut(&mut sig.value.type_annotation);
    proof {
        lemma_run_mut_step(*old(v), pre, *v, bs, as_, nb, Visited::TypeAnnotation(sig.value.type_annotation));
        bs = bs.push(nb);
        as_ = as_.push(Visited::TypeAnnotation(sig.value.type_annotation));
    }
    proof {
        assert(bs =~= signature_nodes(start));
        assert(as_ =~= signature_nodes(*sig));
    }
}

/// Visit the name, each argument pattern, then the body.
pub fn walk_function_implementation_mut<V: VisitMut>(v: &mut V, imp: &mut Spanned<FunctionImplementation>)
    ensures
        visit_run_mut(*old(v), *final(v), function_implementation_nodes(*old(imp)), function_implementation_nodes(*final(imp))),
{
    let ghost mut bs: Seq<Visited> = Seq::empty();
    let ghost mut as_: Seq<Visited> = Seq::empty();
    let ghost start = *imp;
    proof {
        lemma_run_mut_empty(*v);
    }
    let ghost pre = *v;
    let ghost nb = Visited::Ident(imp.value.name.value@);
    v.visit_ident_mut(&mut imp.value.name.value);
    proof {
        lemma_run_mut_step(*old(v), pre, *v, bs, as_, nb, Visited::Ident(imp.value.name.value@));
        bs = bs.push(nb);
        as_ = as_.push(Visited::Ident(imp.value.name.value@));
    }
    let ghost pre = *v;
    let ghost lb = pattern_nodes(imp.value.args@);
    visit_patterns_mut(v, &mut imp.value.args);
    proof {
        lemma_run_mut_concat(*old(v), pre, *v, bs, as_, lb, pattern_nodes(imp.value.args@));
        bs = bs + lb;
        as_ = as_ + pattern_nodes(imp.value.args@);
    }
    let ghost pre = *v;
    let ghost nb = Visited::Expr(imp.value.body);
    v.visit_expr_mut(&mut imp.value.body);
    proof {
        lemma_run_mut_step(*old(v), pre, *v, bs, as_, nb, Visited::Expr(imp.value.body));
        bs = bs.push(nb);
        as_ = as_.push(Visited::Expr(imp.value.body));
    }
    proof {
        assert(bs =~= function_implementation_nodes(start));
        assert(as_ =~= function_implementation_nodes(*imp));
    }
}

/// Visit the aliased type.
pub fn walk_type_alias_mut<V: VisitMut>(v: &mut V, alias: &mut TypeAlias)
    ensures
        visit_run_mut(*old(v), *final(v), seq![Visited::TypeAnnotation((*old(alias)).type_annotation)], seq![Visited::TypeAnnotation((*final(alias)).type_annotation)]),
{
    let ghost mut bs: Seq<Visited> = Seq::empty();
    let ghost mut as_: Seq<Visited> = Seq::empty();
    let ghost start = *alias;
    proof {
        lemma_run_mut_empty(*v);
    }
    let ghost pre = *v;
    let ghost nb = Visited::TypeAnnotation(alias.type_annotation);
    v.visit_type_annotation_mut(&mut alias.type_annotation);
    proof {
        lemma_run_mut_step(*old(v), pre, *v, bs, as_, nb, Visited::TypeAnnotation(alias.type_annotation));
        bs = bs.push(nb);
        as_ = as_.push(Visited::TypeAnnotation(alias.type_annotation));
    }
    proof {
        assert(bs =~= seq![Visited::TypeAnnotation((start).type_annotation)]);
        assert(as_ =~= seq![Visited::TypeAnnotation((*alias).type_annotation)]);
    }
}

/// Visit each constructor.
pub fn walk_custom_type_mut<V: VisitMut>(v: &mut V, ct: &mut CustomType)
    ensures
        visit_run_mut(*old(v), *final(v), custom_type_nodes(*old(ct)), custom_type_nodes(*final(ct))),
{
    let ghost mut bs: Seq<Visited> = Seq::empty();
    let ghost mut as_: Seq<Visited> = Seq::empty();
    let ghost start = *ct;
    proof {
        lemma_run_mut_empty(*v);
    }
    let ghost base_b = bs;
    let ghost base_a = as_;
    let ghost orig = ct.constructors@;
    let mut i: usize = 0;
    while i < ct.constructors.len()
        invariant
            i <= ct.constructors@.len(),
            ct.constructors@.len() == orig.len(),
            forall|k: int| i <= k < orig.len() ==> ct.constructors@[k] == orig[k],
            visit_run_mut(*old(v), *v, base_b + constructor_nodes(orig.take(i as int)), base_a + constructor_nodes(ct.constructors@.take(i as int))),
        decreases ct.constructors@.len() - i,
    {
        let ghost pre = *v;
        let ghost cur = ct.constructors@;
        v.visit_value_constructor_mut(&mut ct.constructors[i]);
        proof {
            assert(ct.constructors@.take(i as int) =~= cur.take(i as int));
            lemma_run_mut_step(
                *old(v),
                pre,
                *v,
                base_b + constructor_nodes(orig.take(i as int)),
                base_a + constructor_nodes(cur.take(i as int)),
                Visited::ValueConstructor(orig[i as int]),
                Visited::ValueConstructor(ct.constructors@[i as int]),
            );
            assert((base_b + constructor_nodes(orig.take(i as int))).push(Visited::ValueConstructor(orig[i as int])) =~= base_b + constructor_nodes(orig.take(i + 1)));
            assert((base_a + constructor_nodes(ct.constructors@.take(i as int))).push(Visited::ValueConstructor(ct.constructors@[i as int])) =~= base_a + constructor_nodes(ct.constructors@.take(i + 1)));
        }
        i = i + 1;
    }
    proof {
        assert(orig.take(i as int) =~= orig);
        assert(ct.constructors@.take(i as int) =~= ct.constructors@);
        bs = base_b + constructor_nodes(orig);
        as_ = base_a + constructor_nodes(ct.constructors@);
    }
    proof {
        assert(bs =~= custom_type_nodes(start));
        assert(as_ =~= custom_type_nodes(*ct));
    }
}

/// Visit each argument type of a constructor.
pub fn walk_value_constructor_mut<V: VisitMut>(v: &mut V, ctor: &mut Spanned<ValueConstructor>)
    ensures
        visit_run_mut(*old(v), *final(v), type_nodes((*old(ctor)).value.args@), type_nodes((*final(ctor)).value.args@)),
{
    let ghost mut bs: Seq<Visited> = Seq::empty();
    let ghost mut as_: Seq<Visited> = Seq::empty();
    let ghost start = *ctor;
    proof {
        lemma_run_mut_empty(*v);
    }
    let ghost pre = *v;
    let ghost lb = type_nodes(ctor.value.args@);
    visit_types_mut(v, &mut ctor.value.args);
    proof {
        lemma_run_mut_concat(*old(v), pre, *v, bs, as_, lb, type_nodes(ctor.value.args@));
        bs = bs + lb;
        as_ = as_ + type_nodes(ctor.value.args@);
    }
    proof {
        assert(bs =~= type_nodes((start).value.args@));
        assert(as_ =~= type_nodes((*ctor).value.args@));
    }
}

/// Visit the comments attached to the expression, then its children in
/// source order.
pub fn walk_expr_mut<V: VisitMut>(v: &mut V, expr: &mut Spanned<Expr>)
    ensures
        visit_run_mut(*old(v), *final(v), expr_nodes_of(*old(expr)), expr_nodes_of(*final(expr))),
{
    let ghost mut bs: Seq<Visited> = Seq::empty();
    let ghost mut as_: Seq<Visited> = Seq::empty();
    let ghost start = *expr;
    proof {
        lemma_run_mut_empty(*v);
    }
    let ghost pre = *v;
    let ghost lb = comment_nodes(expr.comments@);
    visit_comments_mut(v, &mut expr.comments);
    proof {
        lemma_run_mut_concat(*old(v), pre, *v, bs, as_, lb, comment_nodes(expr.comments@));
        bs = bs + lb;
        as_ = as_ + comment_nodes(expr.comments@);
    }
    match &mut expr.value {
        Expr::Unit | Expr::GLSLExpression(_) | Expr::RecordAccessFunction(_) => {},
        Expr::Literal(lit) => {
            let ghost pre = *v;
            let ghost nb = Visited::Literal(*lit);
            v.visit_literal_mut(lit);
            proof {
                lemma_run_mut_step(*old(v), pre, *v, bs, as_, nb, Visited::Literal(*lit));
                bs = bs.push(nb);
                as_ = as_.push(Visited::Literal(*lit));
            }
        },
        Expr::FunctionOrValue { name, .. } => {
            let ghost pre = *v;
            let ghost nb = Visited::Ident(name@);
            v.visit_ident_mut(name);
            proof {
                lemma_run_mut_step(*old(v), pre, *v, bs, as_, nb, Visited::Ident(name@));
                bs = bs.push(nb);
                as_ = as_.push(Visited::Ident(name@));
            }
        },
        Expr::PrefixOperator(op) => {
            let ghost pre = *v;
            let ghost nb = Visited::Ident(op@);
            v.visit_ident_mut(op);
            proof {
                lemma_run_mut_step(*old(v), pre, *v, bs, as_, nb, Visited::Ident(op@));
                bs = bs.push(nb);
                as_ = as_.push(Visited::Ident(op@));
            }
        },
        Expr::OperatorApplication { left, right, .. } => {
            let ghost pre = *v;
            let ghost nb = Visited::Expr(**left);
            v.visit_expr_mut(left);
            proof {
                lemma_run_mut_step(*old(v), pre, *v, bs, as_, nb, Visited::Expr(**left));
                bs = bs.push(nb);
                as_ = as_.push(Visited::Expr(**left));
            }
            let ghost pre = *v;
            let ghost nb = Visited::Expr(**right);
            v.visit_expr_mut(right);
            proof {
                lemma_run_mut_step(*old(v), pre, *v, bs, as_, nb, Visited::Expr(**right));
                bs = bs.push(nb);
                as_ = as_.push(Visited::Expr(**right));
            }
        },
        Expr::BinOps { operands_and_operators, final_operand } => {
            let ghost base_b = bs;
            let ghost base_a = as_;
            let ghost orig = operands_and_operators@;
            let mut i: usize = 0;
            while i < operands_and_operators.len()
                invariant
                    i <= operands_and_operators@.len(),
                    operands_and_operators@.len() == orig.len(),
                    forall|k: int| i <= k < orig.len() ==> operands_and_operators@[k] == orig[k],
                    visit_run_mut(*old(v), *v, base_b + operand_nodes(orig.take(i as int)), base_a + operand_nodes(operands_and_operators@.take(i as int))),
                decreases operands_and_operators@.len() - i,
            {
                let ghost pre = *v;
                let ghost cur = operands_and_operators@;
                v.visit_expr_mut(&mut operands_and_operators[i].0);
                proof {
                    assert(operands_and_operators@.take(i as int) =~= cur.take(i as int));
                    lemma_run_mut_step(
                        *old(v),
                        pre,
                        *v,
                        base_b + operand_nodes(orig.take(i as int)),
                        base_a + operand_nodes(cur.take(i as int)),
                        Visited::Expr(orig[i as int].0),
                        Visited::Expr(operands_and_operators@[i as int].0),
                    );
                    assert((base_b + operand_nodes(orig.take(i as int))).push(Visited::Expr(orig[i as int].0)) =~= base_b + operand_nodes(orig.take(i + 1)));
                    assert((base_a + operand_nodes(operands_and_operators@.take(i as int))).push(Visited::Expr(operands_and_operators@[i as int].0)) =~= base_a + operand_nodes(operands_and_operators@.take(i + 1)));
                }
                i = i + 1;
            }
            proof {
                assert(orig.take(i as int) =~= orig);
                assert(operands_and_operators@.take(i as int) =~= operands_and_operators@);
                bs = base_b + operand_nodes(orig);
                as_ = base_a + operand_nodes(operands_and_operators@);
            }
            let ghost pre = *v;
            let ghost nb = Visited::Expr(**final_operand);
            v.visit_expr_mut(final_operand);
            proof {
                lemma_run_mut_step(*old(v), pre, *v, bs, as_, nb, Visited::Expr(**final_operand));
                bs = bs.push(nb);
                as_ = as_.push(Visited::Expr(**final_operand));
            }
        },
        Expr::Application(args) => {
            let ghost pre = *v;
            let ghost lb = expr_nodes(args@);
            visit_exprs_mut(v, args);
            proof {
                lemma_run_mut_concat(*old(v), pre, *v, bs, as_, lb, expr_nodes(args@));
                bs = bs + lb;
                as_ = as_ + expr_nodes(args@);
            }
        },
        Expr::IfElse { branches, else_branch } => {
            let ghost base_b = bs;
            let ghost base_a = as_;
            let ghost orig = branches@;
            let mut i: usize = 0;
            while i < branches.len()
                invariant
                    i <= branches@.len(),
                    branches@.len() == orig.len(),
                    forall|k: int| i <= k < orig.len() ==> branches@[k] == orig[k],
                    visit_run_mut(*old(v), *v, base_b + arm_nodes(orig.take(i as int)), base_a + arm_nodes(branches@.take(i as int))),
                decreases branches@.len() - i,
            {
                let ghost pre = *v;
                let ghost cur = branches@;
                v.visit_expr_mut(&mut branches[i].0);
                let ghost mid = *v;
                let ghost cur2 = branches@;
                v.visit_expr_mut(&mut branches[i].1);
                proof {
                    let bb = base_b + arm_nodes(orig.take(i as int));
                    let ba = base_a + arm_nodes(cur.take(i as int));
                    assert(branches@.take(i as int) =~= cur.take(i as int));
                    assert(cur2.take(i as int) =~= cur.take(i as int));
                    lemma_run_mut_step(*old(v), pre, mid, bb, ba, Visited::Expr(orig[i as int].0), Visited::Expr(cur2[i as int].0));
                    lemma_run_mut_step(
                        *old(v),
                        mid,
                        *v,
                        bb.push(Visited::Expr(orig[i as int].0)),
                        ba.push(Visited::Expr(cur2[i as int].0)),
                        Visited::Expr(orig[i as int].1),
                        Visited::Expr(branches@[i as int].1),
                    );
                    assert(cur2[i as int].0 == branches@[i as int].0);
                    assert(orig.take(i + 1).drop_last() =~= orig.take(i as int));
                    assert(branches@.take(i + 1).drop_last() =~= branches@.take(i as int));
                    assert(bb.push(Visited::Expr(orig[i as int].0)).push(Visited::Expr(orig[i as int].1)) =~= base_b + arm_nodes(
                        orig.take(i + 1),
                    ));
                    assert(ba.push(Visited::Expr(cur2[i as int].0)).push(Visited::Expr(branches@[i as int].1)) =~= base_a
                        + arm_nodes(branches@.take(i + 1)));
                }
                i = i + 1;
            }
            proof {
                assert(orig.take(i as int) =~= orig);
                assert(branches@.take(i as int) =~= branches@);
                bs = base_b + arm_nodes(orig);
                as_ = base_a + arm_nodes(branches@);
            }
            let ghost pre = *v;
            let ghost nb = Visited::Expr(**else_branch);
            v.visit_expr_mut(else_branch);
            proof {
                lemma_run_mut_step(*old(v), pre, *v, bs, as_, nb, Visited::Expr(**else_branch));
                bs = bs.push(nb);
                as_ = as_.push(Visited::Expr(**else_branch));
            }
        },
        Expr::Negation(inner) => {
            let ghost pre = *v;
            let ghost nb = Visited::Expr(**inner);
            v.visit_expr_mut(inner);
            proof {
                lemma_run_mut_step(*old(v), pre, *v, bs, as_, nb, Visited::Expr(**inner));
                bs = bs.push(nb);
                as_ = as_.push(Visited::Expr(**inner));
            }
        },
        Expr::Tuple(elems) => {
            let ghost pre = *v;
            let ghost lb = expr_nodes(elems@);
            visit_exprs_mut(v, elems);
            proof {
                lemma_run_mut_concat(*old(v), pre, *v, bs, as_, lb, expr_nodes(elems@));
                bs = bs + lb;
                as_ = as_ + expr_nodes(elems@);
            }
        },
        Expr::List(elems) => {
            let ghost pre = *v;
            let ghost lb = expr_nodes(elems@);
            visit_exprs_mut(v, elems);
            proof {
                lemma_run_mut_concat(*old(v), pre, *v, bs, as_, lb, expr_nodes(elems@));
                bs = bs + lb;
                as_ = as_ + expr_nodes(elems@);
            }
        },
        Expr::Parenthesized(inner) => {
            let ghost pre = *v;
            let ghost nb = Visited::Expr(**inner);
            v.visit_expr_mut(inner);
            proof {
                lemma_run_mut_step(*old(v), pre, *v, bs, as_, nb, Visited::Expr(**inner));
                bs = bs.push(nb);
                as_ = as_.push(Visited::Expr(**inner));
            }
        },
        Expr::LetIn { declarations, body, .. } => {
            let ghost base_b = bs;
            let ghost base_a = as_;
            let ghost orig = declarations@;
            let mut i: usize = 0;
            while i < declarations.len()
                invariant
                    i <= declarations@.len(),
                    declarations@.len() == orig.len(),
                    forall|k: int| i <= k < orig.len() ==> declarations@[k] == orig[k],
                    visit_run_mut(*old(v), *v, base_b + let_declaration_list_nodes(orig.take(i as int)), base_a + let_declaration_list_nodes(declarations@.take(i as int))),
                decreases declarations@.len() - i,
            {
                let ghost pre = *v;
                let ghost cur = declarations@;
                v.visit_let_declaration_mut(&mut declarations[i]);
                proof {
                    assert(declarations@.take(i as int) =~= cur.take(i as int));
                    lemma_run_mut_step(
                        *old(v),
                        pre,
                        *v,
                        base_b + let_declaration_list_nodes(orig.take(i as int)),
                        base_a + let_declaration_list_nodes(cur.take(i as int)),
                        Visited::LetDeclaration(orig[i as int]),
                        Visited::LetDeclaration(declarations@[i as int]),
                    );
                    assert((base_b + let_declaration_list_nodes(orig.take(i as int))).push(Visited::LetDeclaration(orig[i as int])) =~= base_b + let_declaration_list_nodes(orig.take(i + 1)));
                    assert((base_a + let_declaration_list_nodes(declarations@.take(i as int))).push(Visited::LetDeclaration(declarations@[i as int])) =~= base_a + let_declaration_list_nodes(declarations@.take(i + 1)));
                }
                i = i + 1;
            }
            proof {
                assert(orig.take(i as int) =~= orig);
                assert(declarations@.take(i as int) =~= declarations@);
                bs = base_b + let_declaration_list_nodes(orig);
                as_ = base_a + let_declaration_list_nodes(declarations@);
            }
            let ghost pre = *v;
            let ghost nb = Visited::Expr(**body);
            v.visit_expr_mut(body);
            proof {
                lemma_run_mut_step(*old(v), pre, *v, bs, as_, nb, Visited::Expr(**body));
                bs = bs.push(nb);
                as_ = as_.push(Visited::Expr(**body));
            }
        },
        Expr::CaseOf { expr: subject, branches } => {
            let ghost pre = *v;
            let ghost nb = Visited::Expr(**subject);
            v.visit_expr_mut(subject);
            proof {
                lemma_run_mut_step(*old(v), pre, *v, bs, as_, nb, Visited::Expr(**subject));
                bs = bs.push(nb);
                as_ = as_.push(Visited::Expr(**subject));
            }
            let ghost base_b = bs;
            let ghost base_a = as_;
            let ghost orig = branches@;
            let mut i: usize = 0;
            while i < branches.len()
                invariant
                    i <= branches@.len(),
                    branches@.len() == orig.len(),
                    forall|k: int| i <= k < orig.len() ==> branches@[k] == orig[k],
                    visit_run_mut(*old(v), *v, base_b + case_branch_nodes(orig.take(i as int)), base_a + case_branch_nodes(branches@.take(i as int))),
                decreases branches@.len() - i,
            {
                let ghost pre = *v;
                let ghost cur = branches@;
                v.visit_case_branch_mut(&mut branches[i]);
                proof {
                    assert(branches@.take(i as int) =~= cur.take(i as int));
                    lemma_run_mut_step(
                        *old(v),
                        pre,
                        *v,
                        base_b + case_branch_nodes(orig.take(i as int)),
                        base_a + case_branch_nodes(cur.take(i as int)),
                        Visited::CaseBranch(orig[i as int]),
                        Visited::CaseBranch(branches@[i as int]),
                    );
                    assert((base_b + case_branch_nodes(orig.take(i as int))).push(Visited::CaseBranch(orig[i as int])) =~= base_b + case_branch_nodes(orig.take(i + 1)));
                    assert((base_a + case_branch_nodes(branches@.take(i as int))).push(Visited::CaseBranch(branches@[i as int])) =~= base_a + case_branch_nodes(branches@.take(i + 1)));
                }
                i = i + 1;
            }
            proof {
                assert(orig.take(i as int) =~= orig);
                assert(branches@.take(i as int) =~= branches@);
                bs = base_b + case_branch_nodes(orig);
                as_ = base_a + case_branch_nodes(branches@);
            }
        },
        Expr::Lambda { args, body } => {
            let ghost pre = *v;
            let ghost lb = pattern_nodes(args@);
            visit_patterns_mut(v, args);
            proof {
                lemma_run_mut_concat(*old(v), pre, *v, bs, as_, lb, pattern_nodes(args@));
                bs = bs + lb;
                as_ = as_ + pattern_nodes(args@);
            }
            let ghost pre = *v;
            let ghost nb = Visited::Expr(**body);
            v.visit_expr_mut(body);
            proof {
                lemma_run_mut_step(*old(v), pre, *v, bs, as_, nb, Visited::Expr(**body));
                bs = bs.push(nb);
                as_ = as_.push(Visited::Expr(**body));
            }
        },
        Expr::Record(fields) => {
            let ghost pre = *v;
            let ghost lb = setter_nodes(fields@);
            visit_record_setters_mut(v, fields);
            proof {
                lemma_run_mut_concat(*old(v), pre, *v, bs, as_, lb, setter_nodes(fields@));
                bs = bs + lb;
                as_ = as_ + setter_nodes(fields@);
            }
        },
        Expr::RecordUpdate { updates, .. } => {
            let ghost pre = *v;
            let ghost lb = setter_nodes(updates@);
            visit_record_setters_mut(v, updates);
            proof {
                lemma_run_mut_concat(*old(v), pre, *v, bs, as_, lb, setter_nodes(updates@));
                bs = bs + lb;
                as_ = as_ + setter_nodes(updates@);
            }
        },
        Expr::RecordAccess { record, .. } => {
            let ghost pre = *v;
            let ghost nb = Visited::Expr(**record);
            v.visit_expr_mut(record);
            proof {
                lemma_run_mut_step(*old(v), pre, *v, bs, as_, nb, Visited::Expr(**record));
                bs = bs.push(nb);
                as_ = as_.push(Visited::Expr(**record));
            }
        },
    }
    proof {
        assert(bs =~= expr_nodes_of(start));
        assert(as_ =~= expr_nodes_of(*expr));
    }
}

/// Visit the comments attached to the pattern, then its children in source
/// order.
pub fn walk_pattern_mut<V: VisitMut>(v: &mut V, pattern: &mut Spanned<Pattern>)
    ensures
        visit_run_mut(*old(v), *final(v), pattern_nodes_of(*old(pattern)), pattern_nodes_of(*final(pattern))),
{
    let ghost mut bs: Seq<Visited> = Seq::empty();
    let ghost mut as_: Seq<Visited> = Seq::empty();
    let ghost start = *pattern;
    proof {
        lemma_run_mut_empty(*v);
    }
    let ghost pre = *v;
    let ghost lb = comment_nodes(pattern.comments@);
    visit_comments_mut(v, &mut pattern.comments);
    proof {
        lemma_run_mut_concat(*old(v), pre, *v, bs, as_, lb, comment_nodes(pattern.comments@));
        bs = bs + lb;
        as_ = as_ + comment_nodes(pattern.comments@);
    }
    match &mut pattern.value {
        Pattern::Anything | Pattern::Unit | Pattern::Hex(_) => {},
        Pattern::Var(name) => {
            let ghost pre = *v;
            let ghost nb = Visited::Ident(name@);
            v.visit_ident_mut(name);
            proof {
                lemma_run_mut_step(*old(v), pre, *v, bs, as_, nb, Visited::Ident(name@));
                bs = bs.push(nb);
                as_ = as_.push(Visited::Ident(name@));
            }
        },
        Pattern::Literal(lit) => {
            let ghost pre = *v;
            let ghost nb = Visited::Literal(*lit);
            v.visit_literal_mut(lit);
            proof {
                lemma_run_mut_step(*old(v), pre, *v, bs, as_, nb, Visited::Literal(*lit));
                bs = bs.push(nb);
                as_ = as_.push(Visited::Literal(*lit));
            }
        },
        Pattern::Tuple(elems) => {
            let ghost pre = *v;
            let ghost lb = pattern_nodes(elems@);
            visit_patterns_mut(v, elems);
            proof {
                lemma_run_mut_concat(*old(v), pre, *v, bs, as_, lb, pattern_nodes(elems@));
                bs = bs + lb;
                as_ = as_ + pattern_nodes(elems@);
            }
        },
        Pattern::List(elems) => {
            let ghost pre = *v;
            let ghost lb = pattern_nodes(elems@);
            visit_patterns_mut(v, elems);
            proof {
                lemma_run_mut_concat(*old(v), pre, *v, bs, as_, lb, pattern_nodes(elems@));
                bs = bs + lb;
                as_ = as_ + pattern_nodes(elems@);
            }
        },
        Pattern::Constructor { args, .. } => {
            let ghost pre = *v;
            let ghost lb = pattern_nodes(args@);
            visit_patterns_mut(v, args);
            proof {
                lemma_run_mut_concat(*old(v), pre, *v, bs, as_, lb, pattern_nodes(args@));
                bs = bs + lb;
                as_ = as_ + pattern_nodes(args@);
            }
        },
        Pattern::Record(fields) => {
            let ghost base_b = bs;
            let ghost base_a = as_;
            let ghost orig = fields@;
            let mut i: usize = 0;
            while i < fields.len()
                invariant
                    i <= fields@.len(),
                    fields@.len() == orig.len(),
                    forall|k: int| i <= k < orig.len() ==> fields@[k] == orig[k],
                    visit_run_mut(*old(v), *v, base_b + name_nodes(orig.take(i as int)), base_a + name_nodes(fields@.take(i as int))),
                decreases fields@.len() - i,
            {
                let ghost pre = *v;
                let ghost cur = fields@;
                v.visit_ident_mut(&mut fields[i].value);
                proof {
                    assert(fields@.take(i as int) =~= cur.take(i as int));
                    lemma_run_mut_step(
                        *old(v),
                        pre,
                        *v,
                        base_b + name_nodes(orig.take(i as int)),
                        base_a + name_nodes(cur.take(i as int)),
                        Visited::Ident(orig[i as int].value@),
                        Visited::Ident(fields@[i as int].value@),
                    );
                    assert((base_b + name_nodes(orig.take(i as int))).push(Visited::Ident(orig[i as int].value@)) =~= base_b + name_nodes(orig.take(i + 1)));
                    assert((base_a + name_nodes(fields@.take(i as int))).push(Visited::Ident(fields@[i as int].value@)) =~= base_a + name_nodes(fields@.take(i + 1)));
                }
                i = i + 1;
            }
            proof {
                assert(orig.take(i as int) =~= orig);
                assert(fields@.take(i as int) =~= fields@);
                bs = base_b + name_nodes(orig);
                as_ = base_a + name_nodes(fields@);
            }
        },
        Pattern::Cons { head, tail } => {
            let ghost pre = *v;
            let ghost nb = Visited::Pattern(**head);
            v.visit_pattern_mut(head);
            proof {
                lemma_run_mut_step(*old(v), pre, *v, bs, as_, nb, Visited::Pattern(**head));
                bs = bs.push(nb);
                as_ = as_.push(Visited::Pattern(**head));
            }
            let ghost pre = *v;
            let ghost nb = Visited::Pattern(**tail);
            v.visit_pattern_mut(tail);
            proof {
                lemma_run_mut_step(*old(v), pre, *v, bs, as_, nb, Visited::Pattern(**tail));
                bs = bs.push(nb);
                as_ = as_.push(Visited::Pattern(**tail));
            }
        },
        Pattern::As { pattern: inner, name } => {
            let ghost pre = *v;
            let ghost nb = Visited::Pattern(**inner);
            v.visit_pattern_mut(inner);
            proof {
                lemma_run_mut_step(*old(v), pre, *v, bs, as_, nb, Visited::Pattern(**inner));
                bs = bs.push(nb);
                as_ = as_.push(Visited::Pattern(**inner));
            }
            let ghost pre = *v;
            let ghost nb = Visited::Ident(name.value@);
            v.visit_ident_mut(&mut name.value);
            proof {
                lemma_run_mut_step(*old(v), pre, *v, bs, as_, nb, Visited::Ident(name.value@));
                bs = bs.push(nb);
                as_ = as_.push(Visited::Ident(name.value@));
            }
        },
        Pattern::Parenthesized(inner) => {
            let ghost pre = *v;
            let ghost nb = Visited::Pattern(**inner);
            v.visit_pattern_mut(inner);
            proof {
                lemma_run_mut_step(*old(v), pre, *v, bs, as_, nb, Visited::Pattern(**inner));
                bs = bs.push(nb);
                as_ = as_.push(Visited::Pattern(**inner));
            }
        },
    }
    proof {
        assert(bs =~= pattern_nodes_of(start));
        assert(as_ =~= pattern_nodes_of(*pattern));
    }
}

/// Visit the children of a type annotation in source order.
pub fn walk_type_annotation_mut<V: VisitMut>(v: &mut V, ty: &mut Spanned<TypeAnnotation>)
    ensures
        visit_run_mut(*old(v), *final(v), type_nodes_of(*old(ty)), type_nodes_of(*final(ty))),
{
    let ghost mut bs: Seq<Visited> = Seq::empty();
    let ghost mut as_: Seq<Visited> = Seq::empty();
    let ghost start = *ty;
    proof {
        lemma_run_mut_empty(*v);
    }
    match &mut ty.value {
        TypeAnnotation::GenericType(_) | TypeAnnotation::Unit => {},
        TypeAnnotation::Typed { args, .. } => {
            let ghost pre = *v;
            let ghost lb = type_nodes(args@);
            visit_types_mut(v, args);
            proof {
                lemma_run_mut_concat(*old(v), pre, *v, bs, as_, lb, type_nodes(args@));
                bs = bs + lb;
                as_ = as_ + type_nodes(args@);
            }
        },
        TypeAnnotation::Tupled(elems) => {
            let ghost pre = *v;
            let ghost lb = type_nodes(elems@);
            visit_types_mut(v, elems);
            proof {
                lemma_run_mut_concat(*old(v), pre, *v, bs, as_, lb, type_nodes(elems@));
                bs = bs + lb;
                as_ = as_ + type_nodes(elems@);
            }
        },
        TypeAnnotation::Record(fields) => {
            let ghost pre = *v;
            let ghost lb = field_nodes(fields@);
            visit_record_fields_mut(v, fields);
            proof {
                lemma_run_mut_concat(*old(v), pre, *v, bs, as_, lb, field_nodes(fields@));
                bs = bs + lb;
                as_ = as_ + field_nodes(fields@);
            }
        },
        TypeAnnotation::GenericRecord { fields, .. } => {
            let ghost pre = *v;
            let ghost lb = field_nodes(fields@);
            visit_record_fields_mut(v, fields);
            proof {
                lemma_run_mut_concat(*old(v), pre, *v, bs, as_, lb, field_nodes(fields@));
                bs = bs + lb;
                as_ = as_ + field_nodes(fields@);
            }
        },
        TypeAnnotation::FunctionType { from, to } => {
            let ghost pre = *v;
            let ghost nb = Visited::TypeAnnotation(**from);
            v.visit_type_annotation_mut(from);
            proof {
                lemma_run_mut_step(*old(v), pre, *v, bs, as_, nb, Visited::TypeAnnotation(**from));
                bs = bs.push(nb);
                as_ = as_.push(Visited::TypeAnnotation(**from));
            }
            let ghost pre = *v;
            let ghost nb = Visited::TypeAnnotation(**to);
            v.visit_type_annotation_mut(to);
            proof {
                lemma_run_mut_step(*old(v), pre, *v, bs, as_, nb, Visited::TypeAnnotation(**to));
                bs = bs.push(nb);
                as_ = as_.push(Visited::TypeAnnotation(**to));
            }
        },
    }
    proof {
        assert(bs =~= type_nodes_of(start));
        assert(as_ =~= type_nodes_of(*ty));
    }
}

/// Visit the field's type.
pub fn walk_record_field_mut<V: VisitMut>(v: &mut V, field: &mut Spanned<RecordField>)
    ensures
        visit_run_mut(*old(v), *final(v), seq![Visited::TypeAnnotation((*old(field)).value.type_annotation)], seq![Visited::TypeAnnotation((*final(field)).value.type_annotation)]),
{
    let ghost mut bs: Seq<Visited> = Seq::empty();
    let ghost mut as_: Seq<Visited> = Seq::empty();
    let ghost start = *field;
    proof {
        lemma_run_mut_empty(*v);
    }
    let ghost pre = *v;
    let ghost nb = Visited::TypeAnnotation(field.value.type_annotation);
    v.visit_type_annotation_mut(&mut field.value.type_annotation);
    proof {
        lemma_run_mut_step(*old(v), pre, *v, bs, as_, nb, Visited::TypeAnnotation(field.value.type_annotation));
        bs = bs.push(nb);
        as_ = as_.push(Visited::TypeAnnotation(field.value.type_annotation));
    }
    proof {
        assert(bs =~= seq![Visited::TypeAnnotation((start).value.type_annotation)]);
        assert(as_ =~= seq![Visited::TypeAnnotation((*field).value.type_annotation)]);
    }
}

/// Visit the comments attached to the declaration, then its parts.
pub fn walk_let_declaration_mut<V: VisitMut>(v: &mut V, decl: &mut Spanned<LetDeclaration>)
    ensures
        visit_run_mut(*old(v), *final(v), let_declaration_nodes(*old(decl)), let_declaration_nodes(*final(decl))),
{
    let ghost mut bs: Seq<Visited> = Seq::empty();
    let ghost mut as_: Seq<Visited> = Seq::empty();
    let ghost start = *decl;
    proof {
        lemma_run_mut_empty(*v);
    }
    let ghost pre = *v;
    let ghost lb = comment_nodes(decl.comments@);
    visit_comments_mut(v, &mut decl.comments);
    proof {
        lemma_run_mut_concat(*old(v), pre, *v, bs, as_, lb, comment_nodes(decl.comments@));
        bs = bs + lb;
        as_ = as_ + comment_nodes(decl.comments@);
    }
    match &mut decl.value {
        LetDeclaration::Function(func) => {
            let ghost pre = *v;
            let ghost nb = Visited::Function(*func);
            v.visit_function_mut(func);
            proof {
                lemma_run_mut_step(*old(v), pre, *v, bs, as_, nb, Visited::Function(*func));
                bs = bs.push(nb);
                as_ = as_.push(Visited::Function(*func));
            }
        },
        LetDeclaration::Destructuring { pattern, body } => {
            let ghost pre = *v;
            let ghost nb = Visited::Pattern(*pattern);
            v.visit_pattern_mut(pattern);
            proof {
                lemma_run_mut_step(*old(v), pre, *v, bs, as_, nb, Visited::Pattern(*pattern));
                bs = bs.push(nb);
                as_ = as_.push(Visited::Pattern(*pattern));
            }
            let ghost pre = *v;
            let ghost nb = Visited::Expr(*body);
            v.visit_expr_mut(body);
            proof {
                lemma_run_mut_step(*old(v), pre, *v, bs, as_, nb, Visited::Expr(*body));
                bs = bs.push(nb);
                as_ = as_.push(Visited::Expr(*body));
            }
        },
    }
    proof {
        assert(bs =~= let_declaration_nodes(start));
        assert(as_ =~= let_declaration_nodes(*decl));
    }
}

/// Visit the branch pattern, then its body.
pub fn walk_case_branch_mut<V: VisitMut>(v: &mut V, branch: &mut CaseBranch)
    ensures
        visit_run_mut(*old(v), *final(v), seq![Visited::Pattern((*old(branch)).pattern), Visited::Expr((*old(branch)).body)], seq![Visited::Pattern((*final(branch)).pattern), Visited::Expr((*final(branch)).body)]),
{
    let ghost mut bs: Seq<Visited> = Seq::empty();
    let ghost mut as_: Seq<Visited> = Seq::empty();
    let ghost start = *branch;
    proof {
        lemma_run_mut_empty(*v);
    }
    let ghost pre = *v;
    let ghost nb = Visited::Pattern(branch.pattern);
    v.visit_pattern_mut(&mut branch.pattern);
    proof {
        lemma_run_mut_step(*old(v), pre, *v, bs, as_, nb, Visited::Pattern(branch.pattern));
        bs = bs.push(nb);
        as_ = as_.push(Visited::Pattern(branch.pattern));
    }
    let ghost pre = *v;
    let ghost nb = Visited::Expr(branch.body);
    v.visit_expr_mut(&mut branch.body);
    proof {
        lemma_run_mut_step(*old(v), pre, *v, bs, as_, nb, Visited::Expr(branch.body));
        bs = bs.push(nb);
        as_ = as_.push(Visited::Expr(branch.body));
    }
    proof {
        assert(bs =~= seq![Visited::Pattern((start).pattern), Visited::Expr((start).body)]);
        assert(as_ =~= seq![Visited::Pattern((*branch).pattern), Visited::Expr((*branch).body)]);
    }
}

/// Visit the assigned value.
pub fn walk_record_setter_mut<V: VisitMut>(v: &mut V, setter: &mut Spanned<RecordSetter>)
    ensures
        visit_run_mut(*old(v), *final(v), seq![Visited::Expr((*old(setter)).value.value)], seq![Visited::Expr((*final(setter)).value.value)]),
{
    let ghost mut bs: Seq<Visited> = Seq::empty();
    let ghost mut as_: Seq<Visited> = Seq::empty();
    let ghost start = *setter;
    proof {
        lemma_run_mut_empty(*v);
    }
    let ghost pre = *v;
    let ghost nb = Visited::Expr(setter.value.value);
    v.visit_expr_mut(&mut setter.value.value);
    proof {
        lemma_run_mut_step(*old(v), pre, *v, bs, as_, nb, Visited::Expr(setter.value.value));
        bs = bs.push(nb);
        as_ = as_.push(Visited::Expr(setter.value.value));
    }
    proof {
        assert(bs =~= seq![Visited::Expr((start).value.value)]);
        assert(as_ =~= seq![Visited::Expr((*setter).value.value)]);
    }
}

} // verus!

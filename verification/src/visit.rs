//! Immutable visitor trait for traversing Elm syntax trees.
//!
//! Implement [`Visit`] to inspect nodes. A `visit_*` method that wants the
//! usual descent calls the corresponding `walk_*` function, which visits the
//! node's children in source order. The leaf hooks (exposed items, infix
//! definitions, literals, comments, names) do nothing by default; the
//! others have no default body, since Verus does not accept default methods
//! that recurse through the trait, so an implementation writes each as a
//! call of its `walk_*` function or as its own code.
//!
//! Each implementation says, through [`Visit::visits`], how one call
//! changes it; the `walk_*` functions state which calls they make, in
//! order, as a chain of such steps ([`visit_run`]).

use vstd::prelude::*;

use crate::comment::Comment;
use crate::declaration::{CustomType, Declaration, InfixDef, TypeAlias, ValueConstructor};
use crate::exposing::{ExposedItem, Exposing};
use crate::expr::{
    CaseBranch, Expr, Function, FunctionImplementation, LetDeclaration, RecordSetter, Signature,
};
use crate::file::ElmModule;
use crate::import::Import;
use crate::literal::Literal;
use crate::module_header::ModuleHeader;
use crate::node::Spanned;
use crate::pattern::Pattern;
use crate::type_annotation::{RecordField, TypeAnnotation};

verus! {

/// What a visitor method is handed: a node, or a name for `visit_ident`.
pub enum Visited {
    Module(ElmModule),
    ModuleHeader(Spanned<ModuleHeader>),
    Import(Spanned<Import>),
    Exposing(Spanned<Exposing>),
    ExposedItem(Spanned<ExposedItem>),
    Declaration(Spanned<Declaration>),
    Function(Function),
    Signature(Spanned<Signature>),
    FunctionImplementation(Spanned<FunctionImplementation>),
    TypeAlias(TypeAlias),
    CustomType(CustomType),
    ValueConstructor(Spanned<ValueConstructor>),
    InfixDef(InfixDef),
    Expr(Spanned<Expr>),
    Pattern(Spanned<Pattern>),
    TypeAnnotation(Spanned<TypeAnnotation>),
    RecordField(Spanned<RecordField>),
    LetDeclaration(Spanned<LetDeclaration>),
    CaseBranch(CaseBranch),
    RecordSetter(Spanned<RecordSetter>),
    Literal(Literal),
    Comment(Spanned<Comment>),
    Ident(Seq<char>),
}

/// Immutable visitor. Each method receives one node; the `walk_*`
/// functions below visit a node's children in source order. What a call
/// does to the visitor is what the implementation's `visits` says.
pub trait Visit: Sized {
    /// One call, handed `node`, takes the visitor from `self` to `next`.
    spec fn visits(self, next: Self, node: Visited) -> bool;

    fn visit_module(&mut self, module: &ElmModule)
        ensures
            (*old(self)).visits(*final(self), Visited::Module(*module)),
    ;

    fn visit_module_header(&mut self, header: &Spanned<ModuleHeader>)
        ensures
            (*old(self)).visits(*final(self), Visited::ModuleHeader(*header)),
    ;

    fn visit_import(&mut self, import: &Spanned<Import>)
        ensures
            (*old(self)).visits(*final(self), Visited::Import(*import)),
    ;

    fn visit_exposing(&mut self, exposing: &Spanned<Exposing>)
        ensures
            (*old(self)).visits(*final(self), Visited::Exposing(*exposing)),
    ;

    fn visit_exposed_item(&mut self, item: &Spanned<ExposedItem>)
        ensures
            (*old(self)).visits(*final(self), Visited::ExposedItem(*item)),
    {
        proof {
            Self::lemma_leaf_unchanged(*self, Visited::ExposedItem(*item));
        }
    }

    fn visit_declaration(&mut self, decl: &Spanned<Declaration>)
        ensures
            (*old(self)).visits(*final(self), Visited::Declaration(*decl)),
    ;

    fn visit_function(&mut self, func: &Function)
        ensures
            (*old(self)).visits(*final(self), Visited::Function(*func)),
    ;

    fn visit_signature(&mut self, sig: &Spanned<Signature>)
        ensures
            (*old(self)).visits(*final(self), Visited::Signature(*sig)),
    ;

    fn visit_function_implementation(&mut self, imp: &Spanned<FunctionImplementation>)
        ensures
            (*old(self)).visits(*final(self), Visited::FunctionImplementation(*imp)),
    ;

    fn visit_type_alias(&mut self, alias: &TypeAlias)
        ensures
            (*old(self)).visits(*final(self), Visited::TypeAlias(*alias)),
    ;

    fn visit_custom_type(&mut self, ct: &CustomType)
        ensures
            (*old(self)).visits(*final(self), Visited::CustomType(*ct)),
    ;

    fn visit_value_constructor(&mut self, ctor: &Spanned<ValueConstructor>)
        ensures
            (*old(self)).visits(*final(self), Visited::ValueConstructor(*ctor)),
    ;

    fn visit_infix_def(&mut self, infix: &InfixDef)
        ensures
            (*old(self)).visits(*final(self), Visited::InfixDef(*infix)),
    {
        proof {
            Self::lemma_leaf_unchanged(*self, Visited::InfixDef(*infix));
        }
    }

    fn visit_expr(&mut self, expr: &Spanned<Expr>)
        ensures
            (*old(self)).visits(*final(self), Visited::Expr(*expr)),
    ;

    fn visit_pattern(&mut self, pattern: &Spanned<Pattern>)
        ensures
            (*old(self)).visits(*final(self), Visited::Pattern(*pattern)),
    ;

    fn visit_type_annotation(&mut self, ty: &Spanned<TypeAnnotation>)
        ensures
            (*old(self)).visits(*final(self), Visited::TypeAnnotation(*ty)),
    ;

    fn visit_record_field(&mut self, field: &Spanned<RecordField>)
        ensures
            (*old(self)).visits(*final(self), Visited::RecordField(*field)),
    ;

    fn visit_let_declaration(&mut self, decl: &Spanned<LetDeclaration>)
        ensures
            (*old(self)).visits(*final(self), Visited::LetDeclaration(*decl)),
    ;

    fn visit_case_branch(&mut self, branch: &CaseBranch)
        ensures
            (*old(self)).visits(*final(self), Visited::CaseBranch(*branch)),
    ;

    fn visit_record_setter(&mut self, setter: &Spanned<RecordSetter>)
        ensures
            (*old(self)).visits(*final(self), Visited::RecordSetter(*setter)),
    ;

    fn visit_literal(&mut self, lit: &Literal)
        ensures
            (*old(self)).visits(*final(self), Visited::Literal(*lit)),
    {
        proof {
            Self::lemma_leaf_unchanged(*self, Visited::Literal(*lit));
        }
    }

    /// Being handed an exposed item, an infix definition, a literal, a
    /// comment or a name and doing nothing, as the default methods for
    /// those do, is a step of the visitor.
    proof fn lemma_leaf_unchanged(a: Self, node: Visited)
        requires
            node is ExposedItem || node is InfixDef || node is Literal || node is Comment || node is Ident,
        ensures
            a.visits(a, node),
    ;

    fn visit_comment(&mut self, comment: &Spanned<Comment>)
        ensures
            (*old(self)).visits(*final(self), Visited::Comment(*comment)),
    {
        proof {
            Self::lemma_leaf_unchanged(*self, Visited::Comment(*comment));
        }
    }

    fn visit_ident(&mut self, name: &str)
        ensures
            (*old(self)).visits(*final(self), Visited::Ident(name@)),
    {
        proof {
            Self::lemma_leaf_unchanged(*self, Visited::Ident(name@));
        }
    }
}

/// `states` are the visitor before and after each call of a run from `a`
/// to `b`, one call per node of `nodes`, in order.
pub open spec fn run_states<V: Visit>(states: Seq<V>, a: V, b: V, nodes: Seq<Visited>) -> bool {
    &&& states.len() == nodes.len() + 1
    &&& states[0] == a
    &&& states.last() == b
    &&& forall|i: int| 0 <= i < nodes.len() ==> #[trigger] states[i].visits(states[i + 1], nodes[i])
}

/// The visitor goes from `a` to `b` through one call per node of `nodes`,
/// in order.
pub open spec fn visit_run<V: Visit>(a: V, b: V, nodes: Seq<Visited>) -> bool {
    exists|states: Seq<V>| #[trigger] run_states(states, a, b, nodes)
}

/// No calls leave the visitor as it is.
pub proof fn lemma_run_empty<V: Visit>(a: V)
    ensures
        visit_run(a, a, Seq::empty()),
{
    assert(run_states(seq![a], a, a, Seq::empty()));
}

/// One more call extends a run.
pub proof fn lemma_run_step<V: Visit>(a: V, m: V, b: V, ns: Seq<Visited>, n: Visited)
    requires
        visit_run(a, m, ns),
        m.visits(b, n),
    ensures
        visit_run(a, b, ns.push(n)),
{
    let st = choose|st: Seq<V>| #[trigger] run_states(st, a, m, ns);
    let st2 = st.push(b);
    assert forall|i: int| 0 <= i < ns.push(n).len() implies #[trigger] st2[i].visits(st2[i + 1], ns.push(n)[i]) by {
        if i < ns.len() {
            assert(st[i].visits(st[i + 1], ns[i]));
        }
    }
    assert(run_states(st2, a, b, ns.push(n)));
}

/// Two runs one after the other make one run.
pub proof fn lemma_run_concat<V: Visit>(a: V, m: V, b: V, x: Seq<Visited>, y: Seq<Visited>)
    requires
        visit_run(a, m, x),
        visit_run(m, b, y),
    ensures
        visit_run(a, b, x + y),
{
    let s1 = choose|st: Seq<V>| #[trigger] run_states(st, a, m, x);
    let s2 = choose|st: Seq<V>| #[trigger] run_states(st, m, b, y);
    let st = s1 + s2.drop_first();
    assert forall|i: int| 0 <= i < (x + y).len() implies #[trigger] st[i].visits(st[i + 1], (x + y)[i]) by {
        if i < x.len() {
            assert(s1[i].visits(s1[i + 1], x[i]));
        } else {
            let k = i - x.len();
            assert(s2[k].visits(s2[k + 1], y[k]));
        }
    }
    assert(run_states(st, a, b, x + y));
}

/// The comments, as visited.
pub open spec fn comment_nodes(cs: Seq<Spanned<Comment>>) -> Seq<Visited> {
    cs.map_values(|c: Spanned<Comment>| Visited::Comment(c))
}

/// The expressions, as visited.
pub open spec fn expr_nodes(es: Seq<Spanned<Expr>>) -> Seq<Visited> {
    es.map_values(|e: Spanned<Expr>| Visited::Expr(e))
}

/// The patterns, as visited.
pub open spec fn pattern_nodes(ps: Seq<Spanned<Pattern>>) -> Seq<Visited> {
    ps.map_values(|p: Spanned<Pattern>| Visited::Pattern(p))
}

/// The type annotations, as visited.
pub open spec fn type_nodes(ts: Seq<Spanned<TypeAnnotation>>) -> Seq<Visited> {
    ts.map_values(|t: Spanned<TypeAnnotation>| Visited::TypeAnnotation(t))
}

/// The record fields of a type, as visited.
pub open spec fn field_nodes(fs: Seq<Spanned<RecordField>>) -> Seq<Visited> {
    fs.map_values(|f: Spanned<RecordField>| Visited::RecordField(f))
}

/// The record setters, as visited.
pub open spec fn setter_nodes(ss: Seq<Spanned<RecordSetter>>) -> Seq<Visited> {
    ss.map_values(|s: Spanned<RecordSetter>| Visited::RecordSetter(s))
}

/// The imports, as visited.
pub open spec fn import_list_nodes(xs: Seq<Spanned<Import>>) -> Seq<Visited> {
    xs.map_values(|x: Spanned<Import>| Visited::Import(x))
}

/// The declarations, as visited.
pub open spec fn declaration_list_nodes(xs: Seq<Spanned<Declaration>>) -> Seq<Visited> {
    xs.map_values(|x: Spanned<Declaration>| Visited::Declaration(x))
}

/// The exposed items, as visited.
pub open spec fn exposed_item_nodes(xs: Seq<Spanned<ExposedItem>>) -> Seq<Visited> {
    xs.map_values(|x: Spanned<ExposedItem>| Visited::ExposedItem(x))
}

/// The constructors, as visited.
pub open spec fn constructor_nodes(xs: Seq<Spanned<ValueConstructor>>) -> Seq<Visited> {
    xs.map_values(|x: Spanned<ValueConstructor>| Visited::ValueConstructor(x))
}

/// The operands before each operator of an unresolved chain, as visited.
pub open spec fn operand_nodes(xs: Seq<(Spanned<Expr>, Spanned<String>)>) -> Seq<Visited> {
    xs.map_values(|x: (Spanned<Expr>, Spanned<String>)| Visited::Expr(x.0))
}

/// The declarations of a `let`, as visited.
pub open spec fn let_declaration_list_nodes(xs: Seq<Spanned<LetDeclaration>>) -> Seq<Visited> {
    xs.map_values(|x: Spanned<LetDeclaration>| Visited::LetDeclaration(x))
}

/// The branches of a `case`, as visited.
pub open spec fn case_branch_nodes(xs: Seq<CaseBranch>) -> Seq<Visited> {
    xs.map_values(|x: CaseBranch| Visited::CaseBranch(x))
}

/// The names, as handed to `visit_ident`.
pub open spec fn name_nodes(xs: Seq<Spanned<String>>) -> Seq<Visited> {
    xs.map_values(|x: Spanned<String>| Visited::Ident(x.value@))
}

/// The condition and value of each `if` arm, in order.
pub open spec fn arm_nodes(bs: Seq<(Spanned<Expr>, Spanned<Expr>)>) -> Seq<Visited>
    decreases bs.len(),
{
    if bs.len() == 0 {
        Seq::empty()
    } else {
        arm_nodes(bs.drop_last()) + seq![Visited::Expr(bs.last().0), Visited::Expr(bs.last().1)]
    }
}

/// What `walk_module` visits: the header, the imports, the declarations and
/// the comments.
pub open spec fn module_nodes(m: ElmModule) -> Seq<Visited> {
    seq![Visited::ModuleHeader(m.header)] + import_list_nodes(m.imports@) + declaration_list_nodes(m.declarations@)
        + comment_nodes(m.comments@)
}

/// What `walk_module_header` visits: the exposing list.
pub open spec fn module_header_nodes(h: Spanned<ModuleHeader>) -> Seq<Visited> {
    match h.value {
        ModuleHeader::Normal { exposing, .. } => seq![Visited::Exposing(exposing)],
        ModuleHeader::Port { exposing, .. } => seq![Visited::Exposing(exposing)],
        ModuleHeader::Effect { exposing, .. } => seq![Visited::Exposing(exposing)],
    }
}

/// What `walk_import` visits: the exposing list, if any.
pub open spec fn import_nodes(i: Spanned<Import>) -> Seq<Visited> {
    match i.value.exposing {
        Some(e) => seq![Visited::Exposing(e)],
        None => Seq::empty(),
    }
}

/// What `walk_exposing` visits: the items of an explicit list.
pub open spec fn exposing_nodes(e: Spanned<Exposing>) -> Seq<Visited> {
    match e.value {
        Exposing::Explicit(items) => exposed_item_nodes(items@),
        _ => Seq::empty(),
    }
}

/// What `walk_declaration` visits for each kind of declaration.
pub open spec fn declaration_nodes(d: Spanned<Declaration>) -> Seq<Visited> {
    match d.value {
        Declaration::FunctionDeclaration(f) => seq![Visited::Function(f)],
        Declaration::AliasDeclaration(a) => seq![Visited::TypeAlias(a)],
        Declaration::CustomTypeDeclaration(ct) => seq![Visited::CustomType(ct)],
        Declaration::PortDeclaration(sig) => seq![
            Visited::Ident(sig.name.value@),
            Visited::TypeAnnotation(sig.type_annotation),
        ],
        Declaration::InfixDeclaration(infix) => seq![Visited::InfixDef(infix)],
        Declaration::Destructuring { pattern, body } => seq![Visited::Pattern(pattern), Visited::Expr(body)],
    }
}

/// What `walk_function` visits: the signature, if any, then the
/// implementation.
pub open spec fn function_nodes(f: Function) -> Seq<Visited> {
    match f.signature {
        Some(sig) => seq![Visited::Signature(sig), Visited::FunctionImplementation(f.declaration)],
        None => seq![Visited::FunctionImplementation(f.declaration)],
    }
}

/// What `walk_signature` visits: the name, then the type.
pub open spec fn signature_nodes(sig: Spanned<Signature>) -> Seq<Visited> {
    seq![Visited::Ident(sig.value.name.value@), Visited::TypeAnnotation(sig.value.type_annotation)]
}

/// What `walk_function_implementation` visits: the name, the argument
/// patterns, then the body.
pub open spec fn function_implementation_nodes(imp: Spanned<FunctionImplementation>) -> Seq<Visited> {
    seq![Visited::Ident(imp.value.name.value@)] + pattern_nodes(imp.value.args@) + seq![
        Visited::Expr(imp.value.body),
    ]
}

/// What `walk_custom_type` visits: the constructors.
pub open spec fn custom_type_nodes(ct: CustomType) -> Seq<Visited> {
    constructor_nodes(ct.constructors@)
}

/// What `walk_expr` visits: the expression's comments, then its children
/// in source order.
pub open spec fn expr_nodes_of(e: Spanned<Expr>) -> Seq<Visited> {
    comment_nodes(e.comments@) + match e.value {
        Expr::Literal(lit) => seq![Visited::Literal(lit)],
        Expr::FunctionOrValue { name, .. } => seq![Visited::Ident(name@)],
        Expr::PrefixOperator(op) => seq![Visited::Ident(op@)],
        Expr::OperatorApplication { left, right, .. } => seq![Visited::Expr(*left), Visited::Expr(*right)],
        Expr::BinOps { operands_and_operators, final_operand } => operand_nodes(operands_and_operators@) + seq![
            Visited::Expr(*final_operand),
        ],
        Expr::Application(args) => expr_nodes(args@),
        Expr::IfElse { branches, else_branch } => arm_nodes(branches@) + seq![Visited::Expr(*else_branch)],
        Expr::Negation(inner) => seq![Visited::Expr(*inner)],
        Expr::Tuple(elems) => expr_nodes(elems@),
        Expr::List(elems) => expr_nodes(elems@),
        Expr::Parenthesized(inner) => seq![Visited::Expr(*inner)],
        Expr::LetIn { declarations, body, .. } => let_declaration_list_nodes(declarations@) + seq![
            Visited::Expr(*body),
        ],
        Expr::CaseOf { expr: subject, branches } => seq![Visited::Expr(*subject)] + case_branch_nodes(branches@),
        Expr::Lambda { args, body } => pattern_nodes(args@) + seq![Visited::Expr(*body)],
        Expr::Record(fields) => setter_nodes(fields@),
        Expr::RecordUpdate { updates, .. } => setter_nodes(updates@),
        Expr::RecordAccess { record, .. } => seq![Visited::Expr(*record)],
        _ => Seq::empty(),
    }
}

/// What `walk_pattern` visits: the pattern's comments, then its children
/// and names in source order.
pub open spec fn pattern_nodes_of(p: Spanned<Pattern>) -> Seq<Visited> {
    comment_nodes(p.comments@) + match p.value {
        Pattern::Var(name) => seq![Visited::Ident(name@)],
        Pattern::Literal(lit) => seq![Visited::Literal(lit)],
        Pattern::Tuple(elems) => pattern_nodes(elems@),
        Pattern::List(elems) => pattern_nodes(elems@),
        Pattern::Constructor { args, .. } => pattern_nodes(args@),
        Pattern::Record(fields) => name_nodes(fields@),
        Pattern::Cons { head, tail } => seq![Visited::Pattern(*head), Visited::Pattern(*tail)],
        Pattern::As { pattern: inner, name } => seq![Visited::Pattern(*inner), Visited::Ident(name.value@)],
        Pattern::Parenthesized(inner) => seq![Visited::Pattern(*inner)],
        _ => Seq::empty(),
    }
}

/// What `walk_type_annotation` visits: the children in source order.
pub open spec fn type_nodes_of(t: Spanned<TypeAnnotation>) -> Seq<Visited> {
    match t.value {
        TypeAnnotation::Typed { args, .. } => type_nodes(args@),
        TypeAnnotation::Tupled(elems) => type_nodes(elems@),
        TypeAnnotation::Record(fields) => field_nodes(fields@),
        TypeAnnotation::GenericRecord { fields, .. } => field_nodes(fields@),
        TypeAnnotation::FunctionType { from, to } => seq![
            Visited::TypeAnnotation(*from),
            Visited::TypeAnnotation(*to),
        ],
        _ => Seq::empty(),
    }
}

/// What `walk_let_declaration` visits: the comments, then the parts.
pub open spec fn let_declaration_nodes(d: Spanned<LetDeclaration>) -> Seq<Visited> {
    comment_nodes(d.comments@) + match d.value {
        LetDeclaration::Function(f) => seq![Visited::Function(f)],
        LetDeclaration::Destructuring { pattern, body } => seq![Visited::Pattern(pattern), Visited::Expr(body)],
    }
}

/// Visit each of `xs` in order.
fn visit_comments<V: Visit>(v: &mut V, xs: &Vec<Spanned<Comment>>)
    ensures
        visit_run(*old(v), *final(v), comment_nodes(xs@)),
{
    let ghost mut ns: Seq<Visited> = Seq::empty();
    proof {
        lemma_run_empty(*v);
    }
    let ghost base = ns;
    let mut i: usize = 0;
    while i < xs.len()
        invariant
            i <= xs@.len(),
            visit_run(*old(v), *v, base + comment_nodes(xs@.take(i as int))),
        decreases xs@.len() - i,
    {
        let ghost pre = *v;
        v.visit_comment(&xs[i]);
        proof {
            lemma_run_step(*old(v), pre, *v, base + comment_nodes(xs@.take(i as int)), Visited::Comment(xs@[i as int]));
            assert((base + comment_nodes(xs@.take(i as int))).push(Visited::Comment(xs@[i as int])) =~= base + comment_nodes(xs@.take(i + 1)));
        }
        i = i + 1;
    }
    proof {
        assert(xs@.take(i as int) =~= xs@);
        ns = base + comment_nodes(xs@);
    }
    proof {
        assert(ns =~= comment_nodes(xs@));
    }
}

/// Visit each of `xs` in order.
fn visit_exprs<V: Visit>(v: &mut V, xs: &Vec<Spanned<Expr>>)
    ensures
        visit_run(*old(v), *final(v), expr_nodes(xs@)),
{
    let ghost mut ns: Seq<Visited> = Seq::empty();
    proof {
        lemma_run_empty(*v);
    }
    let ghost base = ns;
    let mut i: usize = 0;
    while i < xs.len()
        invariant
            i <= xs@.len(),
            visit_run(*old(v), *v, base + expr_nodes(xs@.take(i as int))),
        decreases xs@.len() - i,
    {
        let ghost pre = *v;
        v.visit_expr(&xs[i]);
        proof {
            lemma_run_step(*old(v), pre, *v, base + expr_nodes(xs@.take(i as int)), Visited::Expr(xs@[i as int]));
            assert((base + expr_nodes(xs@.take(i as int))).push(Visited::Expr(xs@[i as int])) =~= base + expr_nodes(xs@.take(i + 1)));
        }
        i = i + 1;
    }
    proof {
        assert(xs@.take(i as int) =~= xs@);
        ns = base + expr_nodes(xs@);
    }
    proof {
        assert(ns =~= expr_nodes(xs@));
    }
}

/// Visit each of `xs` in order.
fn visit_patterns<V: Visit>(v: &mut V, xs: &Vec<Spanned<Pattern>>)
    ensures
        visit_run(*old(v), *final(v), pattern_nodes(xs@)),
{
    let ghost mut ns: Seq<Visited> = Seq::empty();
    proof {
        lemma_run_empty(*v);
    }
    let ghost base = ns;
    let mut i: usize = 0;
    while i < xs.len()
        invariant
            i <= xs@.len(),
            visit_run(*old(v), *v, base + pattern_nodes(xs@.take(i as int))),
        decreases xs@.len() - i,
    {
        let ghost pre = *v;
        v.visit_pattern(&xs[i]);
        proof {
            lemma_run_step(*old(v), pre, *v, base + pattern_nodes(xs@.take(i as int)), Visited::Pattern(xs@[i as int]));
            assert((base + pattern_nodes(xs@.take(i as int))).push(Visited::Pattern(xs@[i as int])) =~= base + pattern_nodes(xs@.take(i + 1)));
        }
        i = i + 1;
    }
    proof {
        assert(xs@.take(i as int) =~= xs@);
        ns = base + pattern_nodes(xs@);
    }
    proof {
        assert(ns =~= pattern_nodes(xs@));
    }
}

/// Visit each of `xs` in order.
fn visit_types<V: Visit>(v: &mut V, xs: &Vec<Spanned<TypeAnnotation>>)
    ensures
        visit_run(*old(v), *final(v), type_nodes(xs@)),
{
    let ghost mut ns: Seq<Visited> = Seq::empty();
    proof {
        lemma_run_empty(*v);
    }
    let ghost base = ns;
    let mut i: usize = 0;
    while i < xs.len()
        invariant
            i <= xs@.len(),
            visit_run(*old(v), *v, base + type_nodes(xs@.take(i as int))),
        decreases xs@.len() - i,
    {
        let ghost pre = *v;
        v.visit_type_annotation(&xs[i]);
        proof {
            lemma_run_step(*old(v), pre, *v, base + type_nodes(xs@.take(i as int)), Visited::TypeAnnotation(xs@[i as int]));
            assert((base + type_nodes(xs@.take(i as int))).push(Visited::TypeAnnotation(xs@[i as int])) =~= base + type_nodes(xs@.take(i + 1)));
        }
        i = i + 1;
    }
    proof {
        assert(xs@.take(i as int) =~= xs@);
        ns = base + type_nodes(xs@);
    }
    proof {
        assert(ns =~= type_nodes(xs@));
    }
}

/// Visit each of `xs` in order.
fn visit_record_fields<V: Visit>(v: &mut V, xs: &Vec<Spanned<RecordField>>)
    ensures
        visit_run(*old(v), *final(v), field_nodes(xs@)),
{
    let ghost mut ns: Seq<Visited> = Seq::empty();
    proof {
        lemma_run_empty(*v);
    }
    let ghost base = ns;
    let mut i: usize = 0;
    while i < xs.len()
        invariant
            i <= xs@.len(),
            visit_run(*old(v), *v, base + field_nodes(xs@.take(i as int))),
        decreases xs@.len() - i,
    {
        let ghost pre = *v;
        v.visit_record_field(&xs[i]);
        proof {
            lemma_run_step(*old(v), pre, *v, base + field_nodes(xs@.take(i as int)), Visited::RecordField(xs@[i as int]));
            assert((base + field_nodes(xs@.take(i as int))).push(Visited::RecordField(xs@[i as int])) =~= base + field_nodes(xs@.take(i + 1)));
        }
        i = i + 1;
    }
    proof {
        assert(xs@.take(i as int) =~= xs@);
        ns = base + field_nodes(xs@);
    }
    proof {
        assert(ns =~= field_nodes(xs@));
    }
}

/// Visit each of `xs` in order.
fn visit_record_setters<V: Visit>(v: &mut V, xs: &Vec<Spanned<RecordSetter>>)
    ensures
        visit_run(*old(v), *final(v), setter_nodes(xs@)),
{
    let ghost mut ns: Seq<Visited> = Seq::empty();
    proof {
        lemma_run_empty(*v);
    }
    let ghost base = ns;
    let mut i: usize = 0;
    while i < xs.len()
        invariant
            i <= xs@.len(),
            visit_run(*old(v), *v, base + setter_nodes(xs@.take(i as int))),
        decreases xs@.len() - i,
    {
        let ghost pre = *v;
        v.visit_record_setter(&xs[i]);
        proof {
            lemma_run_step(*old(v), pre, *v, base + setter_nodes(xs@.take(i as int)), Visited::RecordSetter(xs@[i as int]));
            assert((base + setter_nodes(xs@.take(i as int))).push(Visited::RecordSetter(xs@[i as int])) =~= base + setter_nodes(xs@.take(i + 1)));
        }
        i = i + 1;
    }
    proof {
        assert(xs@.take(i as int) =~= xs@);
        ns = base + setter_nodes(xs@);
    }
    proof {
        assert(ns =~= setter_nodes(xs@));
    }
}

/// Visit the header, then each import, each declaration and each top-level
/// comment, in order.
pub fn walk_module<V: Visit>(v: &mut V, module: &ElmModule)
    ensures
        visit_run(*old(v), *final(v), module_nodes(*module)),
{
    let ghost mut ns: Seq<Visited> = Seq::empty();
    proof {
        lemma_run_empty(*v);
    }
    let ghost pre = *v;
    v.visit_module_header(&module.header);
    proof {
        lemma_run_step(*old(v), pre, *v, ns, Visited::ModuleHeader(module.header));
        ns = ns.push(Visited::ModuleHeader(module.header));
    }
    let ghost base = ns;
    let mut i: usize = 0;
    while i < module.imports.len()
        invariant
            i <= module.imports@.len(),
            visit_run(*old(v), *v, base + import_list_nodes(module.imports@.take(i as int))),
        decreases module.imports@.len() - i,
    {
        let ghost pre = *v;
        v.visit_import(&module.imports[i]);
        proof {
            lemma_run_step(*old(v), pre, *v, base + import_list_nodes(module.imports@.take(i as int)), Visited::Import(module.imports@[i as int]));
            assert((base + import_list_nodes(module.imports@.take(i as int))).push(Visited::Import(module.imports@[i as int])) =~= base + import_list_nodes(module.imports@.take(i + 1)));
        }
        i = i + 1;
    }
    proof {
        assert(module.imports@.take(i as int) =~= module.imports@);
        ns = base + import_list_nodes(module.imports@);
    }
    let ghost base = ns;
    let mut i: usize = 0;
    while i < module.declarations.len()
        invariant
            i <= module.declarations@.len(),
            visit_run(*old(v), *v, base + declaration_list_nodes(module.declarations@.take(i as int))),
        decreases module.declarations@.len() - i,
    {
        let ghost pre = *v;
        v.visit_declaration(&module.declarations[i]);
        proof {
            lemma_run_step(*old(v), pre, *v, base + declaration_list_nodes(module.declarations@.take(i as int)), Visited::Declaration(module.declarations@[i as int]));
            assert((base + declaration_list_nodes(module.declarations@.take(i as int))).push(Visited::Declaration(module.declarations@[i as int])) =~= base + declaration_list_nodes(module.declarations@.take(i + 1)));
        }
        i = i + 1;
    }
    proof {
        assert(module.declarations@.take(i as int) =~= module.declarations@);
        ns = base + declaration_list_nodes(module.declarations@);
    }
    let ghost pre = *v;
    visit_comments(v, &module.comments);
    proof {
        lemma_run_concat(*old(v), pre, *v, ns, comment_nodes(module.comments@));
        ns = ns + comment_nodes(module.comments@);
    }
    proof {
        assert(ns =~= module_nodes(*module));
    }
}

/// Visit the header's exposing list.
pub fn walk_module_header<V: Visit>(v: &mut V, header: &Spanned<ModuleHeader>)
    ensures
        visit_run(*old(v), *final(v), module_header_nodes(*header)),
{
    let ghost mut ns: Seq<Visited> = Seq::empty();
    proof {
        lemma_run_empty(*v);
    }
    match &header.value {
        ModuleHeader::Normal { exposing, .. } => {
            let ghost pre = *v;
            v.visit_exposing(exposing);
            proof {
                lemma_run_step(*old(v), pre, *v, ns, Visited::Exposing(*exposing));
                ns = ns.push(Visited::Exposing(*exposing));
            }
        },
        ModuleHeader::Port { exposing, .. } => {
            let ghost pre = *v;
            v.visit_exposing(exposing);
            proof {
                lemma_run_step(*old(v), pre, *v, ns, Visited::Exposing(*exposing));
                ns = ns.push(Visited::Exposing(*exposing));
            }
        },
        ModuleHeader::Effect { exposing, .. } => {
            let ghost pre = *v;
            v.visit_exposing(exposing);
            proof {
                lemma_run_step(*old(v), pre, *v, ns, Visited::Exposing(*exposing));
                ns = ns.push(Visited::Exposing(*exposing));
            }
        },
    }
    proof {
        assert(ns =~= module_header_nodes(*header));
    }
}

/// Visit the import's exposing list, if it has one.
pub fn walk_import<V: Visit>(v: &mut V, import: &Spanned<Import>)
    ensures
        visit_run(*old(v), *final(v), import_nodes(*import)),
{
    let ghost mut ns: Seq<Visited> = Seq::empty();
    proof {
        lemma_run_empty(*v);
    }
    if let Some(exposing) = &import.value.exposing {
        let ghost pre = *v;
        v.visit_exposing(exposing);
        proof {
            lemma_run_step(*old(v), pre, *v, ns, Visited::Exposing(*exposing));
            ns = ns.push(Visited::Exposing(*exposing));
        }
    }
    proof {
        assert(ns =~= import_nodes(*import));
    }
}

/// Visit each item of an explicit exposing list.
pub fn walk_exposing<V: Visit>(v: &mut V, exposing: &Spanned<Exposing>)
    ensures
        visit_run(*old(v), *final(v), exposing_nodes(*exposing)),
{
    let ghost mut ns: Seq<Visited> = Seq::empty();
    proof {
        lemma_run_empty(*v);
    }
    if let Exposing::Explicit(items) = &exposing.value {
        let ghost base = ns;
        let mut i: usize = 0;
        while i < items.len()
            invariant
                i <= items@.len(),
                visit_run(*old(v), *v, base + exposed_item_nodes(items@.take(i as int))),
            decreases items@.len() - i,
        {
            let ghost pre = *v;
            v.visit_exposed_item(&items[i]);
            proof {
                lemma_run_step(*old(v), pre, *v, base + exposed_item_nodes(items@.take(i as int)), Visited::ExposedItem(items@[i as int]));
                assert((base + exposed_item_nodes(items@.take(i as int))).push(Visited::ExposedItem(items@[i as int])) =~= base + exposed_item_nodes(items@.take(i + 1)));
            }
            i = i + 1;
        }
        proof {
            assert(items@.take(i as int) =~= items@);
            ns = base + exposed_item_nodes(items@);
        }
    }
    proof {
        assert(ns =~= exposing_nodes(*exposing));
    }
}

/// Dispatch a declaration to the visitor method for its kind.
pub fn walk_declaration<V: Visit>(v: &mut V, decl: &Spanned<Declaration>)
    ensures
        visit_run(*old(v), *final(v), declaration_nodes(*decl)),
{
    let ghost mut ns: Seq<Visited> = Seq::empty();
    proof {
        lemma_run_empty(*v);
    }
    match &decl.value {
        Declaration::FunctionDeclaration(func) => {
            let ghost pre = *v;
            v.visit_function(func);
            proof {
                lemma_run_step(*old(v), pre, *v, ns, Visited::Function(*func));
                ns = ns.push(Visited::Function(*func));
            }
        },
        Declaration::AliasDeclaration(alias) => {
            let ghost pre = *v;
            v.visit_type_alias(alias);
            proof {
                lemma_run_step(*old(v), pre, *v, ns, Visited::TypeAlias(*alias));
                ns = ns.push(Visited::TypeAlias(*alias));
            }
        },
        Declaration::CustomTypeDeclaration(ct) => {
            let ghost pre = *v;
            v.visit_custom_type(ct);
            proof {
                lemma_run_step(*old(v), pre, *v, ns, Visited::CustomType(*ct));
                ns = ns.push(Visited::CustomType(*ct));
            }
        },
        Declaration::PortDeclaration(sig) => {
            let ghost pre = *v;
            v.visit_ident(sig.name.value.as_str());
            proof {
                lemma_run_step(*old(v), pre, *v, ns, Visited::Ident(sig.name.value@));
                ns = ns.push(Visited::Ident(sig.name.value@));
            }
            let ghost pre = *v;
            v.visit_type_annotation(&sig.type_annotation);
            proof {
                lemma_run_step(*old(v), pre, *v, ns, Visited::TypeAnnotation(sig.type_annotation));
                ns = ns.push(Visited::TypeAnnotation(sig.type_annotation));
            }
        },
        Declaration::InfixDeclaration(infix) => {
            let ghost pre = *v;
            v.visit_infix_def(infix);
            proof {
                lemma_run_step(*old(v), pre, *v, ns, Visited::InfixDef(*infix));
                ns = ns.push(Visited::InfixDef(*infix));
            }
        },
        Declaration::Destructuring { pattern, body } => {
            let ghost pre = *v;
            v.visit_pattern(pattern);
            proof {
                lemma_run_step(*old(v), pre, *v, ns, Visited::Pattern(*pattern));
                ns = ns.push(Visited::Pattern(*pattern));
            }
            let ghost pre = *v;
            v.visit_expr(body);
            proof {
                lemma_run_step(*old(v), pre, *v, ns, Visited::Expr(*body));
                ns = ns.push(Visited::Expr(*body));
            }
        },
    }
    proof {
        assert(ns =~= declaration_nodes(*decl));
    }
}

/// Visit the signature (if any), then the implementation.
pub fn walk_function<V: Visit>(v: &mut V, func: &Function)
    ensures
        visit_run(*old(v), *final(v), function_nodes(*func)),
{
    let ghost mut ns: Seq<Visited> = Seq::empty();
    proof {
        lemma_run_empty(*v);
    }
    if let Some(sig) = &func.signature {
        let ghost pre = *v;
        v.visit_signature(sig);
        proof {
            lemma_run_step(*old(v), pre, *v, ns, Visited::Signature(*sig));
            ns = ns.push(Visited::Signature(*sig));
        }
    }
    let ghost pre = *v;
    v.visit_function_implementation(&func.declaration);
    proof {
        lemma_run_step(*old(v), pre, *v, ns, Visited::FunctionImplementation(func.declaration));
        ns = ns.push(Visited::FunctionImplementation(func.declaration));
    }
    proof {
        assert(ns =~= function_nodes(*func));
    }
}

/// Visit the signature's name, then its type.
pub fn walk_signature<V: Visit>(v: &mut V, sig: &Spanned<Signature>)
    ensures
        visit_run(*old(v), *final(v), signature_nodes(*sig)),
{
    let ghost mut ns: Seq<Visited> = Seq::empty();
    proof {
        lemma_run_empty(*v);
    }
    let ghost pre = *v;
    v.visit_ident(sig.value.name.value.as_str());
    proof {
        lemma_run_step(*old(v), pre, *v, ns, Visited::Ident(sig.value.name.value@));
        ns = ns.push(Visited::Ident(sig.value.name.value@));
    }
    let ghost pre = *v;
    v.visit_type_annotation(&sig.value.type_annotation);
    proof {
        lemma_run_step(*old(v), pre, *v, ns, Visited::TypeAnnotation(sig.value.type_annotation));
        ns = ns.push(Visited::TypeAnnotation(sig.value.type_annotation));
    }
    proof {
        assert(ns =~= signature_nodes(*sig));
    }
}

/// Visit the name, each argument pattern, then the body.
pub fn walk_function_implementation<V: Visit>(v: &mut V, imp: &Spanned<FunctionImplementation>)
    ensures
        visit_run(*old(v), *final(v), function_implementation_nodes(*imp)),
{
    let ghost mut ns: Seq<Visited> = Seq::empty();
    proof {
        lemma_run_empty(*v);
    }
    let ghost pre = *v;
    v.visit_ident(imp.value.name.value.as_str());
    proof {
        lemma_run_step(*old(v), pre, *v, ns, Visited::Ident(imp.value.name.value@));
        ns = ns.push(Visited::Ident(imp.value.name.value@));
    }
    let ghost pre = *v;
    visit_patterns(v, &imp.value.args);
    proof {
        lemma_run_concat(*old(v), pre, *v, ns, pattern_nodes(imp.value.args@));
        ns = ns + pattern_nodes(imp.value.args@);
    }
    let ghost pre = *v;
    v.visit_expr(&imp.value.body);
    proof {
        lemma_run_step(*old(v), pre, *v, ns, Visited::Expr(imp.value.body));
        ns = ns.push(Visited::Expr(imp.value.body));
    }
    proof {
        assert(ns =~= function_implementation_nodes(*imp));
    }
}

/// Visit the aliased type.
pub fn walk_type_alias<V: Visit>(v: &mut V, alias: &TypeAlias)
    ensures
        visit_run(*old(v), *final(v), seq![Visited::TypeAnnotation(alias.type_annotation)]),
{
    let ghost mut ns: Seq<Visited> = Seq::empty();
    proof {
        lemma_run_empty(*v);
    }
    let ghost pre = *v;
    v.visit_type_annotation(&alias.type_annotation);
    proof {
        lemma_run_step(*old(v), pre, *v, ns, Visited::TypeAnnotation(alias.type_annotation));
        ns = ns.push(Visited::TypeAnnotation(alias.type_annotation));
    }
    proof {
        assert(ns =~= seq![Visited::TypeAnnotation(alias.type_annotation)]);
    }
}

/// Visit each constructor.
pub fn walk_custom_type<V: Visit>(v: &mut V, ct: &CustomType)
    ensures
        visit_run(*old(v), *final(v), constructor_nodes(ct.constructors@)),
{
    let ghost mut ns: Seq<Visited> = Seq::empty();
    proof {
        lemma_run_empty(*v);
    }
    let ghost base = ns;
    let mut i: usize = 0;
    while i < ct.constructors.len()
        invariant
            i <= ct.constructors@.len(),
            visit_run(*old(v), *v, base + constructor_nodes(ct.constructors@.take(i as int))),
        decreases ct.constructors@.len() - i,
    {
        let ghost pre = *v;
        v.visit_value_constructor(&ct.constructors[i]);
        proof {
            lemma_run_step(*old(v), pre, *v, base + constructor_nodes(ct.constructors@.take(i as int)), Visited::ValueConstructor(ct.constructors@[i as int]));
            assert((base + constructor_nodes(ct.constructors@.take(i as int))).push(Visited::ValueConstructor(ct.constructors@[i as int])) =~= base + constructor_nodes(ct.constructors@.take(i + 1)));
        }
        i = i + 1;
    }
    proof {
        assert(ct.constructors@.take(i as int) =~= ct.constructors@);
        ns = base + constructor_nodes(ct.constructors@);
    }
    proof {
        assert(ns =~= constructor_nodes(ct.constructors@));
    }
}

/// Visit each argument type of a constructor.
pub fn walk_value_constructor<V: Visit>(v: &mut V, ctor: &Spanned<ValueConstructor>)
    ensures
        visit_run(*old(v), *final(v), type_nodes(ctor.value.args@)),
{
    let ghost mut ns: Seq<Visited> = Seq::empty();
    proof {
        lemma_run_empty(*v);
    }
    let ghost pre = *v;
    visit_types(v, &ctor.value.args);
    proof {
        lemma_run_concat(*old(v), pre, *v, ns, type_nodes(ctor.value.args@));
        ns = ns + type_nodes(ctor.value.args@);
    }
    proof {
        assert(ns =~= type_nodes(ctor.value.args@));
    }
}

/// Visit the comments attached to the expression, then its children in
/// source order.
pub fn walk_expr<V: Visit>(v: &mut V, expr: &Spanned<Expr>)
    ensures
        visit_run(*old(v), *final(v), expr_nodes_of(*expr)),
{
    let ghost mut ns: Seq<Visited> = Seq::empty();
    proof {
        lemma_run_empty(*v);
    }
    let ghost pre = *v;
    visit_comments(v, &expr.comments);
    proof {
        lemma_run_concat(*old(v), pre, *v, ns, comment_nodes(expr.comments@));
        ns = ns + comment_nodes(expr.comments@);
    }
    match &expr.value {
        Expr::Unit | Expr::GLSLExpression(_) | Expr::RecordAccessFunction(_) => {},
        Expr::Literal(lit) => {
            let ghost pre = *v;
            v.visit_literal(lit);
            proof {
                lemma_run_step(*old(v), pre, *v, ns, Visited::Literal(*lit));
                ns = ns.push(Visited::Literal(*lit));
            }
        },
        Expr::FunctionOrValue { name, .. } => {
            let ghost pre = *v;
            v.visit_ident(name.as_str());
            proof {
                lemma_run_step(*old(v), pre, *v, ns, Visited::Ident(name@));
                ns = ns.push(Visited::Ident(name@));
            }
        },
        Expr::PrefixOperator(op) => {
            let ghost pre = *v;
            v.visit_ident(op.as_str());
            proof {
                lemma_run_step(*old(v), pre, *v, ns, Visited::Ident(op@));
                ns = ns.push(Visited::Ident(op@));
            }
        },
        Expr::OperatorApplication { left, right, .. } => {
            let ghost pre = *v;
            v.visit_expr(left);
            proof {
                lemma_run_step(*old(v), pre, *v, ns, Visited::Expr(**left));
                ns = ns.push(Visited::Expr(**left));
            }
            let ghost pre = *v;
            v.visit_expr(right);
            proof {
                lemma_run_step(*old(v), pre, *v, ns, Visited::Expr(**right));
                ns = ns.push(Visited::Expr(**right));
            }
        },
        Expr::BinOps { operands_and_operators, final_operand } => {
            let ghost base = ns;
            let mut i: usize = 0;
            while i < operands_and_operators.len()
                invariant
                    i <= operands_and_operators@.len(),
                    visit_run(*old(v), *v, base + operand_nodes(operands_and_operators@.take(i as int))),
                decreases operands_and_operators@.len() - i,
            {
                let ghost pre = *v;
                v.visit_expr(&operands_and_operators[i].0);
                proof {
                    lemma_run_step(*old(v), pre, *v, base + operand_nodes(operands_and_operators@.take(i as int)), Visited::Expr(operands_and_operators@[i as int].0));
                    assert((base + operand_nodes(operands_and_operators@.take(i as int))).push(Visited::Expr(operands_and_operators@[i as int].0)) =~= base + operand_nodes(operands_and_operators@.take(i + 1)));
                }
                i = i + 1;
            }
            proof {
                assert(operands_and_operators@.take(i as int) =~= operands_and_operators@);
                ns = base + operand_nodes(operands_and_operators@);
            }
            let ghost pre = *v;
            v.visit_expr(final_operand);
            proof {
                lemma_run_step(*old(v), pre, *v, ns, Visited::Expr(**final_operand));
                ns = ns.push(Visited::Expr(**final_operand));
            }
        },
        Expr::Application(args) => {
            let ghost pre = *v;
            visit_exprs(v, args);
            proof {
                lemma_run_concat(*old(v), pre, *v, ns, expr_nodes(args@));
                ns = ns + expr_nodes(args@);
            }
        },
        Expr::IfElse { branches, else_branch } => {
            let ghost base = ns;
            let mut i: usize = 0;
            while i < branches.len()
                invariant
                    i <= branches@.len(),
                    visit_run(*old(v), *v, base + arm_nodes(branches@.take(i as int))),
                decreases branches@.len() - i,
            {
                let ghost pre = *v;
                v.visit_expr(&branches[i].0);
                let ghost mid = *v;
                v.visit_expr(&branches[i].1);
                proof {
                    let before = base + arm_nodes(branches@.take(i as int));
                    lemma_run_step(*old(v), pre, mid, before, Visited::Expr(branches@[i as int].0));
                    lemma_run_step(*old(v), mid, *v, before.push(Visited::Expr(branches@[i as int].0)), Visited::Expr(branches@[i as int].1));
                    assert(branches@.take(i + 1).drop_last() =~= branches@.take(i as int));
                    assert(before.push(Visited::Expr(branches@[i as int].0)).push(Visited::Expr(branches@[i as int].1)) =~= base + arm_nodes(
                        branches@.take(i + 1),
                    ));
                }
                i = i + 1;
            }
            proof {
                assert(branches@.take(i as int) =~= branches@);
                ns = base + arm_nodes(branches@);
            }
            let ghost pre = *v;
            v.visit_expr(else_branch);
            proof {
                lemma_run_step(*old(v), pre, *v, ns, Visited::Expr(**else_branch));
                ns = ns.push(Visited::Expr(**else_branch));
            }
        },
        Expr::Negation(inner) => {
            let ghost pre = *v;
            v.visit_expr(inner);
            proof {
                lemma_run_step(*old(v), pre, *v, ns, Visited::Expr(**inner));
                ns = ns.push(Visited::Expr(**inner));
            }
        },
        Expr::Tuple(elems) => {
            let ghost pre = *v;
            visit_exprs(v, elems);
            proof {
                lemma_run_concat(*old(v), pre, *v, ns, expr_nodes(elems@));
                ns = ns + expr_nodes(elems@);
            }
        },
        Expr::List(elems) => {
            let ghost pre = *v;
            visit_exprs(v, elems);
            proof {
                lemma_run_concat(*old(v), pre, *v, ns, expr_nodes(elems@));
                ns = ns + expr_nodes(elems@);
            }
        },
        Expr::Parenthesized(inner) => {
            let ghost pre = *v;
            v.visit_expr(inner);
            proof {
                lemma_run_step(*old(v), pre, *v, ns, Visited::Expr(**inner));
                ns = ns.push(Visited::Expr(**inner));
            }
        },
        Expr::LetIn { declarations, body, .. } => {
            let ghost base = ns;
            let mut i: usize = 0;
            while i < declarations.len()
                invariant
                    i <= declarations@.len(),
                    visit_run(*old(v), *v, base + let_declaration_list_nodes(declarations@.take(i as int))),
                decreases declarations@.len() - i,
            {
                let ghost pre = *v;
                v.visit_let_declaration(&declarations[i]);
                proof {
                    lemma_run_step(*old(v), pre, *v, base + let_declaration_list_nodes(declarations@.take(i as int)), Visited::LetDeclaration(declarations@[i as int]));
                    assert((base + let_declaration_list_nodes(declarations@.take(i as int))).push(Visited::LetDeclaration(declarations@[i as int])) =~= base + let_declaration_list_nodes(declarations@.take(i + 1)));
                }
                i = i + 1;
            }
            proof {
                assert(declarations@.take(i as int) =~= declarations@);
                ns = base + let_declaration_list_nodes(declarations@);
            }
            let ghost pre = *v;
            v.visit_expr(body);
            proof {
                lemma_run_step(*old(v), pre, *v, ns, Visited::Expr(**body));
                ns = ns.push(Visited::Expr(**body));
            }
        },
        Expr::CaseOf { expr: subject, branches } => {
            let ghost pre = *v;
            v.visit_expr(subject);
            proof {
                lemma_run_step(*old(v), pre, *v, ns, Visited::Expr(**subject));
                ns = ns.push(Visited::Expr(**subject));
            }
            let ghost base = ns;
            let mut i: usize = 0;
            while i < branches.len()
                invariant
                    i <= branches@.len(),
                    visit_run(*old(v), *v, base + case_branch_nodes(branches@.take(i as int))),
                decreases branches@.len() - i,
            {
                let ghost pre = *v;
                v.visit_case_branch(&branches[i]);
                proof {
                    lemma_run_step(*old(v), pre, *v, base + case_branch_nodes(branches@.take(i as int)), Visited::CaseBranch(branches@[i as int]));
                    assert((base + case_branch_nodes(branches@.take(i as int))).push(Visited::CaseBranch(branches@[i as int])) =~= base + case_branch_nodes(branches@.take(i + 1)));
                }
                i = i + 1;
            }
            proof {
                assert(branches@.take(i as int) =~= branches@);
                ns = base + case_branch_nodes(branches@);
            }
        },
        Expr::Lambda { args, body } => {
            let ghost pre = *v;
            visit_patterns(v, args);
            proof {
                lemma_run_concat(*old(v), pre, *v, ns, pattern_nodes(args@));
                ns = ns + pattern_nodes(args@);
            }
            let ghost pre = *v;
            v.visit_expr(body);
            proof {
                lemma_run_step(*old(v), pre, *v, ns, Visited::Expr(**body));
                ns = ns.push(Visited::Expr(**body));
            }
        },
        Expr::Record(fields) => {
            let ghost pre = *v;
            visit_record_setters(v, fields);
            proof {
                lemma_run_concat(*old(v), pre, *v, ns, setter_nodes(fields@));
                ns = ns + setter_nodes(fields@);
            }
        },
        Expr::RecordUpdate { updates, .. } => {
            let ghost pre = *v;
            visit_record_setters(v, updates);
            proof {
                lemma_run_concat(*old(v), pre, *v, ns, setter_nodes(updates@));
                ns = ns + setter_nodes(updates@);
            }
        },
        Expr::RecordAccess { record, .. } => {
            let ghost pre = *v;
            v.visit_expr(record);
            proof {
                lemma_run_step(*old(v), pre, *v, ns, Visited::Expr(**record));
                ns = ns.push(Visited::Expr(**record));
            }
        },
    }
    proof {
        assert(ns =~= expr_nodes_of(*expr));
    }
}

/// Visit the comments attached to the pattern, then its children in source
/// order.
pub fn walk_pattern<V: Visit>(v: &mut V, pattern: &Spanned<Pattern>)
    ensures
        visit_run(*old(v), *final(v), pattern_nodes_of(*pattern)),
{
    let ghost mut ns: Seq<Visited> = Seq::empty();
    proof {
        lemma_run_empty(*v);
    }
    let ghost pre = *v;
    visit_comments(v, &pattern.comments);
    proof {
        lemma_run_concat(*old(v), pre, *v, ns, comment_nodes(pattern.comments@));
        ns = ns + comment_nodes(pattern.comments@);
    }
    match &pattern.value {
        Pattern::Anything | Pattern::Unit | Pattern::Hex(_) => {},
        Pattern::Var(name) => {
            let ghost pre = *v;
            v.visit_ident(name.as_str());
            proof {
                lemma_run_step(*old(v), pre, *v, ns, Visited::Ident(name@));
                ns = ns.push(Visited::Ident(name@));
            }
        },
        Pattern::Literal(lit) => {
            let ghost pre = *v;
            v.visit_literal(lit);
            proof {
                lemma_run_step(*old(v), pre, *v, ns, Visited::Literal(*lit));
                ns = ns.push(Visited::Literal(*lit));
            }
        },
        Pattern::Tuple(elems) => {
            let ghost pre = *v;
            visit_patterns(v, elems);
            proof {
                lemma_run_concat(*old(v), pre, *v, ns, pattern_nodes(elems@));
                ns = ns + pattern_nodes(elems@);
            }
        },
        Pattern::List(elems) => {
            let ghost pre = *v;
            visit_patterns(v, elems);
            proof {
                lemma_run_concat(*old(v), pre, *v, ns, pattern_nodes(elems@));
                ns = ns + pattern_nodes(elems@);
            }
        },
        Pattern::Constructor { args, .. } => {
            let ghost pre = *v;
            visit_patterns(v, args);
            proof {
                lemma_run_concat(*old(v), pre, *v, ns, pattern_nodes(args@));
                ns = ns + pattern_nodes(args@);
            }
        },
        Pattern::Record(fields) => {
            let ghost base = ns;
            let mut i: usize = 0;
            while i < fields.len()
                invariant
                    i <= fields@.len(),
                    visit_run(*old(v), *v, base + name_nodes(fields@.take(i as int))),
                decreases fields@.len() - i,
            {
                let ghost pre = *v;
                v.visit_ident(fields[i].value.as_str());
                proof {
                    lemma_run_step(*old(v), pre, *v, base + name_nodes(fields@.take(i as int)), Visited::Ident(fields@[i as int].value@));
                    assert((base + name_nodes(fields@.take(i as int))).push(Visited::Ident(fields@[i as int].value@)) =~= base + name_nodes(fields@.take(i + 1)));
                }
                i = i + 1;
            }
            proof {
                assert(fields@.take(i as int) =~= fields@);
                ns = base + name_nodes(fields@);
            }
        },
        Pattern::Cons { head, tail } => {
            let ghost pre = *v;
            v.visit_pattern(head);
            proof {
                lemma_run_step(*old(v), pre, *v, ns, Visited::Pattern(**head));
                ns = ns.push(Visited::Pattern(**head));
            }
            let ghost pre = *v;
            v.visit_pattern(tail);
            proof {
                lemma_run_step(*old(v), pre, *v, ns, Visited::Pattern(**tail));
                ns = ns.push(Visited::Pattern(**tail));
            }
        },
        Pattern::As { pattern: inner, name } => {
            let ghost pre = *v;
            v.visit_pattern(inner);
            proof {
                lemma_run_step(*old(v), pre, *v, ns, Visited::Pattern(**inner));
                ns = ns.push(Visited::Pattern(**inner));
            }
            let ghost pre = *v;
            v.visit_ident(name.value.as_str());
            proof {
                lemma_run_step(*old(v), pre, *v, ns, Visited::Ident(name.value@));
                ns = ns.push(Visited::Ident(name.value@));
            }
        },
        Pattern::Parenthesized(inner) => {
            let ghost pre = *v;
            v.visit_pattern(inner);
            proof {
                lemma_run_step(*old(v), pre, *v, ns, Visited::Pattern(**inner));
                ns = ns.push(Visited::Pattern(**inner));
            }
        },
    }
    proof {
        assert(ns =~= pattern_nodes_of(*pattern));
    }
}

/// Visit the children of a type annotation in source order.
pub fn walk_type_annotation<V: Visit>(v: &mut V, ty: &Spanned<TypeAnnotation>)
    ensures
        visit_run(*old(v), *final(v), type_nodes_of(*ty)),
{
    let ghost mut ns: Seq<Visited> = Seq::empty();
    proof {
        lemma_run_empty(*v);
    }
    match &ty.value {
        TypeAnnotation::GenericType(_) | TypeAnnotation::Unit => {},
        TypeAnnotation::Typed { args, .. } => {
            let ghost pre = *v;
            visit_types(v, args);
            proof {
                lemma_run_concat(*old(v), pre, *v, ns, type_nodes(args@));
                ns = ns + type_nodes(args@);
            }
        },
        TypeAnnotation::Tupled(elems) => {
            let ghost pre = *v;
            visit_types(v, elems);
            proof {
                lemma_run_concat(*old(v), pre, *v, ns, type_nodes(elems@));
                ns = ns + type_nodes(elems@);
            }
        },
        TypeAnnotation::Record(fields) => {
            let ghost pre = *v;
            visit_record_fields(v, fields);
            proof {
                lemma_run_concat(*old(v), pre, *v, ns, field_nodes(fields@));
                ns = ns + field_nodes(fields@);
            }
        },
        TypeAnnotation::GenericRecord { fields, .. } => {
            let ghost pre = *v;
            visit_record_fields(v, fields);
            proof {
                lemma_run_concat(*old(v), pre, *v, ns, field_nodes(fields@));
                ns = ns + field_nodes(fields@);
            }
        },
        TypeAnnotation::FunctionType { from, to } => {
            let ghost pre = *v;
            v.visit_type_annotation(from);
            proof {
                lemma_run_step(*old(v), pre, *v, ns, Visited::TypeAnnotation(**from));
                ns = ns.push(Visited::TypeAnnotation(**from));
            }
            let ghost pre = *v;
            v.visit_type_annotation(to);
            proof {
                lemma_run_step(*old(v), pre, *v, ns, Visited::TypeAnnotation(**to));
                ns = ns.push(Visited::TypeAnnotation(**to));
            }
        },
    }
    proof {
        assert(ns =~= type_nodes_of(*ty));
    }
}

/// Visit the field's type.
pub fn walk_record_field<V: Visit>(v: &mut V, field: &Spanned<RecordField>)
    ensures
        visit_run(*old(v), *final(v), seq![Visited::TypeAnnotation(field.value.type_annotation)]),
{
    let ghost mut ns: Seq<Visited> = Seq::empty();
    proof {
        lemma_run_empty(*v);
    }
    let ghost pre = *v;
    v.visit_type_annotation(&field.value.type_annotation);
    proof {
        lemma_run_step(*old(v), pre, *v, ns, Visited::TypeAnnotation(field.value.type_annotation));
        ns = ns.push(Visited::TypeAnnotation(field.value.type_annotation));
    }
    proof {
        assert(ns =~= seq![Visited::TypeAnnotation(field.value.type_annotation)]);
    }
}

/// Visit the comments attached to the declaration, then its parts.
pub fn walk_let_declaration<V: Visit>(v: &mut V, decl: &Spanned<LetDeclaration>)
    ensures
        visit_run(*old(v), *final(v), let_declaration_nodes(*decl)),
{
    let ghost mut ns: Seq<Visited> = Seq::empty();
    proof {
        lemma_run_empty(*v);
    }
    let ghost pre = *v;
    visit_comments(v, &decl.comments);
    proof {
        lemma_run_concat(*old(v), pre, *v, ns, comment_nodes(decl.comments@));
        ns = ns + comment_nodes(decl.comments@);
    }
    match &decl.value {
        LetDeclaration::Function(func) => {
            let ghost pre = *v;
            v.visit_function(func);
            proof {
                lemma_run_step(*old(v), pre, *v, ns, Visited::Function(*func));
                ns = ns.push(Visited::Function(*func));
            }
        },
        LetDeclaration::Destructuring { pattern, body } => {
            let ghost pre = *v;
            v.visit_pattern(pattern);
            proof {
                lemma_run_step(*old(v), pre, *v, ns, Visited::Pattern(*pattern));
                ns = ns.push(Visited::Pattern(*pattern));
            }
            let ghost pre = *v;
            v.visit_expr(body);
            proof {
                lemma_run_step(*old(v), pre, *v, ns, Visited::Expr(*body));
                ns = ns.push(Visited::Expr(*body));
            }
        },
    }
    proof {
        assert(ns =~= let_declaration_nodes(*decl));
    }
}

/// Visit the branch pattern, then its body.
pub fn walk_case_branch<V: Visit>(v: &mut V, branch: &CaseBranch)
    ensures
        visit_run(*old(v), *final(v), seq![Visited::Pattern(branch.pattern), Visited::Expr(branch.body)]),
{
    let ghost mut ns: Seq<Visited> = Seq::empty();
    proof {
        lemma_run_empty(*v);
    }
    let ghost pre = *v;
    v.visit_pattern(&branch.pattern);
    proof {
        lemma_run_step(*old(v), pre, *v, ns, Visited::Pattern(branch.pattern));
        ns = ns.push(Visited::Pattern(branch.pattern));
    }
    let ghost pre = *v;
    v.visit_expr(&branch.body);
    proof {
        lemma_run_step(*old(v), pre, *v, ns, Visited::Expr(branch.body));
        ns = ns.push(Visited::Expr(branch.body));
    }
    proof {
        assert(ns =~= seq![Visited::Pattern(branch.pattern), Visited::Expr(branch.body)]);
    }
}

/// Visit the assigned value.
pub fn walk_record_setter<V: Visit>(v: &mut V, setter: &Spanned<RecordSetter>)
    ensures
        visit_run(*old(v), *final(v), seq![Visited::Expr(setter.value.value)]),
{
    let ghost mut ns: Seq<Visited> = Seq::empty();
    proof {
        lemma_run_empty(*v);
    }
    let ghost pre = *v;
    v.visit_expr(&setter.value.value);
    proof {
        lemma_run_step(*old(v), pre, *v, ns, Visited::Expr(setter.value.value));
        ns = ns.push(Visited::Expr(setter.value.value));
    }
    proof {
        assert(ns =~= seq![Visited::Expr(setter.value.value)]);
    }
}

/// The arm nodes of `bs` are its conditions and values, interleaved in order.
pub proof fn lemma_arm_nodes_index(bs: Seq<(Spanned<Expr>, Spanned<Expr>)>)
    ensures
        arm_nodes(bs).len() == 2 * bs.len(),
        forall|k: int|
            0 <= k < bs.len() ==> arm_nodes(bs)[2 * k] == Visited::Expr(bs[k].0) && arm_nodes(bs)[2 * k + 1]
                == Visited::Expr(bs[k].1),
    decreases bs.len(),
{
    if bs.len() > 0 {
        let pre = bs.drop_last();
        lemma_arm_nodes_index(pre);
        let ns = arm_nodes(bs);
        assert(ns == arm_nodes(pre) + seq![Visited::Expr(bs.last().0), Visited::Expr(bs.last().1)]);
        assert forall|k: int| 0 <= k < bs.len() implies ns[2 * k] == Visited::Expr(bs[k].0) && ns[2 * k + 1]
            == Visited::Expr(bs[k].1) by {
            if k < pre.len() {
                assert(pre[k] == bs[k]);
            }
        }
    }
}

/// Law: the nodes that `walk_expr` (and `walk_expr_mut`) visit for an
/// `if` expression are, after its comments, exactly its direct children:
/// each condition followed by its branch, in order, and last the `else`
/// branch.
pub proof fn law_if_children_visited(e: Spanned<Expr>)
    requires
        e.value is IfElse,
    ensures
        ({
            let c = e.comments@.len() as int;
            let ns = expr_nodes_of(e);
            match e.value {
                Expr::IfElse { branches: arms, else_branch: last } => {
                    &&& ns.len() == c + 2 * arms@.len() + 1
                    &&& forall|i: int| 0 <= i < c ==> ns[i] == Visited::Comment(e.comments@[i])
                    &&& forall|k: int|
                        0 <= k < arms@.len() ==> ns[c + 2 * k] == Visited::Expr(arms@[k].0) && ns[c + 2 * k + 1]
                            == Visited::Expr(arms@[k].1)
                    &&& ns[ns.len() - 1] == Visited::Expr(*last)
                },
                _ => true,
            }
        }),
{
    match e.value {
        Expr::IfElse { branches: arms, .. } => {
            lemma_arm_nodes_index(arms@);
        },
        _ => {},
    }
}

/// The expressions directly inside `e`, in source order: the operands,
/// the function and its arguments, each condition and its branch then the
/// `else` branch, the elements, the subject of a `case`, the body of a
/// `let` or a lambda, the record of a field access.
pub open spec fn direct_subexprs(e: Expr) -> Seq<Spanned<Expr>> {
    match e {
        Expr::OperatorApplication { left, right, .. } => seq![*left, *right],
        Expr::BinOps { operands_and_operators: xs, final_operand: last } => xs@.map_values(
            |x: (Spanned<Expr>, Spanned<String>)| x.0,
        ).push(*last),
        Expr::Application(xs) => xs@,
        Expr::IfElse { branches: arms, else_branch: last } => Seq::new(
            2 * arms@.len(),
            |i: int|
                if i % 2 == 0 {
                    arms@[i / 2].0
                } else {
                    arms@[i / 2].1
                },
        ).push(*last),
        Expr::Negation(x) => seq![*x],
        Expr::Tuple(xs) => xs@,
        Expr::List(xs) => xs@,
        Expr::Parenthesized(x) => seq![*x],
        Expr::LetIn { body: x, .. } => seq![*x],
        Expr::CaseOf { expr: x, .. } => seq![*x],
        Expr::Lambda { body: x, .. } => seq![*x],
        Expr::RecordAccess { record: x, .. } => seq![*x],
        _ => Seq::empty(),
    }
}

/// Law: `walk_expr` (and `walk_expr_mut`) visits every expression directly
/// inside the one it walks.
pub proof fn law_walk_visits_direct_subexprs(e: Spanned<Expr>)
    ensures
        forall|i: int|
            0 <= i < direct_subexprs(e.value).len() ==> expr_nodes_of(e).contains(
                Visited::Expr(#[trigger] direct_subexprs(e.value)[i]),
            ),
{
    let c = e.comments@.len() as int;
    let ns = expr_nodes_of(e);
    let d = direct_subexprs(e.value);
    assert forall|i: int| 0 <= i < d.len() implies ns.contains(Visited::Expr(#[trigger] d[i])) by {
        let k: int = match e.value {
            Expr::OperatorApplication { .. } => c + i,
            Expr::BinOps { .. } => c + i,
            Expr::Application(_) => c + i,
            Expr::IfElse { branches: arms, .. } => {
                lemma_arm_nodes_index(arms@);
                c + i
            },
            Expr::Negation(_) => c,
            Expr::Tuple(_) => c + i,
            Expr::List(_) => c + i,
            Expr::Parenthesized(_) => c,
            Expr::LetIn { declarations: ds, .. } => c + ds@.len(),
            Expr::CaseOf { .. } => c,
            Expr::Lambda { args: ps, .. } => c + ps@.len(),
            Expr::RecordAccess { .. } => c,
            _ => 0,
        };
        match e.value {
            Expr::IfElse { branches: arms, .. } => {
                if i < 2 * arms@.len() {
                    assert(i == 2 * (i / 2) || i == 2 * (i / 2) + 1);
                }
            },
            _ => {},
        }
        assert(0 <= k < ns.len() && ns[k] == Visited::Expr(d[i]));
    }
}

} // verus!

use elm_ast::comment::Comment;
use elm_ast::declaration::{CustomType, Declaration, InfixDef, TypeAlias, ValueConstructor};
use elm_ast::exposing::{ExposedItem, Exposing};
use elm_ast::expr::{CaseBranch, Expr, Function, FunctionImplementation, LetDeclaration, RecordSetter, Signature};
use elm_ast::file::ElmModule;
use elm_ast::import::Import;
use elm_ast::literal::Literal;
use elm_ast::module_header::ModuleHeader;
use elm_ast::node::Spanned;
use elm_ast::operator::InfixDirection;
use elm_ast::pattern::Pattern;
use elm_ast::span::Span;
use elm_ast::type_annotation::{RecordField, TypeAnnotation};
use elm_ast::visit::{walk_expr, walk_pattern, Visit, Visited};

/// Records the name of each visitor method called, and the identifiers.
struct Recorder {
    calls: Vec<String>,
}

impl Visit for Recorder {
    fn visits(self, _next: Self, _node: Visited) -> bool {
        true
    }
    fn lemma_leaf_unchanged(_a: Self, _node: Visited) {}
    fn visit_module(&mut self, _m: &ElmModule) { self.calls.push("module".into()); }
    fn visit_module_header(&mut self, _h: &Spanned<ModuleHeader>) { self.calls.push("header".into()); }
    fn visit_import(&mut self, _i: &Spanned<Import>) { self.calls.push("import".into()); }
    fn visit_exposing(&mut self, _e: &Spanned<Exposing>) { self.calls.push("exposing".into()); }
    fn visit_exposed_item(&mut self, _e: &Spanned<ExposedItem>) { self.calls.push("exposed_item".into()); }
    fn visit_declaration(&mut self, _d: &Spanned<Declaration>) { self.calls.push("declaration".into()); }
    fn visit_function(&mut self, _f: &Function) { self.calls.push("function".into()); }
    fn visit_signature(&mut self, _s: &Spanned<Signature>) { self.calls.push("signature".into()); }
    fn visit_function_implementation(&mut self, _i: &Spanned<FunctionImplementation>) { self.calls.push("implementation".into()); }
    fn visit_type_alias(&mut self, _a: &TypeAlias) { self.calls.push("alias".into()); }
    fn visit_custom_type(&mut self, _c: &CustomType) { self.calls.push("custom_type".into()); }
    fn visit_value_constructor(&mut self, _c: &Spanned<ValueConstructor>) { self.calls.push("constructor".into()); }
    fn visit_infix_def(&mut self, _i: &InfixDef) { self.calls.push("infix".into()); }
    fn visit_expr(&mut self, _e: &Spanned<Expr>) { self.calls.push("expr".into()); }
    fn visit_pattern(&mut self, _p: &Spanned<Pattern>) { self.calls.push("pattern".into()); }
    fn visit_type_annotation(&mut self, _t: &Spanned<TypeAnnotation>) { self.calls.push("type".into()); }
    fn visit_record_field(&mut self, _f: &Spanned<RecordField>) { self.calls.push("field".into()); }
    fn visit_let_declaration(&mut self, _d: &Spanned<LetDeclaration>) { self.calls.push("let_declaration".into()); }
    fn visit_case_branch(&mut self, _b: &CaseBranch) { self.calls.push("case_branch".into()); }
    fn visit_record_setter(&mut self, _s: &Spanned<RecordSetter>) { self.calls.push("setter".into()); }
    fn visit_literal(&mut self, _l: &Literal) { self.calls.push("literal".into()); }
    fn visit_comment(&mut self, _c: &Spanned<Comment>) { self.calls.push("comment".into()); }
    fn visit_ident(&mut self, name: &str) { self.calls.push(format!("ident {}", name)); }
}

fn sp<T>(v: T) -> Spanned<T> {
    Spanned::new(Span::dummy(), v)
}

#[test]
fn walk_expr_visits_operands_in_order() {
    let e = sp(Expr::OperatorApplication {
        operator: "+".to_string(),
        direction: InfixDirection::Left,
        left: Box::new(sp(Expr::Literal(Literal::Int(1)))),
        right: Box::new(sp(Expr::FunctionOrValue { module_name: vec![], name: "x".to_string() })),
    });
    let mut r = Recorder { calls: vec![] };
    walk_expr(&mut r, &e);
    assert_eq!(r.calls, vec!["expr", "expr"]);
    let mut r2 = Recorder { calls: vec![] };
    walk_expr(&mut r2, &sp(Expr::FunctionOrValue { module_name: vec![], name: "y".to_string() }));
    assert_eq!(r2.calls, vec!["ident y"]);
}

#[test]
fn walk_pattern_visits_as_pattern_then_name() {
    let p = sp(Pattern::As { pattern: Box::new(sp(Pattern::Var("a".to_string()))), name: sp("b".to_string()) });
    let mut r = Recorder { calls: vec![] };
    walk_pattern(&mut r, &p);
    assert_eq!(r.calls, vec!["pattern", "ident b"]);
}

/// Renames every identifier it is handed, and leaves the rest alone.
struct Renamer;

impl elm_ast::visit_mut::VisitMut for Renamer {
    fn visits_mut(self, _next: Self, _before: Visited, _after: Visited) -> bool {
        true
    }
    fn lemma_leaf_unchanged_mut(_a: Self, _node: Visited) {}
    fn visit_module_mut(&mut self, _m: &mut ElmModule) {}
    fn visit_module_header_mut(&mut self, _h: &mut Spanned<ModuleHeader>) {}
    fn visit_import_mut(&mut self, _i: &mut Spanned<Import>) {}
    fn visit_exposing_mut(&mut self, _e: &mut Spanned<Exposing>) {}
    fn visit_declaration_mut(&mut self, _d: &mut Spanned<Declaration>) {}
    fn visit_function_mut(&mut self, _f: &mut Function) {}
    fn visit_signature_mut(&mut self, _s: &mut Spanned<Signature>) {}
    fn visit_function_implementation_mut(&mut self, _i: &mut Spanned<FunctionImplementation>) {}
    fn visit_type_alias_mut(&mut self, _a: &mut TypeAlias) {}
    fn visit_custom_type_mut(&mut self, _c: &mut CustomType) {}
    fn visit_value_constructor_mut(&mut self, _c: &mut Spanned<ValueConstructor>) {}
    fn visit_expr_mut(&mut self, _e: &mut Spanned<Expr>) {}
    fn visit_pattern_mut(&mut self, p: &mut Spanned<Pattern>) {
        elm_ast::visit_mut::walk_pattern_mut(self, p);
    }
    fn visit_type_annotation_mut(&mut self, _t: &mut Spanned<TypeAnnotation>) {}
    fn visit_record_field_mut(&mut self, _f: &mut Spanned<RecordField>) {}
    fn visit_let_declaration_mut(&mut self, _d: &mut Spanned<LetDeclaration>) {}
    fn visit_case_branch_mut(&mut self, _b: &mut CaseBranch) {}
    fn visit_record_setter_mut(&mut self, _s: &mut Spanned<RecordSetter>) {}
    fn visit_ident_mut(&mut self, name: &mut String) {
        name.push_str("_renamed");
    }
}

#[test]
fn walk_pattern_mut_renames_names_in_order() {
    let mut p = sp(Pattern::As { pattern: Box::new(sp(Pattern::Var("a".to_string()))), name: sp("b".to_string()) });
    elm_ast::visit_mut::walk_pattern_mut(&mut Renamer, &mut p);
    match &p.value {
        Pattern::As { pattern, name } => {
            assert_eq!(name.value, "b_renamed");
            assert_eq!(pattern.value, Pattern::Var("a_renamed".to_string()));
        },
        _ => panic!("shape changed"),
    }
}

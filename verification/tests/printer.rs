use elm_ast::comment::Comment;
use elm_ast::declaration::{CustomType, Declaration, ValueConstructor};
use elm_ast::exposing::{ExposedItem, Exposing};
use elm_ast::expr::{CaseBranch, Expr, Function, FunctionImplementation, RecordSetter};
use elm_ast::file::ElmModule;
use elm_ast::import::Import;
use elm_ast::literal::Literal;
use elm_ast::module_header::ModuleHeader;
use elm_ast::node::Spanned;
use elm_ast::operator::InfixDirection;
use elm_ast::pattern::Pattern;
use elm_ast::print::{pretty_print, print, PrintConfig, PrintStyle, Printer};
use elm_ast::span::{Position, Span};
use elm_ast::type_annotation::TypeAnnotation;

fn d() -> Span {
    Span::dummy()
}

fn sp<T>(v: T) -> Spanned<T> {
    Spanned::new(d(), v)
}

fn at<T>(line: u32, v: T) -> Spanned<T> {
    let p = Position { offset: line as usize * 100, line, column: 1 };
    let q = Position { offset: line as usize * 100 + 10, line, column: 11 };
    Spanned::new(Span::new(p, q), v)
}

fn var(name: &str) -> Expr {
    Expr::FunctionOrValue { module_name: vec![], name: name.to_string() }
}

fn num(n: i64) -> Expr {
    Expr::Literal(Literal::Int(n))
}

fn op(o: &str, l: Expr, r: Expr) -> Expr {
    Expr::OperatorApplication {
        operator: o.to_string(),
        direction: InfixDirection::Left,
        left: Box::new(sp(l)),
        right: Box::new(sp(r)),
    }
}

fn render(e: &Expr, style: PrintStyle) -> String {
    let mut p = Printer::new(PrintConfig { indent_width: 4, style });
    p.write_expr(e);
    p.finish()
}

fn value_decl(name: &str, body: Expr) -> Spanned<Declaration> {
    sp(Declaration::FunctionDeclaration(Function {
        documentation: None,
        signature: None,
        declaration: sp(FunctionImplementation { name: sp(name.to_string()), args: vec![], body: sp(body) }),
    }))
}

fn module(decls: Vec<Spanned<Declaration>>, imports: Vec<Spanned<Import>>) -> ElmModule {
    ElmModule {
        header: sp(ModuleHeader::Normal {
            name: sp(vec!["Main".to_string()]),
            exposing: sp(Exposing::All(d())),
        }),
        module_documentation: None,
        imports,
        declarations: decls,
        comments: vec![],
    }
}

#[test]
fn prints_a_value_declaration() {
    let m = module(vec![value_decl("x", num(1))], vec![]);
    assert_eq!(print(&m), "module Main exposing (..)\n\n\nx =\n    1\n");
}

#[test]
fn pretty_print_separates_declarations_by_two_blank_lines() {
    let m = module(vec![value_decl("x", num(1)), value_decl("y", num(2))], vec![]);
    assert_eq!(
        pretty_print(&m),
        "module Main exposing (..)\n\n\nx =\n    1\n\n\ny =\n    2\n"
    );
}

#[test]
fn compact_layout_keeps_one_blank_line_between_declarations() {
    let m = module(vec![value_decl("x", num(1)), value_decl("y", num(2))], vec![]);
    assert_eq!(print(&m), "module Main exposing (..)\n\n\nx =\n    1\n\ny =\n    2\n");
}

#[test]
fn operator_precedence_adds_parentheses() {
    // (a + b) * c
    let e = op("*", op("+", var("a"), var("b")), var("c"));
    assert_eq!(render(&e, PrintStyle::Compact), "(a + b) * c");
    // a + b * c needs none
    let e2 = op("+", var("a"), op("*", var("b"), var("c")));
    assert_eq!(render(&e2, PrintStyle::Compact), "a + b * c");
}

#[test]
fn right_associative_operand_on_the_left_gets_parentheses() {
    // (a :: b) :: c
    let e = op("::", op("::", var("a"), var("b")), var("c"));
    assert_eq!(render(&e, PrintStyle::Compact), "(a :: b) :: c");
}

#[test]
fn application_and_negation() {
    let e = Expr::Application(vec![
        sp(var("f")),
        sp(Expr::Negation(Box::new(sp(var("x"))))),
        sp(op("+", num(1), num(2))),
    ]);
    assert_eq!(render(&e, PrintStyle::Compact), "f -x (1 + 2)");
}

#[test]
fn lists_tuples_and_records_on_one_line() {
    let l = Expr::List(vec![sp(num(1)), sp(num(2))]);
    assert_eq!(render(&l, PrintStyle::Compact), "[ 1, 2 ]");
    let t = Expr::Tuple(vec![sp(num(1)), sp(var("a"))]);
    assert_eq!(render(&t, PrintStyle::Compact), "( 1, a )");
    let r = Expr::Record(vec![sp(RecordSetter { field: sp("a".to_string()), value: sp(num(1)), trailing_comment: None })]);
    assert_eq!(render(&r, PrintStyle::Compact), "{ a = 1 }");
    assert_eq!(render(&Expr::List(vec![]), PrintStyle::Compact), "[]");
    assert_eq!(render(&Expr::Record(vec![]), PrintStyle::Compact), "{}");
}

#[test]
fn compact_if_with_one_simple_branch_is_one_line() {
    let e = Expr::IfElse { branches: vec![(sp(var("c")), sp(num(1)))], else_branch: Box::new(sp(num(2))) };
    assert_eq!(render(&e, PrintStyle::Compact), "if c then 1 else 2");
}

#[test]
fn pretty_if_is_always_vertical() {
    let e = Expr::IfElse { branches: vec![(sp(var("c")), sp(num(1)))], else_branch: Box::new(sp(num(2))) };
    assert_eq!(render(&e, PrintStyle::ElmFormat), "if c then\n    1\n\nelse\n    2");
}

#[test]
fn case_expression_pretty_has_blank_lines_between_branches() {
    let e = Expr::CaseOf {
        expr: Box::new(sp(var("m"))),
        branches: vec![
            CaseBranch { pattern: sp(Pattern::Var("a".to_string())), body: sp(num(1)) },
            CaseBranch { pattern: sp(Pattern::Anything), body: sp(num(2)) },
        ],
    };
    assert_eq!(
        render(&e, PrintStyle::ElmFormat),
        "case m of\n    a ->\n        1\n\n    _ ->\n        2"
    );
    assert_eq!(render(&e, PrintStyle::Compact), "case m of\n    a ->\n        1\n    _ ->\n        2");
}

#[test]
fn lambda_on_one_line() {
    let e = Expr::Lambda { args: vec![sp(Pattern::Var("x".to_string()))], body: Box::new(sp(op("+", var("x"), num(1)))) };
    assert_eq!(render(&e, PrintStyle::Compact), "\\x -> x + 1");
}

#[test]
fn pretty_pipeline_across_lines_is_vertical() {
    let e = Expr::OperatorApplication {
        operator: "|>".to_string(),
        direction: InfixDirection::Left,
        left: Box::new(at(1, var("x"))),
        right: Box::new(at(2, var("f"))),
    };
    assert_eq!(render(&e, PrintStyle::ElmFormat), "x\n    |> f");
    assert_eq!(render(&e, PrintStyle::Compact), "x |> f");
}

#[test]
fn pretty_strips_redundant_parentheses() {
    let e = Expr::Parenthesized(Box::new(sp(var("x"))));
    assert_eq!(render(&e, PrintStyle::ElmFormat), "x");
    assert_eq!(render(&e, PrintStyle::Compact), "(x)");
}

#[test]
fn literals_are_escaped() {
    assert_eq!(render(&Expr::Literal(Literal::String("a\"b\n".to_string())), PrintStyle::Compact), "\"a\\\"b\\n\"");
    assert_eq!(render(&Expr::Literal(Literal::Char('\'')), PrintStyle::Compact), "'\\''");
    assert_eq!(render(&Expr::Literal(Literal::Int(-42)), PrintStyle::Compact), "-42");
}

#[test]
fn imports_are_sorted_and_merged_in_pretty_layout() {
    let imp = |name: &str, items: Vec<&str>| {
        sp(Import {
            module_name: sp(vec![name.to_string()]),
            alias: None,
            exposing: if items.is_empty() {
                None
            } else {
                Some(sp(Exposing::Explicit(
                    items.into_iter().map(|i| sp(ExposedItem::Function(i.to_string()))).collect(),
                )))
            },
        })
    };
    let m = module(
        vec![value_decl("x", num(1))],
        vec![imp("Html", vec!["text"]), imp("Dict", vec![]), imp("Html", vec!["div", "text"])],
    );
    assert_eq!(
        pretty_print(&m),
        "module Main exposing (..)\n\nimport Dict\nimport Html exposing (div, text)\n\n\nx =\n    1\n"
    );
}

#[test]
fn compact_imports_keep_source_order() {
    let imp = |name: &str| sp(Import { module_name: sp(vec![name.to_string()]), alias: None, exposing: None });
    let m = module(vec![value_decl("x", num(1))], vec![imp("B"), imp("A")]);
    assert_eq!(print(&m), "module Main exposing (..)\n\nimport B\nimport A\n\n\nx =\n    1\n");
}

#[test]
fn module_exposing_is_sorted_in_pretty_layout() {
    let mut m = module(vec![value_decl("x", num(1))], vec![]);
    m.header = sp(ModuleHeader::Normal {
        name: sp(vec!["Main".to_string()]),
        exposing: sp(Exposing::Explicit(vec![
            sp(ExposedItem::Function("view".to_string())),
            sp(ExposedItem::TypeExpose { name: "Msg".to_string(), open: Some(d()) }),
            sp(ExposedItem::Infix("+".to_string())),
        ])),
    });
    assert!(pretty_print(&m).starts_with("module Main exposing ((+), Msg(..), view)\n"));
    assert!(print(&m).starts_with("module Main exposing (view, Msg(..), (+))\n"));
}

#[test]
fn type_signature_and_function() {
    let f = sp(Declaration::FunctionDeclaration(Function {
        documentation: None,
        signature: Some(sp(elm_ast::expr::Signature {
            name: sp("inc".to_string()),
            type_annotation: sp(TypeAnnotation::FunctionType {
                from: Box::new(sp(TypeAnnotation::Typed { module_name: vec![], name: sp("Int".to_string()), args: vec![] })),
                to: Box::new(sp(TypeAnnotation::Typed { module_name: vec![], name: sp("Int".to_string()), args: vec![] })),
            }),
        })),
        declaration: sp(FunctionImplementation {
            name: sp("inc".to_string()),
            args: vec![sp(Pattern::Var("n".to_string()))],
            body: sp(op("+", var("n"), num(1))),
        }),
    }));
    let m = module(vec![f], vec![]);
    assert_eq!(print(&m), "module Main exposing (..)\n\n\ninc : Int -> Int\ninc n =\n    n + 1\n");
}

#[test]
fn line_comment_before_a_declaration() {
    let mut m = module(vec![at(3, Declaration::FunctionDeclaration(Function {
        documentation: None,
        signature: None,
        declaration: sp(FunctionImplementation { name: sp("x".to_string()), args: vec![], body: sp(num(1)) }),
    }))], vec![]);
    m.comments = vec![at(2, Comment::Line(" note".to_string()))];
    assert_eq!(print(&m), "module Main exposing (..)\n\n\n-- note\n\n\nx =\n    1\n");
}

#[test]
fn pretty_doc_comment_is_normalized() {
    let decl = sp(Declaration::FunctionDeclaration(Function {
        documentation: Some(sp(" Adds *one*.".to_string())),
        signature: None,
        declaration: sp(FunctionImplementation { name: sp("x".to_string()), args: vec![], body: sp(num(1)) }),
    }));
    let m = module(vec![decl], vec![]);
    assert_eq!(pretty_print(&m), "module Main exposing (..)\n\n\n{-| Adds _one_.\n-}\nx =\n    1\n");
}

#[test]
fn compact_doc_comment_is_kept() {
    let decl = sp(Declaration::FunctionDeclaration(Function {
        documentation: Some(sp(" Adds *one*.".to_string())),
        signature: None,
        declaration: sp(FunctionImplementation { name: sp("x".to_string()), args: vec![], body: sp(num(1)) }),
    }));
    let m = module(vec![decl], vec![]);
    assert_eq!(print(&m), "module Main exposing (..)\n\n\n{-| Adds *one*.-}\nx =\n    1\n");
}

fn exposing_module(doc: &str, names: &[&str]) -> ElmModule {
    let mut m = module(vec![value_decl("x", num(1))], vec![]);
    let items = names.iter().map(|n| sp(ExposedItem::Function(n.to_string()))).collect();
    m.header = sp(ModuleHeader::Normal { name: sp(vec!["Main".to_string()]), exposing: sp(Exposing::Explicit(items)) });
    m.module_documentation = Some(sp(doc.to_string()));
    m
}

#[test]
fn docs_groups_lay_out_the_module_exposing_list() {
    let m = exposing_module(" Main.\n\n@docs view, msg\n\n@docs update\n", &["init", "update", "view", "msg"]);
    assert!(pretty_print(&m).starts_with("module Main exposing\n    ( view, msg\n    , update\n    , init\n    )\n"));
}

#[test]
fn one_docs_group_keeps_the_exposing_list_on_one_line() {
    let m = exposing_module(" Main.\n\n@docs view, init\n", &["init", "view"]);
    assert!(pretty_print(&m).starts_with("module Main exposing (view, init)\n"));
}

#[test]
fn names_in_an_earlier_docs_group_are_not_repeated() {
    let m = exposing_module(" Main.\n\n@docs view\n\n@docs view, init\n", &["init", "view"]);
    assert!(pretty_print(&m).starts_with("module Main exposing\n    ( view\n    , init\n    )\n"));
}

#[test]
fn field_access_on_an_application_keeps_its_parentheses() {
    let app = Expr::Application(vec![sp(var("f")), sp(var("x"))]);
    let e = Expr::RecordAccess {
        record: Box::new(sp(Expr::Parenthesized(Box::new(sp(app))))),
        field: sp("name".to_string()),
    };
    assert_eq!(render(&e, PrintStyle::Compact), "(f x).name");
    assert_eq!(render(&e, PrintStyle::ElmFormat), "(f x).name");
}

#[test]
fn parentheses_around_a_name_go_in_pretty_layout() {
    let e = Expr::Application(vec![
        sp(var("f")),
        sp(Expr::Parenthesized(Box::new(sp(var("x"))))),
        sp(Expr::Negation(Box::new(sp(var("y"))))),
    ]);
    assert_eq!(render(&e, PrintStyle::Compact), "f (x) -y");
    assert_eq!(render(&e, PrintStyle::ElmFormat), "f x -y");
}

#[test]
fn negated_negation_gets_parentheses() {
    let e = Expr::Negation(Box::new(sp(Expr::Negation(Box::new(sp(var("x")))))));
    assert_eq!(render(&e, PrintStyle::Compact), "-(-x)");
}

#[test]
fn record_update_and_nested_tuple_on_one_line() {
    let setter = |f: &str, v: Expr| sp(RecordSetter { field: sp(f.to_string()), value: sp(v), trailing_comment: None });
    let u = Expr::RecordUpdate {
        base: sp("model".to_string()),
        updates: vec![setter("count", num(0)), setter("pair", Expr::Tuple(vec![sp(var("a")), sp(Expr::Unit)]))],
    };
    assert_eq!(render(&u, PrintStyle::Compact), "{ model | count = 0, pair = ( a, () ) }");
    assert_eq!(render(&u, PrintStyle::ElmFormat), "{ model | count = 0, pair = ( a, () ) }");
}

#[test]
fn compact_left_pipe_keeps_its_right_side_bare() {
    let app = Expr::Application(vec![sp(var("g")), sp(var("x"))]);
    let e = op("<|", var("f"), op("<|", app, var("y")));
    assert_eq!(render(&e, PrintStyle::Compact), "f <| g x <| y");
}

#[test]
fn lambda_with_two_arguments_on_one_line() {
    let e = Expr::Lambda {
        args: vec![sp(Pattern::Var("a".to_string())), sp(Pattern::Anything)],
        body: Box::new(sp(op("+", var("a"), num(1)))),
    };
    assert_eq!(render(&e, PrintStyle::Compact), "\\a _ -> a + 1");
}

#[test]
fn alias_port_and_destructuring_declarations() {
    let int = || sp(TypeAnnotation::Typed { module_name: vec![], name: sp("Int".to_string()), args: vec![] });
    let alias = elm_ast::declaration::TypeAlias {
        documentation: None,
        name: sp("Count".to_string()),
        generics: vec![sp("a".to_string())],
        type_annotation: int(),
    };
    let mut p = Printer::new(PrintConfig { indent_width: 4, style: PrintStyle::Compact });
    p.write_declaration(&Declaration::AliasDeclaration(alias));
    assert_eq!(p.finish(), "type alias Count a =\n    Int");
    let port = Declaration::PortDeclaration(elm_ast::expr::Signature { name: sp("send".to_string()), type_annotation: int() });
    let mut p = Printer::new(PrintConfig { indent_width: 2, style: PrintStyle::ElmFormat });
    p.write_declaration(&port);
    assert_eq!(p.finish(), "port send : Int");
    let d = Declaration::Destructuring {
        pattern: sp(Pattern::Tuple(vec![sp(Pattern::Var("a".to_string())), sp(Pattern::Anything)])),
        body: sp(var("pair")),
    };
    let mut p = Printer::new(PrintConfig { indent_width: 2, style: PrintStyle::Compact });
    p.write_declaration(&d);
    assert_eq!(p.finish(), "( a, _ ) =\n  pair");
}

#[test]
fn compact_module_with_alias_import_and_documentation() {
    let mut m = module(vec![value_decl("x", num(1)), value_decl("y", var("x"))], vec![]);
    m.module_documentation = Some(sp(" Docs ".to_string()));
    m.imports = vec![sp(Import {
        module_name: sp(vec!["Html".to_string(), "Attributes".to_string()]),
        alias: Some(sp(vec!["A".to_string()])),
        exposing: Some(sp(Exposing::Explicit(vec![sp(ExposedItem::Function("class".to_string()))]))),
    })];
    assert_eq!(
        print(&m),
        "module Main exposing (..)\n\n{-| Docs -}\n\nimport Html.Attributes as A exposing (class)\n\n\nx =\n    1\n\ny =\n    x\n"
    );
}

#[test]
fn pretty_operator_application_on_one_line_drops_redundant_parentheses() {
    let paren = |e: Expr| Expr::Parenthesized(Box::new(sp(e)));
    let app = Expr::Application(vec![sp(var("f")), sp(var("x"))]);
    let e = op("+", paren(var("a")), paren(app));
    assert_eq!(render(&e, PrintStyle::ElmFormat), "a + f x");
    let g = Expr::Application(vec![sp(var("g")), sp(var("y"))]);
    let p = op("<|", var("h"), paren(g));
    assert_eq!(render(&p, PrintStyle::ElmFormat), "h <| g y");
    assert_eq!(render(&p, PrintStyle::Compact), "h <| (g y)");
}

#[test]
fn a_list_with_a_multi_line_element_breaks_its_line() {
    let s = Expr::Literal(Literal::MultilineString("a\nb".to_string()));
    let l = Expr::List(vec![sp(num(1)), sp(s)]);
    let out = render(&l, PrintStyle::Compact);
    assert!(out.starts_with("[\n"));
    assert!(out.trim_end().ends_with(']'));
    let t = Expr::Tuple(vec![at(1, num(1)), at(2, num(2))]);
    assert!(render(&t, PrintStyle::ElmFormat).contains('\n'));
    assert_eq!(render(&t, PrintStyle::Compact), "( 1, 2 )");
}

#[test]
fn custom_type_constructors_one_per_line() {
    let ctor = |name: &str, args: Vec<Spanned<TypeAnnotation>>| {
        sp(ValueConstructor { name: sp(name.to_string()), args, pre_pipe_comments: vec![] })
    };
    let ct = CustomType {
        documentation: None,
        name: sp("Maybe".to_string()),
        generics: vec![sp("a".to_string())],
        constructors: vec![ctor("Just", vec![sp(TypeAnnotation::GenericType("a".to_string()))]), ctor("Nothing", vec![])],
    };
    let mut p = Printer::new(PrintConfig { indent_width: 4, style: PrintStyle::ElmFormat });
    p.write_declaration(&Declaration::CustomTypeDeclaration(ct));
    assert_eq!(p.finish(), "type Maybe a\n    = Just a\n    | Nothing");
}

#[test]
fn pretty_imports_are_sorted_with_sorted_exposing_and_redundant_alias_dropped() {
    let items = |names: Vec<&str>| {
        Some(sp(Exposing::Explicit(names.into_iter().map(|i| sp(ExposedItem::Function(i.to_string()))).collect())))
    };
    let m = module(
        vec![value_decl("x", num(1))],
        vec![
            sp(Import { module_name: sp(vec!["B".to_string()]), alias: Some(sp(vec!["B".to_string()])), exposing: None }),
            sp(Import { module_name: sp(vec!["A".to_string()]), alias: None, exposing: items(vec!["z", "y"]) }),
        ],
    );
    assert_eq!(pretty_print(&m), "module Main exposing (..)\n\nimport A exposing (y, z)\nimport B\n\n\nx =\n    1\n");
}

#[test]
fn pretty_pipeline_on_one_line_is_vertical() {
    let e = op("|>", var("a"), var("g"));
    assert_eq!(render(&e, PrintStyle::ElmFormat), "a\n    |> g");
    assert_eq!(render(&e, PrintStyle::Compact), "a |> g");
}

#[test]
fn pretty_list_of_two_is_multiline() {
    let l = Expr::List(vec![sp(num(1)), sp(num(2))]);
    assert_eq!(render(&l, PrintStyle::ElmFormat), "[ 1\n, 2\n]");
    let one = Expr::List(vec![sp(num(1))]);
    assert_eq!(render(&one, PrintStyle::ElmFormat), "[ 1 ]");
}

#[test]
fn pretty_record_of_two_is_multiline() {
    let setter = |f: &str, n: i64| sp(RecordSetter { field: sp(f.to_string()), value: sp(num(n)), trailing_comment: None });
    let r = Expr::Record(vec![setter("a", 1), setter("b", 2)]);
    assert_eq!(render(&r, PrintStyle::ElmFormat), "{ a = 1\n, b = 2\n}");
    assert_eq!(render(&r, PrintStyle::Compact), "{ a = 1, b = 2 }");
}

#[test]
fn lambda_argument_keeps_its_parentheses() {
    let lam = Expr::Lambda { args: vec![sp(Pattern::Var("x".to_string()))], body: Box::new(sp(var("x"))) };
    let app = Expr::Application(vec![sp(var("f")), sp(lam)]);
    assert_eq!(render(&app, PrintStyle::Compact), "f (\\x -> x)");
    assert_eq!(render(&app, PrintStyle::ElmFormat), "f (\\x -> x)");
}

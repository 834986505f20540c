use lint_engine::ast::Function;
use lint_engine::ast::Module;
use lint_engine::ast::Node;
use lint_engine::diagnostics::Context;
use lint_engine::diagnostics::Span;
use lint_engine::rules::explicit_function_return_type::ExplicitFunctionReturnType;
use lint_engine::rules::LintRule;

fn line_col(src: &str, offset: u32) -> (usize, usize) {
    let mut line = 1usize;
    let mut col = 0usize;
    for (i, c) in src.char_indices() {
        if i as u32 == offset {
            break;
        }
        if c == '\n' {
            line += 1;
            col = 0;
        } else {
            col += 1;
        }
    }
    (line, col)
}

fn start_of(src: &str, pat: &str) -> u32 {
    src.find(pat).unwrap() as u32
}

fn leaf_fn(span: Span, has_return_type: bool) -> Node {
    Node::Function(Function { span, has_return_type, body: vec![] })
}

fn leaf_arrow(span: Span, has_return_type: bool) -> Node {
    Node::Arrow(Function { span, has_return_type, body: vec![] })
}

#[test]
fn explicit_function_return_type() {
    let src = "\nfunction foo() {\n  // pass\n}\n\nfunction fooTyped(): void {\n  // pass\n}\n\nconst bar = (a: string) => {\n  // pass\n}\n\nconst barTyped = (a: string): Promise<void> => {\n  // pass\n}\n\n      ";
    let filename = "explicit_function_return_type";

    let foo_start = start_of(src, "function foo");
    let foo_end = start_of(src, "}\n\nfunction fooTyped") + 1;
    let foo_typed_start = start_of(src, "function fooTyped");
    let foo_typed_end = start_of(src, "}\n\nconst bar") + 1;
    let bar_stmt_start = start_of(src, "const bar =");
    let bar_arrow_start = start_of(src, "(a: string) =>");
    let bar_end = start_of(src, "}\n\nconst barTyped") + 1;
    let bar_typed_stmt_start = start_of(src, "const barTyped =");
    let bar_typed_arrow_start = start_of(src, "(a: string): Promise");
    let bar_typed_end = start_of(src, "}\n\n      ") + 1;

    let module = Module {
        span: Span { start: 0, end: src.len() as u32 },
        body: vec![
            leaf_fn(Span { start: foo_start, end: foo_end }, false),
            leaf_fn(Span { start: foo_typed_start, end: foo_typed_end }, true),
            Node::Other(
                Span { start: bar_stmt_start, end: bar_end },
                vec![leaf_arrow(Span { start: bar_arrow_start, end: bar_end }, false)],
            ),
            Node::Other(
                Span { start: bar_typed_stmt_start, end: bar_typed_end },
                vec![leaf_arrow(
                    Span { start: bar_typed_arrow_start, end: bar_typed_end },
                    true,
                )],
            ),
        ],
    };

    let rule = ExplicitFunctionReturnType::new();
    let mut context = Context::new();
    rule.lint_module(&mut context, &module);

    let diagnostics = context.diagnostics();
    assert_eq!(diagnostics.len(), 1);
    let diagnostic = &diagnostics[0];
    assert_eq!(diagnostic.code, "explicitFunctionReturnType");
    assert_eq!(diagnostic.message, "Missing return type on function");
    assert_eq!(filename, "explicit_function_return_type");
    let (line, col) = line_col(src, diagnostic.span.start);
    assert_eq!(line, 2);
    assert_eq!(col, 0);
}

#[test]
fn missing_annotation_yields_one_diagnostic() {
    let fn_span = Span { start: 10, end: 50 };
    let body_span = Span { start: 25, end: 48 };
    let module = Module {
        span: Span { start: 0, end: 60 },
        body: vec![Node::Function(Function {
            span: fn_span,
            has_return_type: false,
            body: vec![Node::Other(body_span, vec![])],
        })],
    };
    let rule = ExplicitFunctionReturnType::new();
    let mut context = Context::new();
    rule.lint_module(&mut context, &module);
    let diagnostics = context.diagnostics();
    assert_eq!(diagnostics.len(), 1);
    assert_eq!(diagnostics[0].code, "explicitFunctionReturnType");
    assert_eq!(diagnostics[0].message, "Missing return type on function");
    // Anchored at the function's own declaration span, not the body's.
    assert_eq!(diagnostics[0].span, fn_span);
}

#[test]
fn annotated_function_yields_nothing() {
    let module = Module {
        span: Span { start: 0, end: 30 },
        body: vec![leaf_fn(Span { start: 0, end: 30 }, true)],
    };
    let rule = ExplicitFunctionReturnType::new();
    let mut context = Context::new();
    rule.lint_module(&mut context, &module);
    assert_eq!(context.diagnostics().len(), 0);
}

#[test]
fn two_fresh_runs_are_identical() {
    let module = Module {
        span: Span { start: 0, end: 100 },
        body: vec![
            leaf_fn(Span { start: 0, end: 20 }, false),
            leaf_fn(Span { start: 21, end: 40 }, true),
            Node::Other(
                Span { start: 41, end: 90 },
                vec![leaf_fn(Span { start: 50, end: 80 }, false)],
            ),
        ],
    };
    let rule = ExplicitFunctionReturnType::new();
    let mut first = Context::new();
    rule.lint_module(&mut first, &module);
    let rule_again = ExplicitFunctionReturnType::new();
    let mut second = Context::new();
    rule_again.lint_module(&mut second, &module);

    let first = first.into_diagnostics();
    let second = second.into_diagnostics();
    assert_eq!(first.len(), second.len());
    for i in 0..first.len() {
        assert_eq!(first[i].code, second[i].code);
        assert_eq!(first[i].message, second[i].message);
        assert_eq!(first[i].span, second[i].span);
    }
}

#[test]
fn diagnostics_come_in_source_order() {
    let module = Module {
        span: Span { start: 0, end: 200 },
        body: vec![
            Node::Function(Function {
                span: Span { start: 5, end: 60 },
                has_return_type: false,
                body: vec![leaf_fn(Span { start: 20, end: 50 }, false)],
            }),
            Node::Other(
                Span { start: 70, end: 120 },
                vec![leaf_fn(Span { start: 80, end: 110 }, false)],
            ),
            leaf_fn(Span { start: 130, end: 190 }, false),
        ],
    };
    let rule = ExplicitFunctionReturnType::new();
    let mut context = Context::new();
    rule.lint_module(&mut context, &module);
    let diagnostics = context.diagnostics();
    assert_eq!(diagnostics.len(), 4);
    let starts: Vec<u32> = diagnostics.iter().map(|d| d.span.start).collect();
    assert_eq!(starts, vec![5, 20, 80, 130]);
    for i in 1..starts.len() {
        assert!(starts[i - 1] <= starts[i]);
    }
}

#[test]
fn empty_module_yields_nothing() {
    let module = Module { span: Span { start: 0, end: 0 }, body: vec![] };
    let rule = ExplicitFunctionReturnType::new();
    let mut context = Context::new();
    rule.lint_module(&mut context, &module);
    assert_eq!(context.diagnostics().len(), 0);
}

#[test]
fn arrows_and_other_nodes_yield_nothing() {
    // Arrow functions reach the walker as a kind of their own; this rule
    // leaves them alone even when they lack a return-type annotation.
    let module = Module {
        span: Span { start: 0, end: 90 },
        body: vec![
            leaf_arrow(Span { start: 0, end: 20 }, false),
            Node::Other(
                Span { start: 21, end: 60 },
                vec![leaf_arrow(Span { start: 30, end: 50 }, true)],
            ),
            Node::Other(Span { start: 61, end: 80 }, vec![]),
        ],
    };
    let rule = ExplicitFunctionReturnType::new();
    let mut context = Context::new();
    rule.lint_module(&mut context, &module);
    assert_eq!(context.diagnostics().len(), 0);
}

#[test]
fn function_nested_in_arrow_is_still_reported() {
    let module = Module {
        span: Span { start: 0, end: 100 },
        body: vec![Node::Arrow(Function {
            span: Span { start: 0, end: 90 },
            has_return_type: false,
            body: vec![leaf_fn(Span { start: 40, end: 70 }, false)],
        })],
    };
    let rule = ExplicitFunctionReturnType::new();
    let mut context = Context::new();
    rule.lint_module(&mut context, &module);
    let diagnostics = context.diagnostics();
    assert_eq!(diagnostics.len(), 1);
    assert_eq!(diagnostics[0].span.start, 40);
}

#[test]
fn run_appends_after_existing_diagnostics() {
    let module = Module {
        span: Span { start: 0, end: 50 },
        body: vec![leaf_fn(Span { start: 7, end: 45 }, false)],
    };
    let rule = ExplicitFunctionReturnType::new();
    let mut context = Context::new();
    context.add_diagnostic(Span { start: 1, end: 2 }, "someEarlierRule", "kept as it was");
    rule.lint_module(&mut context, &module);
    let diagnostics = context.diagnostics();
    assert_eq!(diagnostics.len(), 2);
    assert_eq!(diagnostics[0].code, "someEarlierRule");
    assert_eq!(diagnostics[0].message, "kept as it was");
    assert_eq!(diagnostics[1].code, "explicitFunctionReturnType");
    assert_eq!(diagnostics[1].span.start, 7);
}

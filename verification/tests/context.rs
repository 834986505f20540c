use lint_engine::diagnostics::Context;
use lint_engine::diagnostics::Span;

#[test]
fn context_starts_empty() {
    let context = Context::new();
    assert_eq!(context.len(), 0);
    assert_eq!(context.diagnostics().len(), 0);
}

#[test]
fn context_appends_in_order() {
    let mut context = Context::new();
    context.add_diagnostic(Span { start: 3, end: 9 }, "firstRule", "first finding");
    context.add_diagnostic(Span { start: 12, end: 20 }, "secondRule", "second finding");
    assert_eq!(context.len(), 2);
    let diagnostics = context.diagnostics();
    assert_eq!(diagnostics[0].code, "firstRule");
    assert_eq!(diagnostics[0].message, "first finding");
    assert_eq!(diagnostics[0].span, Span { start: 3, end: 9 });
    assert_eq!(diagnostics[1].code, "secondRule");
    assert_eq!(diagnostics[1].message, "second finding");
    assert_eq!(diagnostics[1].span, Span { start: 12, end: 20 });
}

#[test]
fn context_take_hands_over_and_empties() {
    let mut context = Context::new();
    context.add_diagnostic(Span { start: 0, end: 4 }, "aRule", "a finding");
    let taken = context.take();
    assert_eq!(taken.len(), 1);
    assert_eq!(taken.diagnostics()[0].code, "aRule");
    assert_eq!(context.len(), 0);
}

#[test]
fn context_into_diagnostics_keeps_order() {
    let mut context = Context::new();
    context.add_diagnostic(Span { start: 1, end: 2 }, "one", "first");
    context.add_diagnostic(Span { start: 5, end: 6 }, "two", "second");
    let diagnostics = context.into_diagnostics();
    assert_eq!(diagnostics.len(), 2);
    assert_eq!(diagnostics[0].code, "one");
    assert_eq!(diagnostics[1].code, "two");
}

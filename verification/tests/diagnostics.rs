//! What is said about what is wrong.

use mwlc::diagnostics::Report;
use mwlc::syntax::{Span, SyntaxError};

fn render(report: &Report) -> String {
    let mut out = report.to_string();
    for problem in &report.problems {
        let (start, length) = problem.range();
        let message = problem.message().to_owned();
        let shown = miette::MietteDiagnostic::new(message.clone())
            .with_label(miette::LabeledSpan::new(Some(message), start, length));
        let shown = miette::Report::new(shown).with_source_code(miette::NamedSource::new(
            report.path.clone(),
            report.source.clone(),
        ));
        out.push('\n');
        miette::GraphicalReportHandler::new()
            .with_theme(miette::GraphicalTheme::unicode_nocolor())
            .render_report(&mut out, shown.as_ref())
            .expect("rendering a report cannot fail");
    }
    out
}

#[test]
fn one_error_becomes_one_labelled_problem() {
    let src = "fn main() { $ }";
    let errors = vec![SyntaxError::new(
        Span { start: 12, end: 13 },
        "unexpected character '$'",
    )];
    let report = Report::new("src/main.mwl", src, errors);
    assert_eq!(report.problems.len(), 1);

    let text = render(&report);
    assert!(text.contains("unexpected character '$'"), "{text}");
    assert!(text.contains("src/main.mwl"), "{text}");
    assert!(text.contains("fn main() { $ }"), "{text}");
}

#[test]
fn several_errors_are_reported_together() {
    let src = "fn a() { $ }\nfn b() { $ }";
    let errors = vec![
        SyntaxError::new(Span { start: 9, end: 10 }, "first"),
        SyntaxError::new(Span { start: 22, end: 23 }, "second"),
    ];
    let report = Report::new("x.mwl", src, errors);
    let text = render(&report);
    assert!(text.contains("first"), "{text}");
    assert!(text.contains("second"), "{text}");
    assert!(
        text.contains("2 problems"),
        "the summary counts them: {text}"
    );
}

#[test]
fn a_span_at_the_end_of_input_still_renders() {
    let src = "fn main() {";
    let errors = vec![SyntaxError::new(
        Span {
            start: src.len(),
            end: src.len(),
        },
        "unterminated block: expected '}'",
    )];
    let text = render(&Report::new("x.mwl", src, errors));
    assert!(text.contains("expected '}'"), "{text}");
}

#[test]
fn no_errors_means_no_report() {
    assert!(Report::of("x.mwl", "fn main() {}", Vec::new()).is_none());
}

#[test]
fn a_report_is_an_error_in_its_own_right() {
    fn build() -> Result<(), Report> {
        Err(Report::new(
            "x.mwl",
            "fn",
            vec![SyntaxError::new(Span { start: 0, end: 2 }, "boom")],
        ))
    }
    let err = build().unwrap_err();
    assert_eq!(err.to_string(), "1 problem in x.mwl");
}

#[test]
fn a_span_past_the_end_is_brought_back_to_it() {
    let report = Report::new(
        "x.mwl",
        "fn",
        vec![SyntaxError::new(Span { start: 9, end: 7 }, "boom")],
    );
    assert_eq!(report.problems[0].range(), (2, 0));
}

#[test]
fn an_error_says_which_byte_it_is_at() {
    let error = SyntaxError::new(Span { start: 12, end: 13 }, "boom");
    assert_eq!(error.to_string(), "boom (at byte 12)");
}

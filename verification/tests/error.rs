use bengal::error::{BengalError, DiagCtxt, PipelineError, Span};

fn make_error(msg: &str) -> BengalError {
    BengalError::CodegenError {
        message: msg.to_string(),
    }
}

#[test]
fn diag_ctx_starts_empty() {
    let diag = DiagCtxt::new();
    assert_eq!(diag.error_count(), 0);
    assert!(!diag.has_errors());
}

#[test]
fn diag_ctx_emit_increments_count() {
    let mut diag = DiagCtxt::new();
    diag.emit(make_error("e1"));
    assert_eq!(diag.error_count(), 1);
    assert!(diag.has_errors());
    diag.emit(make_error("e2"));
    assert_eq!(diag.error_count(), 2);
}

#[test]
fn diag_ctx_finish_ok_when_no_errors() {
    let diag = DiagCtxt::new();
    assert!(diag.finish().is_ok());
}

#[test]
fn diag_ctx_finish_err_when_has_errors() {
    let mut diag = DiagCtxt::new();
    diag.emit(make_error("boom"));
    let result = diag.finish();
    assert!(result.is_err());
    let errs = result.unwrap_err();
    assert_eq!(errs.len(), 1);
}

#[test]
fn diag_ctx_take_errors_leaves_empty() {
    let mut diag = DiagCtxt::new();
    diag.emit(make_error("a"));
    diag.emit(make_error("b"));
    let taken = diag.take_errors();
    assert_eq!(taken.len(), 2);
    assert_eq!(diag.error_count(), 0);
    assert!(!diag.has_errors());
}

#[test]
fn diag_ctx_emit_respects_limit() {
    let mut diag = DiagCtxt::new();
    for i in 0..128 {
        assert!(diag.emit(make_error(&format!("e{}", i))));
    }
    assert_eq!(diag.error_count(), 128);
    assert!(!diag.emit(make_error("overflow")));
    assert_eq!(diag.error_count(), 128);
}

#[test]
fn diag_ctx_default_has_limit_128() {
    let mut diag = DiagCtxt::default();
    for i in 0..128 {
        assert!(diag.emit(make_error(&format!("e{}", i))));
    }
    assert!(!diag.emit(make_error("overflow")));
}

#[test]
fn diag_ctx_take_errors_keeps_order_and_limit() {
    let mut diag = DiagCtxt::new();
    diag.emit(make_error("first"));
    diag.emit(make_error("second"));
    let taken = diag.take_errors();
    match (&taken[0], &taken[1]) {
        (BengalError::CodegenError { message: a }, BengalError::CodegenError { message: b }) => {
            assert_eq!(a, "first");
            assert_eq!(b, "second");
        }
        _ => panic!("unexpected errors"),
    }
    for i in 0..128 {
        assert!(diag.emit(make_error(&format!("again{}", i))));
    }
    assert!(!diag.emit(make_error("overflow")));
}

#[test]
fn pipeline_error_new_keeps_fields() {
    let err = BengalError::LexError {
        message: "bad".to_string(),
        span: Span { start: 1, end: 2 },
    };
    let p = PipelineError::new("lex", "main", Some("src"), err);
    assert_eq!(p.phase, "lex");
    assert_eq!(p.module, "main");
    assert_eq!(p.source_code.as_deref(), Some("src"));
    assert!(matches!(p.source_error, BengalError::LexError { .. }));
}

#[test]
fn pipeline_error_package_has_no_source() {
    let p = PipelineError::package("link", make_error("x"));
    assert_eq!(p.module, "<package>");
    assert!(p.source_code.is_none());
}

#[test]
fn errors_show_their_kind_and_message() {
    let span = Span { start: 1, end: 3 };
    assert_eq!(BengalError::LexError { message: "bad".to_string(), span }.to_string(), "Lex error: bad");
    assert_eq!(BengalError::ParseError { message: "p".to_string(), span }.to_string(), "Parse error: p");
    assert_eq!(
        BengalError::SemanticError { message: "s".to_string(), span, help: None }.to_string(),
        "Semantic error: s"
    );
    assert_eq!(BengalError::LoweringError { message: "l".to_string(), span: None }.to_string(), "Lowering error: l");
    assert_eq!(BengalError::CodegenError { message: "c".to_string() }.to_string(), "Codegen error: c");
    assert_eq!(BengalError::PackageError { message: "k".to_string() }.to_string(), "Package error: k");
    assert_eq!(BengalError::InterfaceError { message: "i".to_string() }.to_string(), "Interface error: i");
    let pe = PipelineError::new("lower", "main", None, BengalError::CodegenError { message: "x".to_string() });
    assert_eq!(pe.to_string(), "lower error in main: Codegen error: x");
}

#[test]
fn diagnostic_parts_per_variant() {
    let span = Span { start: 2, end: 5 };
    let p = BengalError::SemanticError { message: "m".to_string(), span, help: Some("h".to_string()) }
        .diagnostic_parts();
    assert_eq!((p.message.as_str(), p.span, p.label.as_str(), p.help.as_deref()), ("m", Some(span), "here", Some("h")));
    let p = BengalError::LoweringError { message: "m".to_string(), span: None }.diagnostic_parts();
    assert_eq!((p.span, p.label.as_str()), (None, ""));
    let p = BengalError::LoweringError { message: "m".to_string(), span: Some(span) }.diagnostic_parts();
    assert_eq!((p.span, p.label.as_str()), (Some(span), "here"));
    let p = BengalError::PackageError { message: "m".to_string() }.diagnostic_parts();
    assert_eq!((p.message.as_str(), p.span, p.label.as_str(), p.help), ("m", None, "", None));
    let p = BengalError::LexError { message: "x".to_string(), span }.diagnostic_parts();
    assert_eq!((p.span, p.label.as_str(), p.help), (Some(span), "here", None));
}

use logholizon_core::error::AppError;
use logholizon_core::formula::{dependencies, lex, validate, validate_syntax};

fn message<T>(r: Result<T, AppError>) -> String {
    match r {
        Err(AppError::BadRequest(m)) => m,
        Err(other) => panic!("expected a bad request, got {other:?}"),
        Ok(_) => panic!("expected a bad request"),
    }
}

#[test]
fn lexical_errors_name_their_cause() {
    assert_eq!(message(lex("{amount")), "unclosed field reference");
    assert_eq!(message(lex("{bad name}")), "invalid field reference");
    assert_eq!(message(lex("'open")), "unclosed string");
    assert_eq!(message(lex("1.2.3")), "invalid number");
    assert_eq!(message(lex("a & b")), "expected &&");
    assert_eq!(message(lex("a | b")), "expected ||");
    assert_eq!(message(lex("a # b")), "unsupported character: #");
    assert_eq!(message(lex(&"1+".repeat(3000))), "formula expression is too long");
}

#[test]
fn syntax_errors_name_their_cause() {
    assert_eq!(message(validate_syntax("(1 + 2")), "unbalanced parentheses");
    assert_eq!(message(validate_syntax("1 + 2)")), "unbalanced parentheses");
    assert_eq!(message(validate_syntax("foo + 1")), "unknown identifier: foo");
    assert!(validate_syntax("foo(1) + IF(true, 1, 2)").is_ok());
}

#[test]
fn unknown_fields_are_reported_in_reference_order() {
    let fields = vec!["a".to_string()];
    assert_eq!(message(validate("{c} + {a} + {b}", &fields)), "unknown formula field: c");
    assert_eq!(message(validate("{a} + {b} + {c}", &fields)), "unknown formula field: b");
    assert!(validate("{a} * 2", &fields).is_ok());
    assert_eq!(dependencies("{b} + {a} + {b}").unwrap(), vec!["b", "a"]);
}

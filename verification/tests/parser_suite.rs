use alt::ast::Call;
use alt::ast::Float;
use alt::ast::Record;
use alt::ast::RecordOrCall;
use alt::ast::Value;
use alt::lexer::tokenize;
use alt::lexer::TokenKind;
use alt::parser::parse;
use alt::parser::parse_call;
use alt::parser::parse_multiple_records;
use alt::parser::parse_multiple_values;
use alt::parser::parse_record;
use alt::parser::parse_value;
use alt::parser::ErrorTypes;

#[test]
fn parsing_number_value() {
    let tokens = tokenize("42").unwrap();

    let (value, _) = parse_value(&tokens, 0).unwrap();
    assert_eq!(value, Value::Number(42));
}

#[test]
fn parsing_string_value() {
    let tokens = tokenize("\"some\"").unwrap();
    let (value, _) = parse_value(&tokens, 0).unwrap();
    assert_eq!(value, Value::String("some".to_string()));
}

#[test]
fn parsing_float_value() {
    let tokens = tokenize("4.20").unwrap();
    let (value, _) = parse_value(&tokens, 0).unwrap();
    assert_eq!(
        value,
        Value::Float(Float { whole: 4, frac: 2, decimals: 1 })
    );
}

#[test]
fn parsing_value_call() {
    let tokens = tokenize("@call 2").unwrap();
    let (value, _) = parse_value(&tokens, 0).unwrap();
    assert_eq!(
        value,
        Value::Call(Call {
            function: "call".to_string(),
            value: Box::new(Value::Number(2)),
        },)
    );
}

#[test]
fn test_parse_record() {
    let tokens = tokenize("x = 2").unwrap();

    let (record, _) = parse_record(&tokens, 0).unwrap();

    assert_eq!(
        record,
        Record {
            id: "x".to_string(),
            value: Value::Number(2),
        }
        .into()
    );
}

#[test]
fn test_multiple_values() {
    let tokens = tokenize("2 \"asd\"").unwrap();
    println!("{tokens:?}");
    let (array, _) = parse_multiple_values(&tokens, 0).unwrap();

    assert_eq!(
        array,
        vec![Value::Number(2), Value::String("asd".to_string())],
    );
}

#[test]
fn parse_array() {
    let tokens = tokenize("x = [1 2];").unwrap();
    println!("{tokens:?}");
    let (array, _) = parse_record(&tokens, 0).unwrap();

    let RecordOrCall::Record(a) = array else {
        panic!("expected a record");
    };

    assert_eq!(
        a.value,
        Value::Array(vec![Value::Number(1), Value::Number(2),],),
    );
}

#[test]
fn float_keeps_leading_zero() {
    let tokens = tokenize("4.03").unwrap();
    let (value, _) = parse_value(&tokens, 0).unwrap();
    assert_eq!(
        value,
        Value::Float(Float { whole: 4, frac: 3, decimals: 2 })
    );
    assert_ne!(
        value,
        Value::Float(Float { whole: 4, frac: 3, decimals: 1 })
    );
}

#[test]
fn float_trailing_zeros_normalize() {
    let (a, _) = parse_value(&tokenize("4.20").unwrap(), 0).unwrap();
    let (b, _) = parse_value(&tokenize("4.2").unwrap(), 0).unwrap();
    assert_eq!(a, b);
}

#[test]
fn parse_document_root_is_object() {
    let tokens = tokenize("x = 2\ny = \"z\"").unwrap();
    let root = parse(&tokens).unwrap();
    assert_eq!(
        root,
        Value::ObjectWithCalls(vec![
            Record { id: "x".to_string(), value: Value::Number(2) }.into(),
            Record { id: "y".to_string(), value: Value::String("z".to_string()) }.into(),
        ])
    );
}

#[test]
fn parse_record_call_entry() {
    let tokens = tokenize("#check 1").unwrap();
    let root = parse(&tokens).unwrap();
    assert_eq!(
        root,
        Value::ObjectWithCalls(vec![Call {
            function: "check".to_string(),
            value: Box::new(Value::Number(1)),
        }
        .into()])
    );
}

#[test]
fn parse_nested_object() {
    let tokens = tokenize("a = {b = 2}").unwrap();
    let root = parse(&tokens).unwrap();
    assert_eq!(
        root,
        Value::ObjectWithCalls(vec![Record {
            id: "a".to_string(),
            value: Value::ObjectWithCalls(vec![Record {
                id: "b".to_string(),
                value: Value::Number(2),
            }
            .into()]),
        }
        .into()])
    );
}

#[test]
fn parse_call_consumes_identifier_and_value() {
    let tokens = tokenize("f \"arg\"").unwrap();
    let (call, next) = parse_call(&tokens, 0).unwrap();
    assert_eq!(call.function, "f".to_string());
    assert_eq!(*call.value, Value::String("arg".to_string()));
    assert_eq!(next, 2);
}

#[test]
fn parse_error_expected_assign() {
    let tokens = tokenize("x 2").unwrap();
    let err = parse(&tokens).unwrap_err();
    assert_eq!(err.error, ErrorTypes::ExpectedAssign);
    assert_eq!(err.pos.start, 2);
}

#[test]
fn parse_error_expected_value() {
    let tokens = tokenize("x = }").unwrap();
    let err = parse(&tokens).unwrap_err();
    assert_eq!(err.error, ErrorTypes::ExpectedValue);
    assert_eq!(err.pos.start, 4);
}

#[test]
fn parse_error_end_of_input() {
    let tokens = tokenize("x =").unwrap();
    let err = parse(&tokens).unwrap_err();
    assert_eq!(err.error, ErrorTypes::ExpectedValue);
}

#[test]
fn parse_error_expected_number_after_dot() {
    let tokens = tokenize("x = 4.y").unwrap();
    let err = parse(&tokens).unwrap_err();
    assert_eq!(err.error, ErrorTypes::ExpectedNumber);
}

#[test]
fn parse_error_unclosed_brace() {
    let tokens = tokenize("x = {a = 1").unwrap();
    let err = parse(&tokens).unwrap_err();
    assert_eq!(err.error, ErrorTypes::EndOfInput);
}

#[test]
fn parse_error_entry_must_start_with_identifier() {
    let tokens = tokenize("2 = 3").unwrap();
    let err = parse(&tokens).unwrap_err();
    assert_eq!(err.error, ErrorTypes::ExpectedIdentifier);
}

#[test]
fn parse_entries_need_no_separator_for_closer() {
    let tokens = tokenize("a = 1}").unwrap();
    let (entries, next) =
        parse_multiple_records(&tokens, 0, &TokenKind::RightBrace).unwrap();
    assert_eq!(entries.len(), 1);
    assert_eq!(next, 4);
}

#[test]
fn duplicate_record_ids_both_survive() {
    let tokens = tokenize("x = 1\nx = 2").unwrap();
    let root = parse(&tokens).unwrap();
    assert_eq!(
        root,
        Value::ObjectWithCalls(vec![
            Record { id: "x".to_string(), value: Value::Number(1) }.into(),
            Record { id: "x".to_string(), value: Value::Number(2) }.into(),
        ])
    );
}

#[test]
fn parse_error_dot_at_end_of_input() {
    let tokens = tokenize("x = 4.").unwrap();
    let err = parse(&tokens).unwrap_err();
    assert_eq!(err.error, ErrorTypes::ExpectedNumber);
}

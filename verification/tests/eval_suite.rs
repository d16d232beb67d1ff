use alt::ast::Call;
use alt::ast::Record;
use alt::ast::RecordOrCall;
use alt::ast::Typed;
use alt::ast::Value;
use alt::eval::eval;
use alt::eval::Error;
use alt::eval::Evaluator;
use alt::lexer::tokenize;
use alt::parser::parse;

/// Rejects every call, like a pair of empty dispatch tables.
struct NoFunctions;

impl Evaluator for NoFunctions {
    type HostError = ();
    type StateV = ();
    type HostErrorV = ();

    fn value_function_eval(&mut self, call: &Call) -> Result<Value, Error<()>> {
        Err(Error::InvalidFunction(call.function.clone()))
    }

    fn record_function_eval(&mut self, call: &Call) -> Result<Option<Record>, Error<()>> {
        Err(Error::InvalidFunction(call.function.clone()))
    }
}

/// Knows one value-function, `call`, registered as the identity, and one
/// record-function, `drop`, that removes its entry.
struct Identity;

impl Evaluator for Identity {
    type HostError = ();
    type StateV = ();
    type HostErrorV = ();

    fn value_function_eval(&mut self, call: &Call) -> Result<Value, Error<()>> {
        if call.function.as_str() == "call" {
            Ok((*call.value).clone())
        } else {
            Err(Error::InvalidFunction(call.function.clone()))
        }
    }

    fn record_function_eval(&mut self, call: &Call) -> Result<Option<Record>, Error<()>> {
        if call.function.as_str() == "drop" {
            Ok(None)
        } else {
            Err(Error::InvalidFunction(call.function.clone()))
        }
    }
}

/// A stateful evaluator: `#set` flips a flag, `@get` reads it.
struct Flag {
    on: bool,
}

impl Evaluator for Flag {
    type HostError = ();
    type StateV = ();
    type HostErrorV = ();

    fn value_function_eval(&mut self, call: &Call) -> Result<Value, Error<()>> {
        if call.function.as_str() == "get" {
            Ok(Value::Number(if self.on { 1 } else { 0 }))
        } else {
            Err(Error::InvalidFunction(call.function.clone()))
        }
    }

    fn record_function_eval(&mut self, call: &Call) -> Result<Option<Record>, Error<()>> {
        if call.function.as_str() == "set" {
            self.on = true;
            Ok(None)
        } else {
            Err(Error::InvalidFunction(call.function.clone()))
        }
    }
}

#[test]
fn eval_literal() {
    let root = Value::Number(25);

    let result = eval(&root, &mut NoFunctions).unwrap();
    assert_eq!(root, result);
}

#[test]
fn eval_call() {
    let value = Value::Number(2);
    let root = Value::Call(Call {
        function: "call".to_string(),
        value: Box::new(value.clone()),
    });
    let result = eval(&root, &mut Identity).unwrap();

    assert_eq!(result, value);
}

#[test]
fn eval_call_inside_object() {
    let value = Value::Number(2);
    let root = Value::ObjectWithCalls(vec![Record {
        id: "some".to_string(),
        value: Value::Call(Call {
            function: "call".to_string(),
            value: Box::new(value.clone()),
        }),
    }
    .into()]);

    let result = eval(&root, &mut Identity).unwrap();

    assert_eq!(
        result,
        Value::Object(vec![Record {
            id: "some".to_string(),
            value: value
        }
        .into()])
    );
}

#[test]
fn literal_tree_round_trips() {
    let root = Value::ObjectWithCalls(vec![
        Record {
            id: "xs".to_string(),
            value: Value::Array(vec![
                Value::Number(1),
                Value::String("a".to_string()),
                Value::Float(alt::ast::Float { whole: 4, frac: 2, decimals: 1 }),
            ]),
        }
        .into(),
        Record {
            id: "nested".to_string(),
            value: Value::Object(vec![Record {
                id: "k".to_string(),
                value: Value::Number(7),
            }]),
        }
        .into(),
    ]);
    let result = eval(&root, &mut NoFunctions).unwrap();
    assert_eq!(
        result,
        Value::Object(vec![
            Record {
                id: "xs".to_string(),
                value: Value::Array(vec![
                    Value::Number(1),
                    Value::String("a".to_string()),
                    Value::Float(alt::ast::Float { whole: 4, frac: 2, decimals: 1 }),
                ]),
            },
            Record {
                id: "nested".to_string(),
                value: Value::Object(vec![Record {
                    id: "k".to_string(),
                    value: Value::Number(7),
                }]),
            },
        ])
    );
}

#[test]
fn record_call_filtering_drops_entry() {
    let tokens = tokenize("#drop 1; kept = 2").unwrap();
    let root = parse(&tokens).unwrap();
    let Value::ObjectWithCalls(ref entries) = root else {
        panic!("expected an object root");
    };
    assert_eq!(entries.len(), 2);

    let result = eval(&root, &mut Identity).unwrap();
    assert_eq!(
        result,
        Value::Object(vec![Record {
            id: "kept".to_string(),
            value: Value::Number(2),
        }])
    );
}

#[test]
fn unknown_function_fails() {
    let tokens = tokenize("x = @missing 1").unwrap();
    let root = parse(&tokens).unwrap();
    let result = eval(&root, &mut NoFunctions);
    assert_eq!(result, Err(Error::InvalidFunction("missing".to_string())));
}

#[test]
fn stateful_directive_ordering() {
    // The record before the #set directive sees the old state, the record
    // after it sees the new state.
    let tokens = tokenize("a = @get 0\n#set 1\nb = @get 0").unwrap();
    let root = parse(&tokens).unwrap();
    let mut ev = Flag { on: false };
    let result = eval(&root, &mut ev).unwrap();
    assert_eq!(
        result,
        Value::Object(vec![
            Record { id: "a".to_string(), value: Value::Number(0) },
            Record { id: "b".to_string(), value: Value::Number(1) },
        ])
    );
    assert!(ev.on);
}

#[test]
fn array_order_preserved() {
    let tokens = tokenize("xs = [1 \"a\" 2]").unwrap();
    let root = parse(&tokens).unwrap();
    let result = eval(&root, &mut NoFunctions).unwrap();
    assert_eq!(
        result,
        Value::Object(vec![Record {
            id: "xs".to_string(),
            value: Value::Array(vec![
                Value::Number(1),
                Value::String("a".to_string()),
                Value::Number(2),
            ]),
        }])
    );
}

#[test]
fn typed_kind_preserved() {
    let root = Value::Typed(Typed {
        kind: "tag".to_string(),
        value: Box::new(Value::Call(Call {
            function: "call".to_string(),
            value: Box::new(Value::Number(9)),
        })),
    });
    let result = eval(&root, &mut Identity).unwrap();
    assert_eq!(
        result,
        Value::Typed(Typed {
            kind: "tag".to_string(),
            value: Box::new(Value::Number(9)),
        })
    );
}

#[test]
fn first_error_aborts_the_walk() {
    let tokens = tokenize("a = @call 1\nb = @missing 2\nc = @call 3").unwrap();
    let root = parse(&tokens).unwrap();
    let result = eval(&root, &mut Identity);
    assert_eq!(result, Err(Error::InvalidFunction("missing".to_string())));
}

#[test]
fn call_argument_evaluated_before_dispatch() {
    // The argument of the outer call is itself a call, resolved first.
    let root = Value::Call(Call {
        function: "call".to_string(),
        value: Box::new(Value::Call(Call {
            function: "call".to_string(),
            value: Box::new(Value::Number(5)),
        })),
    });
    let result = eval(&root, &mut Identity).unwrap();
    assert_eq!(result, Value::Number(5));
}

#[test]
fn record_or_call_from_conversions() {
    let rec = Record { id: "a".to_string(), value: Value::Number(1) };
    let as_entry: RecordOrCall = rec.into();
    assert!(matches!(as_entry, RecordOrCall::Record(_)));
    let call = Call { function: "f".to_string(), value: Box::new(Value::Number(1)) };
    let as_entry: RecordOrCall = call.into();
    assert!(matches!(as_entry, RecordOrCall::Call(_)));
}

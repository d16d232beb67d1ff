use alt::ast::Call;
use alt::ast::Float;
use alt::ast::Record;
use alt::ast::Typed;
use alt::ast::Value;
use alt::eval::eval;
use alt::eval::EvalExt;
use alt::eval::Error as EvalError;
use alt::goodies::Error;
use alt::goodies::Evaluator;
use alt::lexer::tokenize;
use alt::parser::parse;

fn run(source: &str) -> Result<Value, EvalError<Error>> {
    let mut evaluator: Evaluator = Default::default();
    let tokens = tokenize(source).unwrap();
    let parsed = parse(&tokens).unwrap();
    eval(&parsed, &mut evaluator)
}

#[test]
fn meta_eval() {
    let mut evaluator: Evaluator = Default::default();

    let tokens = tokenize("#meta-eval {value = {std_url = @std_url \"localhost\"}}").unwrap();
    let parsed = parse(&tokens).unwrap();
    let evaluated = evaluator.eval(&parsed).unwrap();
    println!("{evaluated:?}");
}

#[test]
fn meta_eval_directive_leaves_no_trace() {
    let result = run("#meta-eval {value = {}}\nx = 1").unwrap();
    assert_eq!(
        result,
        Value::Object(vec![Record { id: "x".to_string(), value: Value::Number(1) }])
    );
}

#[test]
fn meta_lang_accepts_own_version() {
    let result = run("#meta-lang 1.0\nx = 2").unwrap();
    assert_eq!(
        result,
        Value::Object(vec![Record { id: "x".to_string(), value: Value::Number(2) }])
    );
}

#[test]
fn meta_lang_rejects_other_version() {
    let result = run("#meta-lang 2.0\nx = 2");
    assert_eq!(
        result,
        Err(EvalError::Eval(Error::VersionMismatch(Float {
            whole: 2,
            frac: 0,
            decimals: 1,
        })))
    );
}

#[test]
fn meta_lang_rejects_non_float() {
    let result = run("#meta-lang \"1.0\"");
    assert_eq!(
        result,
        Err(EvalError::Eval(Error::InvalidData(Value::String(
            "1.0".to_string()
        ))))
    );
}

#[test]
fn std_url_tags_string() {
    let result = run("home = @std_url \"localhost\"").unwrap();
    assert_eq!(
        result,
        Value::Object(vec![Record {
            id: "home".to_string(),
            value: Value::Typed(Typed {
                kind: "std_url".to_string(),
                value: Box::new(Value::String("localhost".to_string())),
            }),
        }])
    );
}

#[test]
fn std_url_rejects_non_string() {
    let result = run("home = @std_url 80");
    assert_eq!(
        result,
        Err(EvalError::Eval(Error::InvalidUrl(Value::Number(80))))
    );
}

#[test]
fn unknown_value_function_is_prefixed() {
    let result = run("x = @nope 1");
    assert_eq!(
        result,
        Err(EvalError::InvalidFunction("@nope".to_string()))
    );
}

#[test]
fn unknown_record_function_is_prefixed() {
    let result = run("#nope 1");
    assert_eq!(
        result,
        Err(EvalError::InvalidFunction("#nope".to_string()))
    );
}

#[test]
fn meta_eval_rejects_non_object() {
    let result = run("#meta-eval 3");
    assert_eq!(
        result,
        Err(EvalError::Eval(Error::ExpectedObject(Value::Number(3))))
    );
}

#[test]
fn meta_eval_rejects_unknown_entry() {
    let result = run("#meta-eval {other = {}}");
    assert_eq!(
        result,
        Err(EvalError::Eval(Error::InvalidEntry("other".to_string())))
    );
}

#[test]
fn version_is_one_point_zero() {
    assert_eq!(alt::version(), Float { whole: 1, frac: 0, decimals: 1 });
}

#[test]
fn dispatch_works_through_call_values() {
    let mut evaluator: Evaluator = Default::default();
    let root = Value::Call(Call {
        function: "std_url".to_string(),
        value: Box::new(Value::String("a".to_string())),
    });
    let result = eval(&root, &mut evaluator).unwrap();
    assert_eq!(
        result,
        Value::Typed(Typed {
            kind: "std_url".to_string(),
            value: Box::new(Value::String("a".to_string())),
        })
    );
}

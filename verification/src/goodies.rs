//! A ready-made evaluator: the `#meta-lang` version pragma, the
//! `#meta-eval` directive that replaces the evaluator's two function
//! tables for the rest of the pass, and the `@std_url` tag.

use vstd::prelude::*;
use vstd::string::StrSliceExecFns;
use vstd::string::StringExecFns;

use crate::ast::records_view;
use crate::ast::record_view;
use crate::ast::Call;
use crate::ast::CallV;
use crate::ast::FloatV;
use crate::ast::Record;
use crate::ast::RecordV;
use crate::ast::Typed;
use crate::ast::TypedV;
use crate::ast::Value;
use crate::ast::ValueV;
use crate::eval;
use crate::spec_version;

verus! {

/// What this evaluator's own functions can reject: a document requiring
/// another language version, a `@std_url` argument that is not a string,
/// a `#meta-eval` argument that is not an object or holds an entry other
/// than `value` or `record`, a call to an unknown function, or a
/// `#meta-lang` argument that is not a float.
#[derive(Debug, PartialEq)]
pub enum Error {
    VersionMismatch(crate::ast::Float),
    InvalidUrl(Value),
    ExpectedObject(Value),
    InvalidEntry(String),
    InvalidFunction(String),
    InvalidData(Value),
}

/// Ghost model of [`Error`].
#[verifier::ext_equal]
pub enum ErrorV {
    VersionMismatch(FloatV),
    InvalidUrl(ValueV),
    ExpectedObject(ValueV),
    InvalidEntry(Seq<char>),
    InvalidFunction(Seq<char>),
    InvalidData(ValueV),
}

impl View for Error {
    type V = ErrorV;

    open spec fn view(&self) -> ErrorV {
        match self {
            Error::VersionMismatch(f) => ErrorV::VersionMismatch(f@),
            Error::InvalidUrl(v) => ErrorV::InvalidUrl(v@),
            Error::ExpectedObject(v) => ErrorV::ExpectedObject(v@),
            Error::InvalidEntry(s) => ErrorV::InvalidEntry(s@),
            Error::InvalidFunction(s) => ErrorV::InvalidFunction(s@),
            Error::InvalidData(v) => ErrorV::InvalidData(v@),
        }
    }
}

/// The evaluation error this evaluator's dispatch produces.
pub type EvalError = eval::Error<Error>;

/// What `#meta-lang` does: accept exactly this interpreter's version
/// (producing no record), reject any other float, reject anything that is
/// not a float.
pub open spec fn meta_lang_spec(v: ValueV) -> Result<Option<RecordV>, ErrorV> {
    match v {
        ValueV::Float(f) => if f == spec_version() {
            Ok(None)
        } else {
            Err(ErrorV::VersionMismatch(f))
        },
        _ => Err(ErrorV::InvalidData(v)),
    }
}

/// Checks a required language version against this interpreter's own.
fn meta_lang(value: &Value) -> (r: Result<Option<Record>, EvalError>)
    ensures
        match (r, meta_lang_spec(value@)) {
            (Ok(o), Ok(m)) => o is None && m is None,
            (Err(eval::Error::Eval(ge)), Err(me)) => ge@ == me,
            _ => false,
        },
{
    match value {
        Value::Float(required) => {
            let own = crate::version();
            if required.whole == own.whole && required.frac == own.frac && required.decimals
                == own.decimals {
                Ok(None)
            } else {
                Err(eval::Error::Eval(Error::VersionMismatch(*required)))
            }
        },
        _ => Err(eval::Error::Eval(Error::InvalidData(value.clone()))),
    }
}

/// What `@std_url` does: wrap a string in a `Typed` tag named `std_url`,
/// and reject anything that is not a string.
pub open spec fn url_spec(v: ValueV) -> Result<ValueV, ErrorV> {
    match v {
        ValueV::Str(s) => Ok(
            ValueV::Typed(TypedV { kind: "std_url"@, value: Box::new(ValueV::Str(s)) }),
        ),
        _ => Err(ErrorV::InvalidUrl(v)),
    }
}

/// Tags a string value as a URL.
fn url(value: &Value) -> (r: Result<Value, EvalError>)
    ensures
        match (r, url_spec(value@)) {
            (Ok(v), Ok(m)) => v@ == m,
            (Err(eval::Error::Eval(ge)), Err(me)) => ge@ == me,
            _ => false,
        },
{
    match value {
        Value::String(_) => Ok(
            Value::Typed(
                Typed { kind: "std_url".to_owned(), value: Box::new(value.clone()) },
            ),
        ),
        _ => Err(eval::Error::Eval(Error::InvalidUrl(value.clone()))),
    }
}

/// Ghost model of [`Evaluator`]: its two function tables.
#[verifier::ext_equal]
pub struct EvaluatorV {
    pub value_functions: Seq<RecordV>,
    pub record_functions: Seq<RecordV>,
}

/// An evaluator with two replaceable function tables.
///
/// Its dispatch knows `#meta-lang`, `#meta-eval` and `@std_url`; any other
/// name fails with `InvalidFunction` ([`eval::Error::InvalidFunction`]),
/// the name prefixed with `#` or `@`. The tables start empty and are
/// replaced by `#meta-eval` directives; they record what a document
/// installed, for the host to inspect after the pass.
pub struct Evaluator {
    value_functions: Vec<Record>,
    record_functions: Vec<Record>,
}

impl View for Evaluator {
    type V = EvaluatorV;

    closed spec fn view(&self) -> EvaluatorV {
        EvaluatorV {
            value_functions: records_view(self.value_functions@),
            record_functions: records_view(self.record_functions@),
        }
    }
}

impl Default for Evaluator {
    /// An evaluator whose tables are empty.
    fn default() -> (r: Self)
        ensures
            r@.value_functions.len() == 0,
            r@.record_functions.len() == 0,
    {
        let r = Evaluator { value_functions: Vec::new(), record_functions: Vec::new() };
        proof {
            assert(r@.value_functions =~= Seq::<RecordV>::empty());
            assert(r@.record_functions =~= Seq::<RecordV>::empty());
        }
        r
    }
}

/// What one `#meta-eval` entry list does to the tables, entry by entry:
/// a `value` entry whose value is an object replaces the value-function
/// table, a `record` entry likewise the record-function table (either is
/// ignored if its value is not an object), and any other id stops the
/// walk with `InvalidEntry`. Returns the state reached and the error that
/// stopped the walk, if one did.
pub open spec fn meta_eval_entries(st: EvaluatorV, rs: Seq<RecordV>) -> (
    EvaluatorV,
    Option<ErrorV>,
)
    decreases rs.len(),
{
    if rs.len() == 0 {
        (st, None)
    } else {
        let r0 = rs[0];
        if r0.id == "value"@ {
            let st2 = match r0.value {
                ValueV::Object(data) => EvaluatorV { value_functions: data, ..st },
                _ => st,
            };
            meta_eval_entries(st2, rs.drop_first())
        } else if r0.id == "record"@ {
            let st2 = match r0.value {
                ValueV::Object(data) => EvaluatorV { record_functions: data, ..st },
                _ => st,
            };
            meta_eval_entries(st2, rs.drop_first())
        } else {
            (st, Some(ErrorV::InvalidEntry(r0.id)))
        }
    }
}

/// What `#meta-eval` does: walk the entries of its object argument as
/// [`meta_eval_entries`] says; anything but an object is rejected with
/// `ExpectedObject`, leaving the tables unchanged.
pub open spec fn meta_eval_spec(st: EvaluatorV, v: ValueV) -> (EvaluatorV, Option<ErrorV>) {
    match v {
        ValueV::Object(rs) => meta_eval_entries(st, rs),
        _ => (st, Some(ErrorV::ExpectedObject(v))),
    }
}

/// Compares a string's characters with a literal's.
fn str_is(s: &String, lit: &str) -> (r: bool)
    ensures
        r == (s@ == lit@),
{
    let a = s.as_str();
    let alen = a.unicode_len();
    let blen = lit.unicode_len();
    if alen != blen {
        assert(a@.len() != lit@.len());
        return false;
    }
    let mut i: usize = 0;
    while i < alen
        invariant
            i <= alen,
            alen == a@.len(),
            alen == lit@.len(),
            a@ == s@,
            forall|j: int| 0 <= j < i ==> a@[j] == lit@[j],
        decreases alen - i,
    {
        let ca = a.get_char(i);
        let cb = lit.get_char(i);
        if ca != cb {
            return false;
        }
        i = i + 1;
    }
    proof {
        assert(s@ =~= lit@);
    }
    true
}

/// Copies a record list; the copy has the same model as the original.
fn clone_records(v: &Vec<Record>) -> (r: Vec<Record>)
    ensures
        records_view(r@) == records_view(v@),
{
    let mut out: Vec<Record> = Vec::new();
    let mut i: usize = 0;
    while i < v.len()
        invariant
            i <= v.len(),
            out@.len() == i as int,
            forall|j: int| 0 <= j < i ==> out@[j]@ == v@[j]@,
        decreases v.len() - i,
    {
        out.push(v[i].clone());
        i = i + 1;
    }
    proof {
        assert(records_view(out@) =~= records_view(v@));
    }
    out
}

impl Evaluator {
    /// Replaces the function tables as a `#meta-eval` directive's object
    /// argument directs; see [`meta_eval_spec`].
    #[verifier::loop_isolation(false)]
    fn meta_eval(&mut self, value: &Value) -> (r: Result<Option<Record>, EvalError>)
        ensures
            ({
                let out = meta_eval_spec(old(self)@, value@);
                &&& final(self)@ == out.0
                &&& match (r, out.1) {
                    (Ok(o), None) => o is None,
                    (Err(eval::Error::Eval(ge)), Some(me)) => ge@ == me,
                    _ => false,
                }
            }),
    {
        match value {
            Value::Object(object) => {
                let ghost rs = value@->Object_0;
                proof {
                    assert(rs.skip(0) =~= rs);
                }
                let mut i: usize = 0;
                while i < object.len()
                    invariant
                        i <= object.len(),
                        rs == records_view(object@),
                        rs.len() == object@.len(),
                        meta_eval_entries(old(self)@, rs) == meta_eval_entries(
                            self@,
                            rs.skip(i as int),
                        ),
                    decreases object.len() - i,
                {
                    let record = &object[i];
                    proof {
                        assert(rs.skip(i as int)[0] == record_view(object@[i as int]));
                        assert(rs.skip(i as int).drop_first() =~= rs.skip(i as int + 1));
                    }
                    if str_is(&record.id, "value") {
                        if let Value::Object(data) = &record.value {
                            self.value_functions = clone_records(data);
                        }
                    } else if str_is(&record.id, "record") {
                        if let Value::Object(data) = &record.value {
                            self.record_functions = clone_records(data);
                        }
                    } else {
                        proof {
                            assert(rs.skip(i as int).len() == rs.len() - i);
                            assert(meta_eval_entries(self@, rs.skip(i as int)) == (
                                self@,
                                Some(ErrorV::InvalidEntry(record.id@)),
                            ));
                        }
                        return Err(
                            eval::Error::Eval(Error::InvalidEntry(record.id.clone())),
                        );
                    }
                    i = i + 1;
                }
                proof {
                    assert(rs.skip(object@.len() as int) =~= Seq::<RecordV>::empty());
                }
                Ok(None)
            },
            _ => Err(eval::Error::Eval(Error::ExpectedObject(value.clone()))),
        }
    }
}

impl eval::Evaluator for Evaluator {
    type HostError = Error;

    type StateV = EvaluatorV;

    type HostErrorV = ErrorV;

    closed spec fn state(&self) -> EvaluatorV {
        self@
    }

    open spec fn host_err_view(e: &Error) -> ErrorV {
        e@
    }

    /// Value dispatch: only `std_url`; any other name fails with
    /// `InvalidFunction` of the name prefixed with `@`. The tables play no
    /// part in it, and it never changes them.
    open spec fn vf_spec(pre: EvaluatorV, call: CallV) -> (
        EvaluatorV,
        Result<ValueV, eval::ErrorV<ErrorV>>,
    ) {
        if call.function == "std_url"@ {
            match url_spec(*call.value) {
                Ok(v) => (pre, Ok(v)),
                Err(e) => (pre, Err(eval::ErrorV::Eval(e))),
            }
        } else {
            (pre, Err(eval::ErrorV::InvalidFunction("@"@ + call.function)))
        }
    }

    /// Record dispatch: `meta-lang` checks the version and `meta-eval`
    /// replaces the tables; any other name fails with `InvalidFunction`
    /// of the name prefixed with `#`, changing nothing.
    open spec fn rf_spec(pre: EvaluatorV, call: CallV) -> (
        EvaluatorV,
        Result<Option<RecordV>, eval::ErrorV<ErrorV>>,
    ) {
        if call.function == "meta-lang"@ {
            match meta_lang_spec(*call.value) {
                Ok(o) => (pre, Ok(o)),
                Err(e) => (pre, Err(eval::ErrorV::Eval(e))),
            }
        } else if call.function == "meta-eval"@ {
            let out = meta_eval_spec(pre, *call.value);
            match out.1 {
                None => (out.0, Ok(None)),
                Some(e) => (out.0, Err(eval::ErrorV::Eval(e))),
            }
        } else {
            (pre, Err(eval::ErrorV::InvalidFunction("#"@ + call.function)))
        }
    }

    fn record_function_eval(&mut self, call: &Call) -> (r: Result<Option<Record>, EvalError>) {
        if str_is(&call.function, "meta-lang") {
            meta_lang(&call.value)
        } else if str_is(&call.function, "meta-eval") {
            self.meta_eval(&call.value)
        } else {
            Err(eval::Error::InvalidFunction("#".to_owned().concat(call.function.as_str())))
        }
    }

    fn value_function_eval(&mut self, call: &Call) -> (r: Result<Value, EvalError>) {
        if str_is(&call.function, "std_url") {
            url(&call.value)
        } else {
            Err(eval::Error::InvalidFunction("@".to_owned().concat(call.function.as_str())))
        }
    }
}

/// Directive ordering: directives are applied strictly left to right.
/// Entries before a table update run under the tables as they were, and
/// the state a prefix of entries installs is exactly the state under
/// which the remaining entries run — an earlier entry is never affected
/// by a later update.
pub proof fn lemma_meta_eval_entries_ordered(st: EvaluatorV, rs1: Seq<RecordV>, rs2: Seq<RecordV>)
    requires
        meta_eval_entries(st, rs1).1 is None,
    ensures
        meta_eval_entries(st, rs1 + rs2) == meta_eval_entries(meta_eval_entries(st, rs1).0, rs2),
    decreases rs1.len(),
{
    if rs1.len() == 0 {
        assert(rs1 + rs2 =~= rs2);
    } else {
        let r0 = rs1[0];
        assert((rs1 + rs2)[0] == r0);
        assert((rs1 + rs2).drop_first() =~= rs1.drop_first() + rs2);
        if r0.id == "value"@ {
            let st2 = match r0.value {
                ValueV::Object(data) => EvaluatorV { value_functions: data, ..st },
                _ => st,
            };
            lemma_meta_eval_entries_ordered(st2, rs1.drop_first(), rs2);
        } else if r0.id == "record"@ {
            let st2 = match r0.value {
                ValueV::Object(data) => EvaluatorV { record_functions: data, ..st },
                _ => st,
            };
            lemma_meta_eval_entries_ordered(st2, rs1.drop_first(), rs2);
        } else {
        }
    }
}

} // verus!
//! The tree representation shared by the parser and the evaluator.
//!
//! Each executable type has a ghost model (`ValueV`, `RecordV`, ...) built
//! from `int`, `Seq<char>` and `Seq`; contracts throughout the crate speak
//! about those models through the `View` trait (`v@`).

use vstd::prelude::*;

verus! {

/// A decimal number with a fractional part, kept exactly as parsed.
///
/// The value denoted is `whole + frac / 10^decimals`. The representation is
/// canonical when `decimals >= 1` and `frac` keeps no trailing zero digit
/// (so `4.20` and `4.2` are the same `Float`, while `4.03` keeps
/// `decimals == 2` and stays distinct from `4.3`). A host that needs a
/// machine float converts with `whole as f32 + frac as f32 * 10f32^-decimals`.
#[derive(Debug, Clone, Copy, PartialEq, Eq, Structural)]
pub struct Float {
    pub whole: i32,
    pub frac: i32,
    pub decimals: u32,
}

/// Ghost model of [`Float`].
#[verifier::ext_equal]
pub struct FloatV {
    pub whole: int,
    pub frac: int,
    pub decimals: int,
}

impl View for Float {
    type V = FloatV;

    open spec fn view(&self) -> FloatV {
        FloatV { whole: self.whole as int, frac: self.frac as int, decimals: self.decimals as int }
    }
}

/// A value tree. `ObjectWithCalls` is what the parser produces (entries may
/// still be pending `#` calls); `Object` is the call-free form the evaluator
/// emits. Every node owns its children outright.
#[derive(Debug, PartialEq)]
pub enum Value {
    Number(i32),
    Float(Float),
    String(String),
    ObjectWithCalls(Vec<RecordOrCall>),
    Object(Vec<Record>),
    Array(Vec<Value>),
    Call(Call),
    Typed(Typed),
}

/// A transparent semantic tag on a value: evaluation keeps the tag,
/// projection to an external representation drops it.
#[derive(Debug, PartialEq)]
pub struct Typed {
    pub kind: String,
    pub value: Box<Value>,
}

/// A pending invocation of a host-registered function on an argument tree.
#[derive(Debug, PartialEq)]
pub struct Call {
    pub function: String,
    pub value: Box<Value>,
}

/// A named binding `id = value` inside an object.
#[derive(Debug, PartialEq)]
pub struct Record {
    pub id: String,
    pub value: Value,
}

/// One entry of an object body: a plain binding or a `#` call directive.
#[derive(Debug, PartialEq)]
pub enum RecordOrCall {
    Record(Record),
    Call(Call),
}

/// Ghost model of [`Value`].
#[verifier::ext_equal]
pub enum ValueV {
    Number(int),
    Float(FloatV),
    Str(Seq<char>),
    ObjectWithCalls(Seq<EntryV>),
    Object(Seq<RecordV>),
    Array(Seq<ValueV>),
    Call(CallV),
    Typed(TypedV),
}

/// Ghost model of [`Typed`].
#[verifier::ext_equal]
pub struct TypedV {
    pub kind: Seq<char>,
    pub value: Box<ValueV>,
}

/// Ghost model of [`Call`].
#[verifier::ext_equal]
pub struct CallV {
    pub function: Seq<char>,
    pub value: Box<ValueV>,
}

/// Ghost model of [`Record`].
#[verifier::ext_equal]
pub struct RecordV {
    pub id: Seq<char>,
    pub value: ValueV,
}

/// Ghost model of [`RecordOrCall`].
#[verifier::ext_equal]
pub enum EntryV {
    Record(RecordV),
    Call(CallV),
}

pub open spec fn value_view(v: Value) -> ValueV
    decreases v,
{
    match v {
        Value::Number(n) => ValueV::Number(n as int),
        Value::Float(f) => ValueV::Float(f@),
        Value::String(s) => ValueV::Str(s@),
        Value::ObjectWithCalls(entries) => {
            proof {
                assert(decreases_to!(entries => entries@));
            }
            ValueV::ObjectWithCalls(entries_view(entries@))
        },
        Value::Object(records) => {
            proof {
                assert(decreases_to!(records => records@));
            }
            ValueV::Object(records_view(records@))
        },
        Value::Array(elems) => {
            proof {
                assert(decreases_to!(elems => elems@));
            }
            ValueV::Array(values_view(elems@))
        },
        Value::Call(c) => ValueV::Call(call_view(c)),
        Value::Typed(t) => ValueV::Typed(typed_view(t)),
    }
}

pub open spec fn values_view(s: Seq<Value>) -> Seq<ValueV>
    decreases s,
{
    Seq::new(
        s.len(),
        |i: int|
            if 0 <= i < s.len() {
                proof {
                    assert(decreases_to!(s => s[i]));
                }
                value_view(s[i])
            } else {
                arbitrary()
            },
    )
}

pub open spec fn records_view(s: Seq<Record>) -> Seq<RecordV>
    decreases s,
{
    Seq::new(
        s.len(),
        |i: int|
            if 0 <= i < s.len() {
                proof {
                    assert(decreases_to!(s => s[i]));
                }
                record_view(s[i])
            } else {
                arbitrary()
            },
    )
}

pub open spec fn entries_view(s: Seq<RecordOrCall>) -> Seq<EntryV>
    decreases s,
{
    Seq::new(
        s.len(),
        |i: int|
            if 0 <= i < s.len() {
                proof {
                    assert(decreases_to!(s => s[i]));
                }
                entry_view(s[i])
            } else {
                arbitrary()
            },
    )
}

pub open spec fn record_view(r: Record) -> RecordV
    decreases r,
{
    RecordV { id: r.id@, value: value_view(r.value) }
}

pub open spec fn call_view(c: Call) -> CallV
    decreases c,
{
    CallV { function: c.function@, value: Box::new(value_view(*c.value)) }
}

pub open spec fn typed_view(t: Typed) -> TypedV
    decreases t,
{
    TypedV { kind: t.kind@, value: Box::new(value_view(*t.value)) }
}

pub open spec fn entry_view(e: RecordOrCall) -> EntryV
    decreases e,
{
    match e {
        RecordOrCall::Record(r) => EntryV::Record(record_view(r)),
        RecordOrCall::Call(c) => EntryV::Call(call_view(c)),
    }
}

impl View for Value {
    type V = ValueV;

    open spec fn view(&self) -> ValueV {
        value_view(*self)
    }
}

impl View for Record {
    type V = RecordV;

    open spec fn view(&self) -> RecordV {
        record_view(*self)
    }
}

impl View for Call {
    type V = CallV;

    open spec fn view(&self) -> CallV {
        call_view(*self)
    }
}

impl View for Typed {
    type V = TypedV;

    open spec fn view(&self) -> TypedV {
        typed_view(*self)
    }
}

impl View for RecordOrCall {
    type V = EntryV;

    open spec fn view(&self) -> EntryV {
        entry_view(*self)
    }
}

impl Clone for Value {
    /// A deep copy: the copy has the same model as the original.
    #[verifier::loop_isolation(false)]
    fn clone(&self) -> (r: Self)
        ensures
            r@ == self@,
        decreases *self,
    {
        match self {
            Value::Number(n) => Value::Number(*n),
            Value::Float(f) => Value::Float(*f),
            Value::String(s) => Value::String(s.clone()),
            Value::ObjectWithCalls(entries) => {
                let mut out: Vec<RecordOrCall> = Vec::new();
                let mut i: usize = 0;
                while i < entries.len()
                    invariant
                        i <= entries.len(),
                        out@.len() == i as int,
                        forall|j: int| 0 <= j < i ==> out@[j]@ == entries@[j]@,
                    decreases entries.len() - i,
                {
                    proof {
                        assert(decreases_to!(*entries => entries@));
                        assert(decreases_to!(entries@ => entries@[i as int]));
                    }
                    out.push(entries[i].clone());
                    i = i + 1;
                }
                proof {
                    assert(entries_view(out@) =~= entries_view(entries@));
                }
                Value::ObjectWithCalls(out)
            },
            Value::Object(records) => {
                let mut out: Vec<Record> = Vec::new();
                let mut i: usize = 0;
                while i < records.len()
                    invariant
                        i <= records.len(),
                        out@.len() == i as int,
                        forall|j: int| 0 <= j < i ==> out@[j]@ == records@[j]@,
                    decreases records.len() - i,
                {
                    proof {
                        assert(decreases_to!(*records => records@));
                        assert(decreases_to!(records@ => records@[i as int]));
                    }
                    out.push(records[i].clone());
                    i = i + 1;
                }
                proof {
                    assert(records_view(out@) =~= records_view(records@));
                }
                Value::Object(out)
            },
            Value::Array(elems) => {
                let mut out: Vec<Value> = Vec::new();
                let mut i: usize = 0;
                while i < elems.len()
                    invariant
                        i <= elems.len(),
                        out@.len() == i as int,
                        forall|j: int| 0 <= j < i ==> out@[j]@ == elems@[j]@,
                    decreases elems.len() - i,
                {
                    proof {
                        assert(decreases_to!(*elems => elems@));
                        assert(decreases_to!(elems@ => elems@[i as int]));
                    }
                    out.push(elems[i].clone());
                    i = i + 1;
                }
                proof {
                    assert(values_view(out@) =~= values_view(elems@));
                }
                Value::Array(out)
            },
            Value::Call(c) => Value::Call(c.clone()),
            Value::Typed(t) => Value::Typed(t.clone()),
        }
    }
}

impl Clone for Call {
    /// A deep copy: the copy has the same model as the original.
    fn clone(&self) -> (r: Self)
        ensures
            r@ == self@,
        decreases *self,
    {
        Call { function: self.function.clone(), value: Box::new((*self.value).clone()) }
    }
}

impl Clone for Typed {
    /// A deep copy: the copy has the same model as the original.
    fn clone(&self) -> (r: Self)
        ensures
            r@ == self@,
        decreases *self,
    {
        Typed { kind: self.kind.clone(), value: Box::new((*self.value).clone()) }
    }
}

impl Clone for Record {
    /// A deep copy: the copy has the same model as the original.
    fn clone(&self) -> (r: Self)
        ensures
            r@ == self@,
        decreases *self,
    {
        Record { id: self.id.clone(), value: self.value.clone() }
    }
}

impl Clone for RecordOrCall {
    /// A deep copy: the copy has the same model as the original.
    fn clone(&self) -> (r: Self)
        ensures
            r@ == self@,
        decreases *self,
    {
        match self {
            RecordOrCall::Record(r) => RecordOrCall::Record(r.clone()),
            RecordOrCall::Call(c) => RecordOrCall::Call(c.clone()),
        }
    }
}

impl vstd::std_specs::convert::FromSpecImpl<Record> for RecordOrCall {
    open spec fn obeys_from_spec() -> bool {
        true
    }

    open spec fn from_spec(t: Record) -> RecordOrCall {
        RecordOrCall::Record(t)
    }
}

impl From<Record> for RecordOrCall {
    fn from(value: Record) -> (r: Self) {
        RecordOrCall::Record(value)
    }
}

impl vstd::std_specs::convert::FromSpecImpl<Call> for RecordOrCall {
    open spec fn obeys_from_spec() -> bool {
        true
    }

    open spec fn from_spec(t: Call) -> RecordOrCall {
        RecordOrCall::Call(t)
    }
}

impl From<Call> for RecordOrCall {
    fn from(value: Call) -> (r: Self) {
        RecordOrCall::Call(value)
    }
}

} // verus!

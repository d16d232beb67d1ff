//! The evaluator: a single tree walk that resolves every pending call
//! through a host-supplied dispatch contract, producing a call-free tree of
//! the same shape, or failing fast on the first error.
//!
//! The dispatch contract is the [`Evaluator`] trait: the host supplies a
//! value-function lookup (for `@name` calls) and a record-function lookup
//! (for `#name` directives). Both take `&mut self`, so a directive may
//! reconfigure the evaluator for everything that follows it in the same
//! left-to-right pass; source order is semantically significant. The trait
//! also carries ghost transition functions (`vf_spec`, `rf_spec`) saying
//! what the two lookups do to the evaluator's modelled state; [`eval`] is
//! verified to compute exactly [`spec_eval`], the mathematical one-pass
//! evaluation over those transitions.

use vstd::prelude::*;

use crate::ast::entries_view;
use crate::ast::entry_view;
use crate::ast::record_view;
use crate::ast::records_view;
use crate::ast::value_view;
use crate::ast::values_view;
use crate::ast::Call;
use crate::ast::CallV;
use crate::ast::EntryV;
use crate::ast::Record;
use crate::ast::RecordOrCall;
use crate::ast::RecordV;
use crate::ast::Typed;
use crate::ast::TypedV;
use crate::ast::Value;
use crate::ast::ValueV;

verus! {

/// An evaluation failure: a call to a function name the host does not
/// know, or an error the host function itself reported (`H` is the host's
/// own error type).
#[derive(Debug, PartialEq)]
pub enum Error<H> {
    InvalidFunction(String),
    Eval(H),
}

/// Ghost model of [`Error`], over a ghost model `HV` of the host's error
/// type.
#[verifier::ext_equal]
pub enum ErrorV<HV> {
    InvalidFunction(Seq<char>),
    Eval(HV),
}

/// The host-supplied dispatch contract.
///
/// `value_function_eval` resolves a `@name` call to a replacement value;
/// `record_function_eval` resolves a `#name` directive to a replacement
/// record, or to `None` to drop the entry. Either may mutate the
/// evaluator's own state, and fails with [`Error::InvalidFunction`] for a
/// name it does not know.
///
/// The ghost side models the evaluator: `StateV` and `state` give the
/// state's model, `HostErrorV` and `host_err_view` the host error's, and
/// `vf_spec` / `rf_spec` say exactly what each lookup returns and how it
/// changes the state. The two executable lookups must implement their
/// transition functions; [`eval`] is then exactly [`spec_eval`].
pub trait Evaluator: Sized {
    /// The host's own error type.
    type HostError;

    /// Ghost model of the evaluator's state.
    type StateV;

    /// Ghost model of the host's error type.
    type HostErrorV;

    /// The model of this evaluator's current state. The default leaves it
    /// unspecified; a verified implementor overrides it.
    open spec fn state(&self) -> Self::StateV {
        arbitrary()
    }

    /// The model of a host error. The default leaves it unspecified; a
    /// verified implementor overrides it.
    open spec fn host_err_view(e: &Self::HostError) -> Self::HostErrorV {
        arbitrary()
    }

    /// What `value_function_eval` does: the state it leaves and the result
    /// it returns, as a function of the state it found and the call. The
    /// default leaves it unspecified; a verified implementor overrides it.
    open spec fn vf_spec(pre: Self::StateV, call: CallV) -> (
        Self::StateV,
        Result<ValueV, ErrorV<Self::HostErrorV>>,
    ) {
        arbitrary()
    }

    /// What `record_function_eval` does, as [`Evaluator::vf_spec`]. The
    /// default leaves it unspecified; a verified implementor overrides it.
    open spec fn rf_spec(pre: Self::StateV, call: CallV) -> (
        Self::StateV,
        Result<Option<RecordV>, ErrorV<Self::HostErrorV>>,
    ) {
        arbitrary()
    }

    fn value_function_eval(&mut self, call: &Call) -> (r: Result<Value, Error<Self::HostError>>)
        ensures
            ({
                let out = Self::vf_spec(old(self).state(), call@);
                &&& final(self).state() == out.0
                &&& match (r, out.1) {
                    (Ok(v), Ok(m)) => v@ == m,
                    (Err(Error::InvalidFunction(n)), Err(ErrorV::InvalidFunction(nv))) => n@
                        == nv,
                    (Err(Error::Eval(h)), Err(ErrorV::Eval(hv))) => Self::host_err_view(&h)
                        == hv,
                    _ => false,
                }
            }),
    ;

    fn record_function_eval(&mut self, call: &Call) -> (r: Result<
        Option<Record>,
        Error<Self::HostError>,
    >)
        ensures
            ({
                let out = Self::rf_spec(old(self).state(), call@);
                &&& final(self).state() == out.0
                &&& match (r, out.1) {
                    (Ok(None), Ok(m)) => m is None,
                    (Ok(Some(rec)), Ok(m)) => m matches Some(rm) && rec@ == rm,
                    (Err(Error::InvalidFunction(n)), Err(ErrorV::InvalidFunction(nv))) => n@
                        == nv,
                    (Err(Error::Eval(h)), Err(ErrorV::Eval(hv))) => Self::host_err_view(&h)
                        == hv,
                    _ => false,
                }
            }),
    ;
}

/// The error `e` denotes the model error `m`.
pub open spec fn err_rel<E: Evaluator>(e: Error<E::HostError>, m: ErrorV<E::HostErrorV>) -> bool {
    match (e, m) {
        (Error::InvalidFunction(n), ErrorV::InvalidFunction(nv)) => n@ == nv,
        (Error::Eval(h), ErrorV::Eval(hv)) => E::host_err_view(&h) == hv,
        _ => false,
    }
}

/// One-pass evaluation of a value, as mathematics: the state reached and
/// the result, from the state found. Literals evaluate to themselves; an
/// already evaluated `Object` is returned whole; a `Typed` tag is kept
/// around its evaluated content; arrays and object entries go element by
/// element, left to right, threading the state; a call first evaluates its
/// argument, then applies the host's transition to it.
pub open spec fn spec_eval<E: Evaluator>(st: E::StateV, v: ValueV) -> (
    E::StateV,
    Result<ValueV, ErrorV<E::HostErrorV>>,
)
    decreases v,
{
    match v {
        ValueV::Call(c) => {
            let (st1, argres) = spec_eval::<E>(st, *c.value);
            match argres {
                Ok(av) => E::vf_spec(st1, CallV { function: c.function, value: Box::new(av) }),
                Err(e) => (st1, Err(e)),
            }
        },
        ValueV::ObjectWithCalls(entries) => {
            let (st1, res) = spec_eval_entries::<E>(st, entries);
            match res {
                Ok(rs) => (st1, Ok(ValueV::Object(rs))),
                Err(e) => (st1, Err(e)),
            }
        },
        ValueV::Array(es) => {
            let (st1, res) = spec_eval_elems::<E>(st, es);
            match res {
                Ok(vs) => (st1, Ok(ValueV::Array(vs))),
                Err(e) => (st1, Err(e)),
            }
        },
        ValueV::Typed(t) => {
            let (st1, res) = spec_eval::<E>(st, *t.value);
            match res {
                Ok(inner) => (
                    st1,
                    Ok(ValueV::Typed(TypedV { kind: t.kind, value: Box::new(inner) })),
                ),
                Err(e) => (st1, Err(e)),
            }
        },
        _ => (st, Ok(v)),
    }
}

/// Evaluates object entries left to right: a plain record's value is
/// evaluated and the record kept; a `#` call's argument is evaluated, the
/// host's record transition applied, and its `Some` record kept or its
/// `None` dropped without a trace. The first error stops the walk.
pub open spec fn spec_eval_entries<E: Evaluator>(st: E::StateV, entries: Seq<EntryV>) -> (
    E::StateV,
    Result<Seq<RecordV>, ErrorV<E::HostErrorV>>,
)
    decreases entries,
{
    if entries.len() == 0 {
        (st, Ok(Seq::empty()))
    } else {
        let tail = entries.drop_first();
        match entries[0] {
            EntryV::Record(rv) => {
                let (st1, res) = spec_eval::<E>(st, rv.value);
                match res {
                    Ok(ev) => {
                        let (st2, rest) = spec_eval_entries::<E>(st1, tail);
                        match rest {
                            Ok(rs) => (st2, Ok(seq![RecordV { id: rv.id, value: ev }] + rs)),
                            Err(e) => (st2, Err(e)),
                        }
                    },
                    Err(e) => (st1, Err(e)),
                }
            },
            EntryV::Call(c) => {
                let (st1, argres) = spec_eval::<E>(st, *c.value);
                match argres {
                    Ok(av) => {
                        let (st2, res) = E::rf_spec(
                            st1,
                            CallV { function: c.function, value: Box::new(av) },
                        );
                        match res {
                            Ok(opt) => {
                                let (st3, rest) = spec_eval_entries::<E>(st2, tail);
                                match rest {
                                    Ok(rs) => match opt {
                                        Some(rm) => (st3, Ok(seq![rm] + rs)),
                                        None => (st3, Ok(rs)),
                                    },
                                    Err(e) => (st3, Err(e)),
                                }
                            },
                            Err(e) => (st2, Err(e)),
                        }
                    },
                    Err(e) => (st1, Err(e)),
                }
            },
        }
    }
}

/// Evaluates array elements left to right, threading the state; the first
/// error stops the walk.
pub open spec fn spec_eval_elems<E: Evaluator>(st: E::StateV, es: Seq<ValueV>) -> (
    E::StateV,
    Result<Seq<ValueV>, ErrorV<E::HostErrorV>>,
)
    decreases es,
{
    if es.len() == 0 {
        (st, Ok(Seq::empty()))
    } else {
        let (st1, res) = spec_eval::<E>(st, es[0]);
        match res {
            Ok(ev) => {
                let (st2, rest) = spec_eval_elems::<E>(st1, es.drop_first());
                match rest {
                    Ok(vs) => (st2, Ok(seq![ev] + vs)),
                    Err(e) => (st2, Err(e)),
                }
            },
            Err(e) => (st1, Err(e)),
        }
    }
}

/// The result `r` denotes the model outcome `m`.
pub open spec fn result_rel<E: Evaluator>(
    r: Result<Value, Error<E::HostError>>,
    m: Result<ValueV, ErrorV<E::HostErrorV>>,
) -> bool {
    match (r, m) {
        (Ok(v), Ok(mv)) => v@ == mv,
        (Err(e), Err(me)) => err_rel::<E>(e, me),
        _ => false,
    }
}

/// Holds when the tree contains no pending call: no `Call` node and no
/// `ObjectWithCalls` entry other than plain records. Evaluating such a
/// tree needs no dispatch at all. An `Object` node counts as call-free as
/// a whole: evaluation returns it unchanged, without walking into it.
pub open spec fn call_free(v: ValueV) -> bool
    decreases v,
{
    match v {
        ValueV::Number(_) => true,
        ValueV::Float(_) => true,
        ValueV::Str(_) => true,
        ValueV::Object(_) => true,
        ValueV::ObjectWithCalls(entries) => forall|i: int|
            0 <= i < entries.len() ==> (#[trigger] entries[i] matches EntryV::Record(r)
                && call_free(r.value)),
        ValueV::Array(es) => forall|i: int| 0 <= i < es.len() ==> call_free(#[trigger] es[i]),
        ValueV::Call(_) => false,
        ValueV::Typed(t) => call_free(*t.value),
    }
}

/// What evaluating a call-free tree yields: the identical tree, except
/// that every `ObjectWithCalls` of plain records becomes the `Object` of
/// the same records, in the same order.
pub open spec fn evaluated(v: ValueV) -> ValueV
    decreases v,
{
    match v {
        ValueV::ObjectWithCalls(entries) => ValueV::Object(
            Seq::new(
                entries.len(),
                |i: int|
                    if 0 <= i < entries.len() {
                        proof {
                            assert(decreases_to!(entries => entries[i]));
                        }
                        match entries[i] {
                            EntryV::Record(r) => RecordV {
                                id: r.id,
                                value: evaluated(r.value),
                            },
                            EntryV::Call(_) => arbitrary(),
                        }
                    } else {
                        arbitrary()
                    },
            ),
        ),
        ValueV::Array(es) => ValueV::Array(
            Seq::new(
                es.len(),
                |i: int|
                    if 0 <= i < es.len() {
                        proof {
                            assert(decreases_to!(es => es[i]));
                        }
                        evaluated(es[i])
                    } else {
                        arbitrary()
                    },
            ),
        ),
        ValueV::Typed(t) => ValueV::Typed(
            TypedV { kind: t.kind, value: Box::new(evaluated(*t.value)) },
        ),
        _ => v,
    }
}

/// A literal tree: only `Number`, `Float`, `Str`, `Array`, `Object` and
/// `Typed` nodes, with no pending call anywhere.
pub open spec fn literal(v: ValueV) -> bool
    decreases v,
{
    match v {
        ValueV::Number(_) => true,
        ValueV::Float(_) => true,
        ValueV::Str(_) => true,
        ValueV::Object(rs) => forall|i: int| 0 <= i < rs.len() ==> literal(#[trigger] rs[i].value),
        ValueV::ObjectWithCalls(_) => false,
        ValueV::Array(es) => forall|i: int| 0 <= i < es.len() ==> literal(#[trigger] es[i]),
        ValueV::Call(_) => false,
        ValueV::Typed(t) => literal(*t.value),
    }
}

/// Round trip of literals: a literal tree is call-free and evaluates to a
/// structurally identical tree.
pub proof fn lemma_literal_round_trip(v: ValueV)
    requires
        literal(v),
    ensures
        call_free(v),
        evaluated(v) == v,
    decreases v,
{
    match v {
        ValueV::Array(es) => {
            assert forall|i: int| 0 <= i < es.len() implies call_free(#[trigger] es[i])
                && evaluated(es[i]) == es[i] by {
                lemma_literal_round_trip(es[i]);
            }
            assert(evaluated(v)->Array_0 =~= es);
        },
        ValueV::Typed(t) => {
            lemma_literal_round_trip(*t.value);
            assert(evaluated(v)->Typed_0 =~= t);
        },
        _ => {},
    }
}

/// Evaluating a call-free tree invokes no dispatch: whatever the state and
/// whatever the host's transitions, it succeeds with [`evaluated`] of the
/// tree and leaves the state untouched. With
/// [`lemma_literal_round_trip`], a literal tree — numbers, floats,
/// strings, arrays and objects of such — evaluates to a structurally
/// identical tree.
pub proof fn lemma_call_free_eval<E: Evaluator>(st: E::StateV, v: ValueV)
    requires
        call_free(v),
    ensures
        spec_eval::<E>(st, v) == (st, Ok::<ValueV, ErrorV<E::HostErrorV>>(evaluated(v))),
    decreases v, 1int,
{
    match v {
        ValueV::ObjectWithCalls(entries) => {
            lemma_call_free_eval_entries::<E>(st, entries);
            assert(spec_eval_entries::<E>(st, entries).1->Ok_0 =~= evaluated(v)->Object_0);
        },
        ValueV::Array(es) => {
            lemma_call_free_eval_elems::<E>(st, es);
            assert(spec_eval_elems::<E>(st, es).1->Ok_0 =~= evaluated(v)->Array_0);
        },
        ValueV::Typed(t) => {
            lemma_call_free_eval::<E>(st, *t.value);
        },
        _ => {},
    }
}

proof fn lemma_call_free_eval_entries<E: Evaluator>(st: E::StateV, entries: Seq<EntryV>)
    requires
        forall|i: int|
            0 <= i < entries.len() ==> (#[trigger] entries[i] matches EntryV::Record(r)
                && call_free(r.value)),
    ensures
        ({
            let out = spec_eval_entries::<E>(st, entries);
            &&& out.0 == st
            &&& out.1 is Ok
            &&& out.1->Ok_0.len() == entries.len()
            &&& forall|i: int|
                0 <= i < entries.len() ==> #[trigger] out.1->Ok_0[i] == (RecordV {
                    id: entries[i]->Record_0.id,
                    value: evaluated(entries[i]->Record_0.value),
                })
        }),
    decreases entries, 0int,
{
    if entries.len() > 0 {
        assert(entries[0] matches EntryV::Record(r) && call_free(r.value));
        let rv = entries[0]->Record_0;
        lemma_call_free_eval::<E>(st, rv.value);
        assert(forall|i: int|
            0 <= i < entries.drop_first().len() ==> entries.drop_first()[i] == entries[i + 1]);
        lemma_call_free_eval_entries::<E>(st, entries.drop_first());
    }
}

proof fn lemma_call_free_eval_elems<E: Evaluator>(st: E::StateV, es: Seq<ValueV>)
    requires
        forall|i: int| 0 <= i < es.len() ==> call_free(#[trigger] es[i]),
    ensures
        ({
            let out = spec_eval_elems::<E>(st, es);
            &&& out.0 == st
            &&& out.1 is Ok
            &&& out.1->Ok_0.len() == es.len()
            &&& forall|i: int| 0 <= i < es.len() ==> #[trigger] out.1->Ok_0[i] == evaluated(es[i])
        }),
    decreases es, 0int,
{
    if es.len() > 0 {
        lemma_call_free_eval::<E>(st, es[0]);
        assert(forall|i: int|
            0 <= i < es.drop_first().len() ==> es.drop_first()[i] == es[i + 1]);
        lemma_call_free_eval_elems::<E>(st, es.drop_first());
    }
}

/// Prepends already produced records to the outcome of evaluating the
/// remaining entries.
pub open spec fn prepend_records<E: Evaluator>(
    done: Seq<RecordV>,
    rest: (E::StateV, Result<Seq<RecordV>, ErrorV<E::HostErrorV>>),
) -> (E::StateV, Result<Seq<RecordV>, ErrorV<E::HostErrorV>>) {
    match rest.1 {
        Ok(rs) => (rest.0, Ok(done + rs)),
        Err(e) => (rest.0, Err(e)),
    }
}

/// Entries are evaluated strictly left to right: what a prefix of entries
/// produced is kept exactly as it was, and the remaining entries run under
/// exactly the state the prefix left behind. A directive's state change
/// therefore reaches every entry after it in source order and no entry
/// before it.
pub proof fn lemma_entries_ordered<E: Evaluator>(
    st: E::StateV,
    first: Seq<EntryV>,
    rest: Seq<EntryV>,
)
    requires
        spec_eval_entries::<E>(st, first).1 is Ok,
    ensures
        spec_eval_entries::<E>(st, first + rest) == prepend_records::<E>(
            spec_eval_entries::<E>(st, first).1->Ok_0,
            spec_eval_entries::<E>(spec_eval_entries::<E>(st, first).0, rest),
        ),
    decreases first.len(),
{
    if first.len() == 0 {
        assert(first + rest =~= rest);
        let out = spec_eval_entries::<E>(st, rest);
        match out.1 {
            Ok(rs) => {
                assert(Seq::<RecordV>::empty() + rs =~= rs);
            },
            Err(_) => {},
        }
    } else {
        let all = first + rest;
        assert(all[0] == first[0]);
        assert(all.drop_first() =~= first.drop_first() + rest);
        match first[0] {
            EntryV::Record(rv) => {
                let (st1, res) = spec_eval::<E>(st, rv.value);
                if res is Ok {
                    lemma_entries_ordered::<E>(st1, first.drop_first(), rest);
                    lemma_prepend_assoc::<E>(
                        seq![RecordV { id: rv.id, value: res->Ok_0 }],
                        spec_eval_entries::<E>(st1, first.drop_first()).1->Ok_0,
                        spec_eval_entries::<E>(
                            spec_eval_entries::<E>(st1, first.drop_first()).0,
                            rest,
                        ),
                    );
                }
            },
            EntryV::Call(c) => {
                let (st1, argres) = spec_eval::<E>(st, *c.value);
                if argres is Ok {
                    let (st2, res) = E::rf_spec(
                        st1,
                        CallV { function: c.function, value: Box::new(argres->Ok_0) },
                    );
                    match res {
                        Ok(opt) => {
                            lemma_entries_ordered::<E>(st2, first.drop_first(), rest);
                            match opt {
                                Some(rm) => {
                                    lemma_prepend_assoc::<E>(
                                        seq![rm],
                                        spec_eval_entries::<E>(st2, first.drop_first()).1->Ok_0,
                                        spec_eval_entries::<E>(
                                            spec_eval_entries::<E>(st2, first.drop_first()).0,
                                            rest,
                                        ),
                                    );
                                },
                                None => {},
                            }
                        },
                        Err(_) => {},
                    }
                }
            },
        }
    }
}

proof fn lemma_prepend_assoc<E: Evaluator>(
    a: Seq<RecordV>,
    b: Seq<RecordV>,
    rest: (E::StateV, Result<Seq<RecordV>, ErrorV<E::HostErrorV>>),
)
    ensures
        prepend_records::<E>(a, prepend_records::<E>(b, rest)) == prepend_records::<E>(
            a + b,
            rest,
        ),
{
    match rest.1 {
        Ok(rs) => {
            assert(a + (b + rs) =~= (a + b) + rs);
        },
        Err(_) => {},
    }
}

/// A record-function that answers `None` removes its entry: the entry
/// leaves no trace in the output, and the remaining entries are evaluated
/// under the state the directive left behind. The output object is
/// therefore shorter than the entry list wherever a directive is dropped.
pub proof fn lemma_none_drops_entry<E: Evaluator>(st: E::StateV, c: CallV, rest: Seq<EntryV>)
    requires
        spec_eval::<E>(st, *c.value).1 is Ok,
        ({
            let st1 = spec_eval::<E>(st, *c.value).0;
            let av = spec_eval::<E>(st, *c.value).1->Ok_0;
            E::rf_spec(st1, CallV { function: c.function, value: Box::new(av) }).1 matches Ok(o)
                && o is None
        }),
    ensures
        ({
            let st1 = spec_eval::<E>(st, *c.value).0;
            let av = spec_eval::<E>(st, *c.value).1->Ok_0;
            let st2 = E::rf_spec(st1, CallV { function: c.function, value: Box::new(av) }).0;
            spec_eval_entries::<E>(st, seq![EntryV::Call(c)] + rest) == spec_eval_entries::<E>(
                st2,
                rest,
            )
        }),
{
    let all = seq![EntryV::Call(c)] + rest;
    assert(all[0] == EntryV::Call(c));
    assert(all.drop_first() =~= rest);
}

/// Evaluates `root` with the given evaluator's dispatch: one depth-first,
/// left-to-right walk that resolves every `@` call through
/// `value_function_eval` and every `#` entry through
/// `record_function_eval`, rebuilding the tree around the results. The
/// outcome — the state reached and the value or first error — is exactly
/// [`spec_eval`] over the evaluator's ghost transitions.
#[verifier::loop_isolation(false)]
pub fn eval<E: Evaluator>(root: &Value, evaluator: &mut E) -> (r: Result<
    Value,
    Error<E::HostError>,
>)
    ensures
        ({
            let out = spec_eval::<E>(old(evaluator).state(), root@);
            &&& final(evaluator).state() == out.0
            &&& result_rel::<E>(r, out.1)
        }),
    decreases *root,
{
    let ghost st0 = evaluator.state();
    match root {
        Value::Call(call) => {
            let inner = match eval(&call.value, evaluator) {
                Ok(v) => v,
                Err(e) => {
                    return Err(e);
                },
            };
            evaluator.value_function_eval(
                &Call { function: call.function.clone(), value: Box::new(inner) },
            )
        },
        Value::ObjectWithCalls(entries) => {
            let ghost entries_v = root@->ObjectWithCalls_0;
            proof {
                assert(entries_v =~= entries_view(entries@));
                assert(entries_v.skip(0) =~= entries_v);
            }
            let mut out: Vec<Record> = Vec::new();
            let mut idx: usize = 0;
            while idx < entries.len()
                invariant
                    idx <= entries.len(),
                    spec_eval_entries::<E>(st0, entries_v) == prepend_records::<E>(
                        records_view(out@),
                        spec_eval_entries::<E>(evaluator.state(), entries_v.skip(idx as int)),
                    ),
                decreases entries.len() - idx,
            {
                proof {
                    assert(decreases_to!(*entries => entries@));
                    assert(decreases_to!(entries@ => entries@[idx as int]));
                    assert(entries_v.skip(idx as int)[0] == entry_view(entries@[idx as int]));
                    assert(entries_v.skip(idx as int).drop_first() =~= entries_v.skip(
                        idx as int + 1,
                    ));
                }
                let ghost done = records_view(out@);
                match &entries[idx] {
                    RecordOrCall::Record(record) => {
                        let v = match eval(&record.value, evaluator) {
                            Ok(v) => v,
                            Err(e) => {
                                return Err(e);
                            },
                        };
                        out.push(Record { id: record.id.clone(), value: v });
                        proof {
                            assert(records_view(out@) =~= done.push(
                                RecordV { id: record.id@, value: v@ },
                            ));
                            lemma_prepend_push::<E>(
                                done,
                                RecordV { id: record.id@, value: v@ },
                                spec_eval_entries::<E>(
                                    evaluator.state(),
                                    entries_v.skip(idx as int + 1),
                                ),
                            );
                        }
                    },
                    RecordOrCall::Call(call) => {
                        let inner = match eval(&call.value, evaluator) {
                            Ok(v) => v,
                            Err(e) => {
                                return Err(e);
                            },
                        };
                        let optional = match evaluator.record_function_eval(
                            &Call { function: call.function.clone(), value: Box::new(inner) },
                        ) {
                            Ok(o) => o,
                            Err(e) => {
                                return Err(e);
                            },
                        };
                        if let Some(rec) = optional {
                            let ghost rec_v = rec@;
                            out.push(rec);
                            proof {
                                assert(records_view(out@) =~= done.push(rec_v));
                                lemma_prepend_push::<E>(
                                    done,
                                    rec_v,
                                    spec_eval_entries::<E>(
                                        evaluator.state(),
                                        entries_v.skip(idx as int + 1),
                                    ),
                                );
                            }
                        }
                    },
                }
                idx = idx + 1;
            }
            proof {
                assert(entries_v.skip(entries@.len() as int) =~= Seq::<EntryV>::empty());
                assert(records_view(out@) + Seq::<RecordV>::empty() =~= records_view(out@));
            }
            Ok(Value::Object(out))
        },
        Value::Array(elems) => {
            let ghost elems_v = root@->Array_0;
            proof {
                assert(elems_v =~= values_view(elems@));
                assert(elems_v.skip(0) =~= elems_v);
            }
            let mut out: Vec<Value> = Vec::new();
            let mut idx: usize = 0;
            while idx < elems.len()
                invariant
                    idx <= elems.len(),
                    spec_eval_elems::<E>(st0, elems_v) == ({
                        let rest = spec_eval_elems::<E>(
                            evaluator.state(),
                            elems_v.skip(idx as int),
                        );
                        match rest.1 {
                            Ok(vs) => (
                                rest.0,
                                Ok::<Seq<ValueV>, ErrorV<E::HostErrorV>>(
                                    values_view(out@) + vs,
                                ),
                            ),
                            Err(e) => (rest.0, Err(e)),
                        }
                    }),
                decreases elems.len() - idx,
            {
                proof {
                    assert(decreases_to!(*elems => elems@));
                    assert(decreases_to!(elems@ => elems@[idx as int]));
                    assert(elems_v.skip(idx as int)[0] == value_view(elems@[idx as int]));
                    assert(elems_v.skip(idx as int).drop_first() =~= elems_v.skip(idx as int + 1));
                }
                let ghost done = values_view(out@);
                let v = match eval(&elems[idx], evaluator) {
                    Ok(v) => v,
                    Err(e) => {
                        return Err(e);
                    },
                };
                out.push(v);
                proof {
                    assert(values_view(out@) =~= done.push(v@));
                    match spec_eval_elems::<E>(
                        evaluator.state(),
                        elems_v.skip(idx as int + 1),
                    ).1 {
                        Ok(vs) => {
                            assert(done + (seq![v@] + vs) =~= done.push(v@) + vs);
                        },
                        Err(_) => {},
                    }
                }
                idx = idx + 1;
            }
            proof {
                assert(elems_v.skip(elems@.len() as int) =~= Seq::<ValueV>::empty());
                assert(values_view(out@) + Seq::<ValueV>::empty() =~= values_view(out@));
            }
            Ok(Value::Array(out))
        },
        Value::Typed(t) => {
            let v = match eval(&t.value, evaluator) {
                Ok(v) => v,
                Err(e) => {
                    return Err(e);
                },
            };
            Ok(Value::Typed(Typed { kind: t.kind.clone(), value: Box::new(v) }))
        },
        Value::Float(_) | Value::Number(_) | Value::String(_) | Value::Object(_) => {
            Ok(root.clone())
        },
    }
}

proof fn lemma_prepend_push<E: Evaluator>(
    done: Seq<RecordV>,
    r: RecordV,
    rest: (E::StateV, Result<Seq<RecordV>, ErrorV<E::HostErrorV>>),
)
    ensures
        prepend_records::<E>(done, prepend_records::<E>(seq![r], rest)) == prepend_records::<E>(
            done.push(r),
            rest,
        ),
{
    match rest.1 {
        Ok(rs) => {
            assert(done + (seq![r] + rs) =~= done.push(r) + rs);
        },
        Err(_) => {},
    }
}

/// Array evaluation preserves order and length: when it succeeds, the
/// output has one element per input element, in the same positions.
pub proof fn lemma_elems_length<E: Evaluator>(st: E::StateV, es: Seq<ValueV>)
    requires
        spec_eval_elems::<E>(st, es).1 is Ok,
    ensures
        spec_eval_elems::<E>(st, es).1->Ok_0.len() == es.len(),
    decreases es.len(),
{
    if es.len() > 0 {
        let (st1, res) = spec_eval::<E>(st, es[0]);
        if res is Ok {
            lemma_elems_length::<E>(st1, es.drop_first());
        }
    }
}

/// Method-call form of [`eval`], for any evaluator: `ev.eval(&root)`.
pub trait EvalExt: Evaluator {
    fn eval(&mut self, root: &Value) -> (r: Result<Value, Error<Self::HostError>>)
        ensures
            ({
                let out = spec_eval::<Self>(old(self).state(), root@);
                &&& final(self).state() == out.0
                &&& result_rel::<Self>(r, out.1)
            }),
    ;
}

impl<E: Evaluator> EvalExt for E {
    fn eval(&mut self, root: &Value) -> (r: Result<Value, Error<E::HostError>>) {
        eval(root, self)
    }
}

} // verus!
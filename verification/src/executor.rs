//! Running a parsed `Command` against a `Storage`.
//!
//! `Set` values are typed from text here (`StoredValue::from_text`), the one
//! point where text becomes a typed value; every other command passes to
//! the matching storage operation.

use vstd::prelude::*;

use crate::cmd::{Command, CommandView};
use crate::message::ErrorMessage;
use crate::text::{decimal, lemma_decimal_starts_with_digit, lemma_parse_decimal};
use crate::storage::{
    apply_mutation, lookup, value_from_text, Mutation, MutationOutcome, MutationView, Storage,
    storage_error_message, StorageError, StoredValue, ValueView,
};

verus! {

broadcast use vstd::string::group_string_axioms;

/// Why a command failed while running.
#[derive(Debug, PartialEq, Eq, Clone, Copy)]
pub enum ExecuteError {
    Storage(StorageError),
}

impl From<StorageError> for ExecuteError {
    fn from(e: StorageError) -> (r: Self) {
        ExecuteError::Storage(e)
    }
}

impl vstd::std_specs::convert::FromSpecImpl<StorageError> for ExecuteError {
    open spec fn obeys_from_spec() -> bool {
        true
    }

    open spec fn from_spec(e: StorageError) -> Self {
        ExecuteError::Storage(e)
    }
}

/// Outcome of running a command: a mutation outcome, a read, or an
/// existence test.
#[derive(Debug, PartialEq)]
pub enum ExecuteResult {
    Mutation(MutationOutcome),
    Read(Option<StoredValue>),
    Existence(bool),
}

/// What an `ExecuteResult` is, over value views.
pub enum ExecuteResultView {
    Mutation(MutationOutcome),
    Read(Option<ValueView>),
    Existence(bool),
}

impl View for ExecuteResult {
    type V = ExecuteResultView;

    open spec fn view(&self) -> ExecuteResultView {
        match self {
            ExecuteResult::Mutation(o) => ExecuteResultView::Mutation(*o),
            ExecuteResult::Read(None) => ExecuteResultView::Read(None),
            ExecuteResult::Read(Some(v)) => ExecuteResultView::Read(Some(v@)),
            ExecuteResult::Existence(b) => ExecuteResultView::Existence(*b),
        }
    }
}

/// An execution result taken by view.
pub open spec fn executed(r: Result<ExecuteResult, ExecuteError>) -> Result<
    ExecuteResultView,
    ExecuteError,
> {
    match r {
        Ok(x) => Ok(x@),
        Err(e) => Err(e),
    }
}

/// A storage step seen as a command step.
pub open spec fn as_command_step(
    step: (Map<Seq<char>, ValueView>, Result<MutationOutcome, StorageError>),
) -> (Map<Seq<char>, ValueView>, Result<ExecuteResultView, ExecuteError>) {
    (
        step.0,
        match step.1 {
            Ok(o) => Ok(ExecuteResultView::Mutation(o)),
            Err(e) => Err(ExecuteError::Storage(e)),
        },
    )
}

/// What running a command does to the store, and what it returns.
pub open spec fn execute_command(m: Map<Seq<char>, ValueView>, command: CommandView) -> (
    Map<Seq<char>, ValueView>,
    Result<ExecuteResultView, ExecuteError>,
) {
    match command {
        CommandView::SetValue { key, value } => as_command_step(
            apply_mutation(m, MutationView::SetValue { key, value: value_from_text(value) }),
        ),
        CommandView::Get { key } => (m, Ok(ExecuteResultView::Read(lookup(m, key)))),
        CommandView::Del { key } => as_command_step(apply_mutation(m, MutationView::Del { key })),
        CommandView::Exists { key } => (m, Ok(ExecuteResultView::Existence(m.contains_key(key)))),
        CommandView::Incr { key, by } => as_command_step(
            apply_mutation(m, MutationView::Incr { key, by }),
        ),
        CommandView::Decr { key, by } => as_command_step(
            apply_mutation(m, MutationView::Decr { key, by }),
        ),
    }
}

/// `Get` and `Exists` read without changing the store.
pub proof fn lemma_reads_leave_store(m: Map<Seq<char>, ValueView>, key: Seq<char>)
    ensures
        execute_command(m, CommandView::Get { key }).0 == m,
        execute_command(m, CommandView::Exists { key }).0 == m,
{
}

/// A value set from a numeral is a counter: after `set <key> <numeral of
/// n>`, a `get` reads `Int(n)` and `incr <key> <by>` counts on from `n`.
pub proof fn lemma_set_numeral_counts(
    m: Map<Seq<char>, ValueView>,
    key: Seq<char>,
    n: u64,
    by: u64,
)
    ensures
        ({
            let (m1, r1) = execute_command(m, CommandView::SetValue { key, value: decimal(n as nat) });
            &&& r1 == Ok::<ExecuteResultView, ExecuteError>(
                ExecuteResultView::Mutation(MutationOutcome::Stored),
            )
            &&& execute_command(m1, CommandView::Get { key }).1 == Ok::<
                ExecuteResultView,
                ExecuteError,
            >(ExecuteResultView::Read(Some(ValueView::Int(n))))
            &&& execute_command(m1, CommandView::Incr { key, by }).1 == if n + by > u64::MAX {
                Err::<ExecuteResultView, ExecuteError>(ExecuteError::Storage(StorageError::Overflow))
            } else {
                Ok::<ExecuteResultView, ExecuteError>(
                    ExecuteResultView::Mutation(MutationOutcome::Counter { new_value: (n + by) as u64 }),
                )
            }
        }),
{
    lemma_parse_decimal(n);
    lemma_decimal_starts_with_digit(n as nat);
}

/// `get k` reads what `k` holds, text or counter, and nothing when `k` is
/// absent; the store is unchanged.
pub proof fn lemma_get_reads_held_value(m: Map<Seq<char>, ValueView>, key: Seq<char>)
    ensures
        execute_command(m, CommandView::Get { key }) == (
            m,
            Ok::<ExecuteResultView, ExecuteError>(
                ExecuteResultView::Read(
                    if m.contains_key(key) {
                        Some(m[key])
                    } else {
                        None
                    },
                ),
            ),
        ),
{
}

/// `exists k` is true exactly when `k` holds a value, whichever kind, and
/// exactly when `get k` reads something; after any `set k v` it is true and
/// after `del k` it is false. The store is unchanged.
pub proof fn lemma_exists_iff_held(m: Map<Seq<char>, ValueView>, key: Seq<char>, v: Seq<char>)
    ensures
        ({
            let (m2, r) = execute_command(m, CommandView::Exists { key });
            &&& m2 == m
            &&& r == Ok::<ExecuteResultView, ExecuteError>(
                ExecuteResultView::Existence(m.contains_key(key)),
            )
            &&& (r == Ok::<ExecuteResultView, ExecuteError>(ExecuteResultView::Existence(true)))
                <==> execute_command(m, CommandView::Get { key }).1 != Ok::<
                ExecuteResultView,
                ExecuteError,
            >(ExecuteResultView::Read(None))
        }),
        execute_command(
            execute_command(m, CommandView::SetValue { key, value: v }).0,
            CommandView::Exists { key },
        ).1 == Ok::<ExecuteResultView, ExecuteError>(ExecuteResultView::Existence(true)),
        execute_command(
            execute_command(m, CommandView::Del { key }).0,
            CommandView::Exists { key },
        ).1 == Ok::<ExecuteResultView, ExecuteError>(ExecuteResultView::Existence(false)),
{
}

/// `set k v` answers `Stored` and maps `k` to `v` as typed, leaving every
/// other key alone.
pub proof fn lemma_set_stores_typed_value(
    m: Map<Seq<char>, ValueView>,
    key: Seq<char>,
    v: Seq<char>,
)
    ensures
        execute_command(m, CommandView::SetValue { key, value: v }) == (
            m.insert(key, value_from_text(v)),
            Ok::<ExecuteResultView, ExecuteError>(
                ExecuteResultView::Mutation(MutationOutcome::Stored),
            ),
        ),
{
}

/// `del k` answers `Deleted` and removes `k`, whatever it held (text or
/// counter) or if it held nothing; a following `get k` reads nothing.
pub proof fn lemma_del_removes_key(m: Map<Seq<char>, ValueView>, key: Seq<char>)
    ensures
        execute_command(m, CommandView::Del { key }) == (
            m.remove(key),
            Ok::<ExecuteResultView, ExecuteError>(
                ExecuteResultView::Mutation(MutationOutcome::Deleted),
            ),
        ),
        execute_command(execute_command(m, CommandView::Del { key }).0, CommandView::Get { key }).1
            == Ok::<ExecuteResultView, ExecuteError>(ExecuteResultView::Read(None)),
{
}

/// `decr k by`: text under `k` is refused with `NotAnInteger`; otherwise
/// the counter `c` (0 when `k` is absent) becomes `c - by`, which is both
/// answered and stored, or `Underflow` is answered when `by > c`. A refused
/// decrement leaves the store as it was; a successful one changes only `k`,
/// so a following `get k` reads the answered value.
pub proof fn lemma_decr_counts_down(m: Map<Seq<char>, ValueView>, key: Seq<char>, by: u64)
    ensures
        ({
            let (m2, r) = execute_command(m, CommandView::Decr { key, by });
            if m.contains_key(key) && m[key] is Str {
                m2 == m && r == Err::<ExecuteResultView, ExecuteError>(
                    ExecuteError::Storage(StorageError::NotAnInteger),
                )
            } else {
                let c: u64 = if m.contains_key(key) {
                    m[key]->Int_0
                } else {
                    0
                };
                if by > c {
                    m2 == m && r == Err::<ExecuteResultView, ExecuteError>(
                        ExecuteError::Storage(StorageError::Underflow),
                    )
                } else {
                    &&& r == Ok::<ExecuteResultView, ExecuteError>(
                        ExecuteResultView::Mutation(
                            MutationOutcome::Counter { new_value: (c - by) as u64 },
                        ),
                    )
                    &&& m2 == m.insert(key, ValueView::Int((c - by) as u64))
                    &&& execute_command(m2, CommandView::Get { key }).1 == Ok::<
                        ExecuteResultView,
                        ExecuteError,
                    >(ExecuteResultView::Read(Some(ValueView::Int((c - by) as u64))))
                }
            }
        }),
{
}

/// `incr k by`: text under `k` is refused with `NotAnInteger`; otherwise
/// the counter `c` (0 when `k` is absent) becomes `c + by`, which is both
/// answered and stored, or `Overflow` is answered when it would pass
/// `u64::MAX`. A refused increment leaves the store as it was.
pub proof fn lemma_incr_counts_up(m: Map<Seq<char>, ValueView>, key: Seq<char>, by: u64)
    ensures
        ({
            let (m2, r) = execute_command(m, CommandView::Incr { key, by });
            if m.contains_key(key) && m[key] is Str {
                m2 == m && r == Err::<ExecuteResultView, ExecuteError>(
                    ExecuteError::Storage(StorageError::NotAnInteger),
                )
            } else {
                let c: u64 = if m.contains_key(key) {
                    m[key]->Int_0
                } else {
                    0
                };
                if c + by > u64::MAX {
                    m2 == m && r == Err::<ExecuteResultView, ExecuteError>(
                        ExecuteError::Storage(StorageError::Overflow),
                    )
                } else {
                    &&& r == Ok::<ExecuteResultView, ExecuteError>(
                        ExecuteResultView::Mutation(
                            MutationOutcome::Counter { new_value: (c + by) as u64 },
                        ),
                    )
                    &&& m2 == m.insert(key, ValueView::Int((c + by) as u64))
                    &&& execute_command(m2, CommandView::Get { key }).1 == Ok::<
                        ExecuteResultView,
                        ExecuteError,
                    >(ExecuteResultView::Read(Some(ValueView::Int((c + by) as u64))))
                }
            }
        }),
{
}

/// Apply a mutation and report its outcome as an execution result.
fn apply_and_wrap<S: Storage>(storage: &mut S, mutation: Mutation) -> (r: Result<
    ExecuteResult,
    ExecuteError,
>)
    ensures
        (final(storage).contents(), executed(r)) == as_command_step(
            apply_mutation(old(storage).contents(), mutation@),
        ),
{
    match storage.apply(mutation) {
        Ok(outcome) => Ok(ExecuteResult::Mutation(outcome)),
        Err(e) => Err(ExecuteError::from(e)),
    }
}

/// Execute a parsed command against a storage (see `execute_command`).
pub fn execute<S: Storage>(storage: &mut S, command: Command) -> (r: Result<
    ExecuteResult,
    ExecuteError,
>)
    ensures
        (final(storage).contents(), executed(r)) == execute_command(
            old(storage).contents(),
            command@,
        ),
{
    match command {
        Command::SetValue { key, value } => {
            let mutation = Mutation::SetValue { key, value: StoredValue::from_text(value.as_str()) };
            apply_and_wrap(storage, mutation)
        },
        Command::Get { key } => {
            let value = storage.read(key.as_str());
            Ok(ExecuteResult::Read(value))
        },
        Command::Del { key } => {
            let mutation = Mutation::Del { key };
            apply_and_wrap(storage, mutation)
        },
        Command::Exists { key } => {
            let exists = storage.contains_key(key.as_str());
            Ok(ExecuteResult::Existence(exists))
        },
        Command::Incr { key, by } => {
            let mutation = Mutation::Incr { key, by };
            apply_and_wrap(storage, mutation)
        },
        Command::Decr { key, by } => {
            let mutation = Mutation::Decr { key, by };
            apply_and_wrap(storage, mutation)
        },
    }
}

impl ErrorMessage for ExecuteError {
    open spec fn message_text(&self) -> Seq<char> {
        match self {
            ExecuteError::Storage(e) => storage_error_message(*e),
        }
    }

    fn message(&self) -> (s: String) {
        match self {
            ExecuteError::Storage(e) => e.describe(),
        }
    }
}

} // verus!

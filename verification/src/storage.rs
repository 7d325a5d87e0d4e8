//! Typed values, the mutation funnel, and the in-memory backend.
//!
//! Every state change goes through `Storage::apply` as a `Mutation`; reads
//! (`read`, `contains_key`) bypass it. The abstract state of any backend is a map
//! from key text to `ValueView`, and `apply_mutation` says what each mutation
//! does to that map.

use vstd::prelude::*;
use vstd::hash_map::StringHashMap;

use crate::message::ErrorMessage;
use crate::text::{
    all_digits, is_digit, lemma_parse_reads_numerals, numeral_value, parse_u64, parse_u64_text,
};

verus! {

broadcast use vstd::string::group_string_axioms;

/// What a stored value is, independent of how it is held in memory.
pub enum ValueView {
    Str(Seq<char>),
    Int(u64),
}

/// A value held under a key: text, or an unsigned counter.
#[derive(Debug, PartialEq)]
pub enum StoredValue {
    Str(String),
    Int(u64),
}

impl View for StoredValue {
    type V = ValueView;

    open spec fn view(&self) -> ValueView {
        match self {
            StoredValue::Str(s) => ValueView::Str(s@),
            StoredValue::Int(n) => ValueView::Int(*n),
        }
    }
}

/// How text typed by a user becomes a value: a plain decimal numeral that
/// `str::parse::<u64>` accepts becomes `Int`; anything else (negatives,
/// decimals, hex, a leading `+`, overflow, the empty string) stays `Str`.
pub open spec fn value_from_text(s: Seq<char>) -> ValueView {
    if s.len() > 0 && s[0] == '+' {
        ValueView::Str(s)
    } else {
        match parse_u64(s) {
            Ok(n) => ValueView::Int(n),
            Err(_) => ValueView::Str(s),
        }
    }
}

impl StoredValue {
    /// Type a piece of user text (see `value_from_text`).
    pub fn from_text(s: &str) -> (v: Self)
        ensures
            v@ == value_from_text(s@),
    {
        if s.unicode_len() > 0 && s.get_char(0) == '+' {
            return StoredValue::Str(s.to_owned());
        }
        match parse_u64_text(s) {
            Ok(n) => StoredValue::Int(n),
            Err(_) => StoredValue::Str(s.to_owned()),
        }
    }
}

impl<'a> From<&'a str> for StoredValue {
    fn from(s: &'a str) -> (v: Self)
        ensures
            v@ == ValueView::Str(s@),
    {
        StoredValue::Str(s.to_owned())
    }
}

impl<'a> vstd::std_specs::convert::FromSpecImpl<&'a str> for StoredValue {
    open spec fn obeys_from_spec() -> bool {
        false
    }

    open spec fn from_spec(s: &'a str) -> Self {
        arbitrary()
    }
}

impl From<u64> for StoredValue {
    fn from(n: u64) -> (v: Self) {
        StoredValue::Int(n)
    }
}

impl vstd::std_specs::convert::FromSpecImpl<u64> for StoredValue {
    open spec fn obeys_from_spec() -> bool {
        true
    }

    open spec fn from_spec(n: u64) -> Self {
        StoredValue::Int(n)
    }
}

impl Clone for StoredValue {
    fn clone(&self) -> (r: Self)
        ensures
            r == *self,
    {
        match self {
            StoredValue::Str(s) => StoredValue::Str(s.clone()),
            StoredValue::Int(n) => StoredValue::Int(*n),
        }
    }
}

/// Typing text: a non-empty run of decimal digits whose value fits in a
/// `u64` becomes `Int` of that value (leading zeros and all); any other
/// text — a sign, a point, a letter, an empty text, a value past
/// `u64::MAX` — is kept as `Str` unchanged.
pub proof fn lemma_typing_reads_numerals(s: Seq<char>)
    ensures
        value_from_text(s) == if s.len() > 0 && all_digits(s) && numeral_value(s) <= u64::MAX {
            ValueView::Int(numeral_value(s) as u64)
        } else {
            ValueView::Str(s)
        },
{
    if s.len() > 0 && s[0] == '+' {
        assert(!is_digit(s[0]));
    } else {
        lemma_parse_reads_numerals(s);
    }
}

/// A state change, as seen by the storage layer.
#[derive(Debug, PartialEq, Clone)]
pub enum Mutation {
    SetValue { key: String, value: StoredValue },
    Del { key: String },
    Incr { key: String, by: u64 },
    Decr { key: String, by: u64 },
}

/// What a `Mutation` is, over key text and value views.
pub enum MutationView {
    SetValue { key: Seq<char>, value: ValueView },
    Del { key: Seq<char> },
    Incr { key: Seq<char>, by: u64 },
    Decr { key: Seq<char>, by: u64 },
}

impl View for Mutation {
    type V = MutationView;

    open spec fn view(&self) -> MutationView {
        match self {
            Mutation::SetValue { key, value } => MutationView::SetValue { key: key@, value: value@ },
            Mutation::Del { key } => MutationView::Del { key: key@ },
            Mutation::Incr { key, by } => MutationView::Incr { key: key@, by: *by },
            Mutation::Decr { key, by } => MutationView::Decr { key: key@, by: *by },
        }
    }
}

/// What a successful `apply` reports.
#[derive(Debug, PartialEq, Eq, Clone, Copy)]
pub enum MutationOutcome {
    Stored,
    Deleted,
    Counter { new_value: u64 },
}

/// Why a mutation was refused; a refused mutation changes nothing.
#[derive(Debug, PartialEq, Eq, Clone, Copy)]
pub enum StorageError {
    NotAnInteger,
    Overflow,
    Underflow,
}

/// The value under `key`, if any.
pub open spec fn lookup(m: Map<Seq<char>, ValueView>, key: Seq<char>) -> Option<ValueView> {
    if m.contains_key(key) {
        Some(m[key])
    } else {
        None
    }
}

/// The counter that `Incr`/`Decr` start from: 0 for a missing key, the
/// number for an `Int`, and nothing for a `Str` (which refuses counting).
pub open spec fn counter_base(m: Map<Seq<char>, ValueView>, key: Seq<char>) -> Option<u64> {
    match lookup(m, key) {
        None => Some(0u64),
        Some(ValueView::Int(n)) => Some(n),
        Some(ValueView::Str(_)) => None,
    }
}

/// `c + by`, or `Overflow` when it does not fit in a `u64`.
pub open spec fn counter_add(c: u64, by: u64) -> Result<u64, StorageError> {
    if c + by > u64::MAX {
        Err(StorageError::Overflow)
    } else {
        Ok((c + by) as u64)
    }
}

/// `c - by`, or `Underflow` when `by` exceeds `c`.
pub open spec fn counter_sub(c: u64, by: u64) -> Result<u64, StorageError> {
    if by > c {
        Err(StorageError::Underflow)
    } else {
        Ok((c - by) as u64)
    }
}

/// A counter update: refused on a `Str`, else the new counter is stored.
pub open spec fn apply_counter(
    m: Map<Seq<char>, ValueView>,
    key: Seq<char>,
    step: spec_fn(u64) -> Result<u64, StorageError>,
) -> (Map<Seq<char>, ValueView>, Result<MutationOutcome, StorageError>) {
    match counter_base(m, key) {
        None => (m, Err(StorageError::NotAnInteger)),
        Some(cur) => match step(cur) {
            Ok(n) => (m.insert(key, ValueView::Int(n)), Ok(MutationOutcome::Counter { new_value: n })),
            Err(e) => (m, Err(e)),
        },
    }
}

/// The effect of one mutation on the store, and what `apply` reports.
pub open spec fn apply_mutation(m: Map<Seq<char>, ValueView>, mutation: MutationView) -> (
    Map<Seq<char>, ValueView>,
    Result<MutationOutcome, StorageError>,
) {
    match mutation {
        MutationView::SetValue { key, value } => (m.insert(key, value), Ok(MutationOutcome::Stored)),
        MutationView::Del { key } => (m.remove(key), Ok(MutationOutcome::Deleted)),
        MutationView::Incr { key, by } => apply_counter(m, key, |c: u64| counter_add(c, by)),
        MutationView::Decr { key, by } => apply_counter(m, key, |c: u64| counter_sub(c, by)),
    }
}

/// Reading after a `SetValue` gives the value just stored, and no other key
/// changes.
pub proof fn lemma_read_after_set(m: Map<Seq<char>, ValueView>, key: Seq<char>, value: ValueView)
    ensures
        ({
            let (m2, r) = apply_mutation(m, MutationView::SetValue { key, value });
            &&& r == Ok::<MutationOutcome, StorageError>(MutationOutcome::Stored)
            &&& lookup(m2, key) == Some(value)
            &&& forall|k: Seq<char>| k != key ==> lookup(m2, k) == lookup(m, k)
        }),
{
}

/// After a `Del` the key holds nothing, every other key is as it was, and
/// deleting again changes nothing more.
pub proof fn lemma_del_removes(m: Map<Seq<char>, ValueView>, key: Seq<char>)
    ensures
        ({
            let (m2, r) = apply_mutation(m, MutationView::Del { key });
            &&& r == Ok::<MutationOutcome, StorageError>(MutationOutcome::Deleted)
            &&& lookup(m2, key) is None
            &&& forall|k: Seq<char>| k != key ==> lookup(m2, k) == lookup(m, k)
            &&& apply_mutation(m2, MutationView::Del { key }).0 == m2
        }),
{
    let m2 = m.remove(key);
    assert(m2.remove(key) =~= m2);
}

/// A refused mutation leaves the store exactly as it was.
pub proof fn lemma_refused_mutation_changes_nothing(
    m: Map<Seq<char>, ValueView>,
    mutation: MutationView,
)
    ensures
        apply_mutation(m, mutation).1 is Err ==> apply_mutation(m, mutation).0 == m,
{
}

/// Storage is strict: counting on a text value is refused with
/// `NotAnInteger`, even when the text is a numeral, and the text stays.
pub proof fn lemma_counting_text_is_refused(
    m: Map<Seq<char>, ValueView>,
    key: Seq<char>,
    text: Seq<char>,
    by: u64,
)
    requires
        lookup(m, key) == Some(ValueView::Str(text)),
    ensures
        apply_mutation(m, MutationView::Incr { key, by }) == (m, Err::<MutationOutcome, StorageError>(
            StorageError::NotAnInteger,
        )),
        apply_mutation(m, MutationView::Decr { key, by }) == (m, Err::<MutationOutcome, StorageError>(
            StorageError::NotAnInteger,
        )),
{
}

/// A successful `Incr` undone by a `Decr` of the same amount brings the
/// counter back to where it started (0 for a key that was missing).
pub proof fn lemma_incr_then_decr_restores(m: Map<Seq<char>, ValueView>, key: Seq<char>, by: u64)
    ensures
        ({
            let (m1, r1) = apply_mutation(m, MutationView::Incr { key, by });
            r1 is Ok ==> {
                let base = counter_base(m, key)->0;
                let (m2, r2) = apply_mutation(m1, MutationView::Decr { key, by });
                &&& r2 == Ok::<MutationOutcome, StorageError>(
                    MutationOutcome::Counter { new_value: base },
                )
                &&& m2 == m.insert(key, ValueView::Int(base))
            }
        }),
{
    let (m1, r1) = apply_mutation(m, MutationView::Incr { key, by });
    if r1 is Ok {
        let base = counter_base(m, key)->0;
        let up = (base + by) as u64;
        assert(m1 == m.insert(key, ValueView::Int(up)));
        assert(counter_base(m1, key) == Some(up));
        assert(m1.insert(key, ValueView::Int(base)) =~= m.insert(key, ValueView::Int(base)));
    }
}

/// The contract every backend must satisfy: a map from keys to values,
/// changed only through `apply`.
pub trait Storage {
    /// The keys held and the value under each.
    spec fn contents(&self) -> Map<Seq<char>, ValueView>;

    /// Apply one mutation; on error the store is left as it was.
    fn apply(&mut self, mutation: Mutation) -> (r: Result<MutationOutcome, StorageError>)
        ensures
            (final(self).contents(), r) == apply_mutation(old(self).contents(), mutation@),
    ;

    /// The value under `key`, if any.
    fn read(&self, key: &str) -> (r: Option<StoredValue>)
        ensures
            match r {
                Some(v) => lookup(self.contents(), key@) == Some(v@),
                None => lookup(self.contents(), key@) is None,
            },
    ;

    /// Whether `key` holds a value.
    fn contains_key(&self, key: &str) -> (r: bool)
        ensures
            r == self.contents().contains_key(key@),
    ;
}

/// A `Storage` backed by a hash map in memory.
pub struct InMemoryStorage {
    data: StringHashMap<StoredValue>,
}

impl InMemoryStorage {
    /// An empty store.
    pub fn new() -> (s: Self)
        ensures
            s.contents() == Map::<Seq<char>, ValueView>::empty(),
    {
        let s = InMemoryStorage { data: StringHashMap::new() };
        assert(s.contents() =~= Map::<Seq<char>, ValueView>::empty());
        s
    }

    /// Run a counter update: read the current counter (0 when missing), let
    /// `op` compute the new one, and store it. A `Str` value is refused and
    /// left in place; an error from `op` leaves the store unchanged.
    fn apply_counter_op<F>(
        &mut self,
        key: String,
        op: F,
        Ghost(step): Ghost<spec_fn(u64) -> Result<u64, StorageError>>,
    ) -> (r: Result<MutationOutcome, StorageError>)
        where
            F: FnOnce(u64) -> Result<u64, StorageError>,
        requires
            forall|c: u64| op.requires((c,)),
            forall|c: u64, res: Result<u64, StorageError>| op.ensures((c,), res) ==> res == step(c),
        ensures
            (final(self).contents(), r) == apply_counter(old(self).contents(), key@, step),
    {
        let current: u64 = match self.data.get(key.as_str()) {
            Some(StoredValue::Int(n)) => *n,
            Some(StoredValue::Str(_)) => {
                return Err(StorageError::NotAnInteger);
            },
            None => 0,
        };
        assert(counter_base(old(self).contents(), key@) == Some(current));
        let res = op(current);
        match res {
            Ok(new_value) => {
                let ghost k = key@;
                self.data.insert(key, StoredValue::Int(new_value));
                assert(self.contents() =~= old(self).contents().insert(k, ValueView::Int(new_value)));
                Ok(MutationOutcome::Counter { new_value })
            },
            Err(e) => {
                Err(e)
            },
        }
    }
}

impl Default for InMemoryStorage {
    fn default() -> (s: Self)
        ensures
            s.contents() == Map::<Seq<char>, ValueView>::empty(),
    {
        Self::new()
    }
}

impl Storage for InMemoryStorage {
    closed spec fn contents(&self) -> Map<Seq<char>, ValueView> {
        self.data@.map_values(|v: StoredValue| v@)
    }

    fn apply(&mut self, mutation: Mutation) -> (r: Result<MutationOutcome, StorageError>) {
        match mutation {
            Mutation::SetValue { key, value } => {
                let ghost (k, v) = (key@, value@);
                self.data.insert(key, value);
                assert(self.contents() =~= old(self).contents().insert(k, v));
                Ok(MutationOutcome::Stored)
            },
            Mutation::Incr { key, by } => {
                let add = |c: u64| -> (res: Result<u64, StorageError>)
                    ensures
                        res == counter_add(c, by),
                    { c.checked_add(by).ok_or(StorageError::Overflow) };
                self.apply_counter_op(key, add, Ghost(|c: u64| counter_add(c, by)))
            },
            Mutation::Decr { key, by } => {
                let sub = |c: u64| -> (res: Result<u64, StorageError>)
                    ensures
                        res == counter_sub(c, by),
                    { c.checked_sub(by).ok_or(StorageError::Underflow) };
                self.apply_counter_op(key, sub, Ghost(|c: u64| counter_sub(c, by)))
            },
            Mutation::Del { key } => {
                self.data.remove(key.as_str());
                assert(self.contents() =~= old(self).contents().remove(key@));
                Ok(MutationOutcome::Deleted)
            },
        }
    }

    fn read(&self, key: &str) -> (r: Option<StoredValue>) {
        match self.data.get(key) {
            Some(v) => Some(v.clone()),
            None => None,
        }
    }

    fn contains_key(&self, key: &str) -> (r: bool) {
        self.data.contains_key(key)
    }
}

/// The text shown for a storage error.
pub open spec fn storage_error_message(e: StorageError) -> Seq<char> {
    match e {
        StorageError::NotAnInteger => "not an integer"@,
        StorageError::Overflow => "counter overflow"@,
        StorageError::Underflow => "counter underflow"@,
    }
}

impl StorageError {
    /// The text shown for this error.
    pub fn describe(&self) -> (s: String)
        ensures
            s@ == storage_error_message(*self),
    {
        match self {
            StorageError::NotAnInteger => "not an integer".to_owned(),
            StorageError::Overflow => "counter overflow".to_owned(),
            StorageError::Underflow => "counter underflow".to_owned(),
        }
    }
}

impl ErrorMessage for StorageError {
    open spec fn message_text(&self) -> Seq<char> {
        storage_error_message(*self)
    }

    fn message(&self) -> (s: String) {
        self.describe()
    }
}

} // verus!

//! The store contract: how "store a payload" and "fetch a payload" become
//! requests to a key-value backend, and which outcome the caller sees.

use vstd::prelude::*;
use crate::memory::MemoryBackend;
use crate::paste_id::{is_id_text, PasteId};

verus! {

/// The identifier length used where none is configured.
pub const DEFAULT_ID_LENGTH: usize = 5;

/// Why a store or a retrieval failed.
#[derive(Debug, PartialEq, Eq, Structural)]
pub enum StoreError {
    /// The backend could not be reached, or a request failed in transport.
    BackendUnavailable,
    /// The backend was reached but did not accept the write.
    WriteFailed,
}

/// What a retrieval finds.
#[derive(Debug)]
pub enum RetrieveOutcome {
    /// The payload stored under the identifier.
    Found(Vec<u8>),
    /// Nothing is stored under the identifier.
    NotFound,
}

/// How one backend request failed.
#[derive(Debug, PartialEq, Eq, Structural)]
pub enum BackendFault {
    /// The request did not reach the backend or got no answer.
    Unreachable,
    /// The backend answered with a refusal.
    Rejected,
}

/// What a retrieval does after the existence check.
#[derive(Debug)]
pub enum RetrieveStep {
    /// The key exists: fetch its payload next.
    Fetch,
    /// The retrieval is over, with this result.
    Done(Result<RetrieveOutcome, StoreError>),
}

/// The state of a backend as the store sees it: its entries, and whether it
/// is failing every request.
pub struct BackendModel {
    pub entries: Map<Seq<char>, Seq<u8>>,
    pub failing: bool,
}

/// A working backend with no entries.
pub open spec fn empty_backend() -> BackendModel {
    BackendModel { entries: Map::empty(), failing: false }
}

/// The backend after storing `payload` under `key`.
pub open spec fn after_store(m: BackendModel, key: Seq<char>, payload: Seq<u8>) -> BackendModel {
    if m.failing {
        m
    } else {
        BackendModel { entries: m.entries.insert(key, payload), failing: false }
    }
}

/// The error, if any, of storing into `m`.
pub open spec fn store_error(m: BackendModel) -> Option<StoreError> {
    if m.failing {
        Some(StoreError::BackendUnavailable)
    } else {
        None
    }
}

/// The backend after storing `payloads[i]` under `keys[i]`, in order.
pub open spec fn after_stores(m: BackendModel, keys: Seq<Seq<char>>, payloads: Seq<Seq<u8>>) -> BackendModel
    decreases keys.len(),
{
    if keys.len() == 0 || payloads.len() == 0 {
        m
    } else {
        after_store(after_stores(m, keys.drop_last(), payloads.drop_last()), keys.last(), payloads.last())
    }
}

/// What retrieving `key` from `m` gives: the payload, `None` when absent,
/// or an error.
pub open spec fn lookup(m: BackendModel, key: Seq<char>) -> Result<Option<Seq<u8>>, StoreError> {
    if m.failing {
        Err(StoreError::BackendUnavailable)
    } else if m.entries.contains_key(key) {
        Ok(Some(m.entries[key]))
    } else {
        Ok(None)
    }
}

/// A retrieval result seen as plain values.
pub open spec fn outcome_view(r: Result<RetrieveOutcome, StoreError>) -> Result<Option<Seq<u8>>, StoreError> {
    match r {
        Ok(RetrieveOutcome::Found(v)) => Ok(Some(v@)),
        Ok(RetrieveOutcome::NotFound) => Ok(None),
        Err(e) => Err(e),
    }
}

/// The result of a store, given the backend's answer to the write of `id`.
pub fn store_reply(id: PasteId, written: Result<(), BackendFault>) -> (r: Result<PasteId, StoreError>)
    ensures
        written is Ok ==> r == Ok::<PasteId, StoreError>(id),
        written matches Err(BackendFault::Unreachable) ==> r == Err::<PasteId, StoreError>(
            StoreError::BackendUnavailable,
        ),
        written matches Err(BackendFault::Rejected) ==> r == Err::<PasteId, StoreError>(
            StoreError::WriteFailed,
        ),
{
    match written {
        Ok(()) => Ok(id),
        Err(BackendFault::Unreachable) => Err(StoreError::BackendUnavailable),
        Err(BackendFault::Rejected) => Err(StoreError::WriteFailed),
    }
}

/// The next step of a retrieval, given the backend's answer to the existence
/// check.
pub fn exists_reply(found: Result<bool, BackendFault>) -> (r: RetrieveStep)
    ensures
        found == Ok::<bool, BackendFault>(true) ==> r is Fetch,
        found == Ok::<bool, BackendFault>(false) ==> r matches RetrieveStep::Done(Ok(RetrieveOutcome::NotFound)),
        found is Err ==> r matches RetrieveStep::Done(Err(StoreError::BackendUnavailable)),
{
    match found {
        Ok(true) => RetrieveStep::Fetch,
        Ok(false) => RetrieveStep::Done(Ok(RetrieveOutcome::NotFound)),
        Err(_) => RetrieveStep::Done(Err(StoreError::BackendUnavailable)),
    }
}

/// The result of a retrieval, given the backend's answer to the fetch. A
/// failed fetch is a backend failure, also when the key vanished after the
/// existence check.
pub fn get_reply(fetched: Result<Vec<u8>, BackendFault>) -> (r: Result<RetrieveOutcome, StoreError>)
    ensures
        fetched matches Ok(v) ==> outcome_view(r) == Ok::<Option<Seq<u8>>, StoreError>(Some(v@)),
        fetched is Err ==> r matches Err(StoreError::BackendUnavailable),
{
    match fetched {
        Ok(v) => Ok(RetrieveOutcome::Found(v)),
        Err(_) => Err(StoreError::BackendUnavailable),
    }
}

/// Writes `payload` under `id` once, replacing any payload stored there,
/// and returns `id` on success.
pub fn store_with_id(backend: &mut MemoryBackend, id: PasteId, payload: Vec<u8>) -> (r: Result<PasteId, StoreError>)
    ensures
        final(backend)@ == after_store(old(backend)@, id@, payload@),
        store_error(old(backend)@) is None ==> r == Ok::<PasteId, StoreError>(id),
        store_error(old(backend)@) matches Some(e) ==> r == Err::<PasteId, StoreError>(e),
{
    let key = id.as_string().clone();
    let written = backend.set(key, payload);
    store_reply(id, written)
}

/// Stores `payload` under a fresh random identifier of `length` characters
/// and returns that identifier.
pub fn store(backend: &mut MemoryBackend, length: usize, payload: Vec<u8>) -> (r: Result<PasteId, StoreError>)
    ensures
        r is Ok <==> store_error(old(backend)@) is None,
        r matches Err(e) ==> store_error(old(backend)@) == Some(e) && final(backend)@ == old(backend)@,
        r matches Ok(id) ==> id@.len() == length && is_id_text(id@) && final(backend)@ == after_store(
            old(backend)@,
            id@,
            payload@,
        ),
{
    let id = PasteId::new(length);
    store_with_id(backend, id, payload)
}

/// Fetches the payload stored under `id`: first an existence check, then a
/// fetch when the key exists.
pub fn retrieve(backend: &MemoryBackend, id: &PasteId) -> (r: Result<RetrieveOutcome, StoreError>)
    ensures
        outcome_view(r) == lookup(backend@, id@),
{
    let key = id.as_string();
    match exists_reply(backend.contains(key)) {
        RetrieveStep::Fetch => get_reply(backend.get(key)),
        RetrieveStep::Done(r) => r,
    }
}

/// What is stored can be retrieved byte for byte under the identifier it
/// was stored under, on a working backend.
pub proof fn lemma_round_trip(m: BackendModel, key: Seq<char>, payload: Seq<u8>)
    requires
        !m.failing,
    ensures
        store_error(m) is None,
        lookup(after_store(m, key, payload), key) == Ok::<Option<Seq<u8>>, StoreError>(Some(payload)),
{
}

/// On a backend that starts empty, a key under which nothing was stored is
/// not found, whatever was stored under other keys.
pub proof fn lemma_absent_key(keys: Seq<Seq<char>>, payloads: Seq<Seq<u8>>, key: Seq<char>)
    requires
        keys.len() == payloads.len(),
        !keys.contains(key),
    ensures
        lookup(after_stores(empty_backend(), keys, payloads), key) == Ok::<Option<Seq<u8>>, StoreError>(None),
    decreases keys.len(),
{
    if keys.len() > 0 {
        assert(!keys.drop_last().contains(key)) by {
            if keys.drop_last().contains(key) {
                let j = choose|j: int| 0 <= j < keys.drop_last().len() && keys.drop_last()[j] == key;
                assert(keys[j] == key);
            }
        }
        assert(keys.last() != key) by {
            assert(keys[keys.len() - 1] == keys.last());
        }
        lemma_absent_key(keys.drop_last(), payloads.drop_last(), key);
        lemma_stores_keep_working(empty_backend(), keys.drop_last(), payloads.drop_last());
    }
}

/// Stores into a working backend leave it working.
proof fn lemma_stores_keep_working(m: BackendModel, keys: Seq<Seq<char>>, payloads: Seq<Seq<u8>>)
    requires
        !m.failing,
    ensures
        !after_stores(m, keys, payloads).failing,
    decreases keys.len(),
{
    if keys.len() > 0 && payloads.len() > 0 {
        lemma_stores_keep_working(m, keys.drop_last(), payloads.drop_last());
    }
}

/// A failing backend makes both a store and a retrieval fail with
/// `BackendUnavailable`, and a store changes nothing.
pub proof fn lemma_failing_backend(m: BackendModel, key: Seq<char>, payload: Seq<u8>)
    requires
        m.failing,
    ensures
        store_error(m) == Some(StoreError::BackendUnavailable),
        after_store(m, key, payload) == m,
        lookup(m, key) == Err::<Option<Seq<u8>>, StoreError>(StoreError::BackendUnavailable),
{
}

/// Two stores under one key: the second payload is what a retrieval gives.
pub proof fn lemma_last_write_wins(m: BackendModel, key: Seq<char>, first: Seq<u8>, second: Seq<u8>)
    requires
        !m.failing,
    ensures
        lookup(after_store(after_store(m, key, first), key, second), key) == Ok::<
            Option<Seq<u8>>,
            StoreError,
        >(Some(second)),
{
}

/// Stores under distinct keys do not disturb one another: each key gives
/// back its own payload.
pub proof fn lemma_distinct_keys(m: BackendModel, keys: Seq<Seq<char>>, payloads: Seq<Seq<u8>>)
    requires
        !m.failing,
        keys.len() == payloads.len(),
        keys.no_duplicates(),
    ensures
        forall|i: int|
            0 <= i < keys.len() ==> lookup(after_stores(m, keys, payloads), #[trigger] keys[i]) == Ok::<
                Option<Seq<u8>>,
                StoreError,
            >(Some(payloads[i])),
    decreases keys.len(),
{
    if keys.len() > 0 {
        let ks = keys.drop_last();
        let ps = payloads.drop_last();
        assert(ks.no_duplicates()) by {
            assert forall|a: int, b: int| 0 <= a < ks.len() && 0 <= b < ks.len() && a != b implies ks[a]
                != ks[b] by {
                assert(ks[a] == keys[a] && ks[b] == keys[b]);
            }
        }
        lemma_distinct_keys(m, ks, ps);
        lemma_stores_keep_working(m, ks, ps);
        assert forall|i: int| 0 <= i < keys.len() implies lookup(after_stores(m, keys, payloads), #[trigger] keys[i])
            == Ok::<Option<Seq<u8>>, StoreError>(Some(payloads[i])) by {
            if i < keys.len() - 1 {
                assert(ks[i] == keys[i]);
                assert(ps[i] == payloads[i]);
                assert(keys[i] != keys[keys.len() - 1]);
            }
        }
    }
}

} // verus!

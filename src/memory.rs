//! A key-value backend held in process memory, with the contract of the
//! external store: `exists`, `get` and an unconditional `set`. It can be
//! switched into a mode where every request fails as if the backend were
//! unreachable.

use vstd::prelude::*;
use crate::store::{BackendFault, BackendModel};

verus! {

/// The table that a log of writes leaves: later writes to a key replace
/// earlier ones.
pub open spec fn table(keys: Seq<Seq<char>>, values: Seq<Seq<u8>>) -> Map<Seq<char>, Seq<u8>>
    decreases keys.len(),
{
    if keys.len() == 0 || values.len() == 0 {
        Map::empty()
    } else {
        table(keys.drop_last(), values.drop_last()).insert(keys.last(), values.last())
    }
}

/// Writes after position `i` that touch other keys leave the entry of `k`
/// as the first `i` writes made it.
proof fn lemma_table_prefix(keys: Seq<Seq<char>>, values: Seq<Seq<u8>>, i: int, k: Seq<char>)
    requires
        keys.len() == values.len(),
        0 <= i <= keys.len(),
        forall|j: int| i <= j < keys.len() ==> keys[j] != k,
    ensures
        table(keys, values).contains_key(k) == table(keys.subrange(0, i), values.subrange(0, i)).contains_key(k),
        table(keys, values).contains_key(k) ==> table(keys, values)[k] == table(
            keys.subrange(0, i),
            values.subrange(0, i),
        )[k],
    decreases keys.len() - i,
{
    if i == keys.len() {
        assert(keys.subrange(0, i) =~= keys);
        assert(values.subrange(0, i) =~= values);
    } else {
        lemma_table_prefix(keys.drop_last(), values.drop_last(), i, k);
        assert(keys.drop_last().subrange(0, i) =~= keys.subrange(0, i));
        assert(values.drop_last().subrange(0, i) =~= values.subrange(0, i));
    }
}

/// An in-memory key-value store. Writes are kept as a log; a read finds the
/// latest write to its key.
pub struct MemoryBackend {
    log: Vec<(String, Vec<u8>)>,
    failing: bool,
}

impl MemoryBackend {
    /// The keys of the write log, as character sequences.
    closed spec fn key_log(&self) -> Seq<Seq<char>> {
        self.log@.map_values(|e: (String, Vec<u8>)| e.0@)
    }

    /// The values of the write log, as byte sequences.
    closed spec fn value_log(&self) -> Seq<Seq<u8>> {
        self.log@.map_values(|e: (String, Vec<u8>)| e.1@)
    }
}

impl View for MemoryBackend {
    type V = BackendModel;

    closed spec fn view(&self) -> BackendModel {
        BackendModel { entries: table(self.key_log(), self.value_log()), failing: self.failing }
    }
}

impl MemoryBackend {
    /// An empty backend that answers every request.
    pub fn new() -> (r: MemoryBackend)
        ensures
            r@.entries == Map::<Seq<char>, Seq<u8>>::empty(),
            !r@.failing,
    {
        let r = MemoryBackend { log: Vec::new(), failing: false };
        assert(r.key_log().len() == 0);
        r
    }

    /// Makes every later request fail (`true`) or succeed again (`false`).
    /// The entries are kept.
    pub fn set_failing(&mut self, failing: bool)
        ensures
            final(self)@.entries == old(self)@.entries,
            final(self)@.failing == failing,
    {
        self.failing = failing;
    }

    /// The position of the latest write to `key`, if any.
    fn find(&self, key: &String) -> (r: Option<usize>)
        ensures
            r is None ==> !self@.entries.contains_key(key@),
            r matches Some(i) ==> (i < self.log@.len() && self@.entries.contains_key(key@)
                && self@.entries[key@] == self.log@[i as int].1@),
    {
        let ghost keys = self.key_log();
        let ghost values = self.value_log();
        let mut i: usize = self.log.len();
        while i > 0
            invariant
                0 <= i <= self.log@.len(),
                keys == self.key_log(),
                values == self.value_log(),
                forall|j: int| i <= j < keys.len() ==> keys[j] != key@,
            decreases i,
        {
            let j = i - 1;
            if self.log[j].0 == *key {
                proof {
                    lemma_table_prefix(keys, values, j + 1, key@);
                    let ks = keys.subrange(0, j + 1);
                    let vs = values.subrange(0, j + 1);
                    assert(ks.drop_last() =~= keys.subrange(0, j as int));
                    assert(vs.drop_last() =~= values.subrange(0, j as int));
                }
                return Some(j);
            }
            i = j;
        }
        proof {
            lemma_table_prefix(keys, values, 0, key@);
        }
        None
    }

    /// Whether an entry is stored under `key`; fails when the backend fails.
    pub fn contains(&self, key: &String) -> (r: Result<bool, BackendFault>)
        ensures
            self@.failing ==> r == Err::<bool, BackendFault>(BackendFault::Unreachable),
            !self@.failing ==> r == Ok::<bool, BackendFault>(self@.entries.contains_key(key@)),
    {
        if self.failing {
            return Err(BackendFault::Unreachable);
        }
        match self.find(key) {
            Some(_) => Ok(true),
            None => Ok(false),
        }
    }

    /// The payload stored under `key`. Asking for an absent key is refused.
    pub fn get(&self, key: &String) -> (r: Result<Vec<u8>, BackendFault>)
        ensures
            self@.failing ==> r matches Err(BackendFault::Unreachable),
            !self@.failing && !self@.entries.contains_key(key@) ==> r matches Err(BackendFault::Rejected),
            !self@.failing && self@.entries.contains_key(key@) ==> (r matches Ok(v) && v@
                == self@.entries[key@]),
    {
        if self.failing {
            return Err(BackendFault::Unreachable);
        }
        match self.find(key) {
            Some(i) => Ok(self.log[i].1.clone()),
            None => Err(BackendFault::Rejected),
        }
    }

    /// Stores `value` under `key`, replacing what was there.
    pub fn set(&mut self, key: String, value: Vec<u8>) -> (r: Result<(), BackendFault>)
        ensures
            old(self)@.failing ==> (r matches Err(BackendFault::Unreachable) && final(self)@ == old(
                self,
            )@),
            !old(self)@.failing ==> r is Ok && final(self)@ == (BackendModel {
                entries: old(self)@.entries.insert(key@, value@),
                failing: false,
            }),
    {
        if self.failing {
            return Err(BackendFault::Unreachable);
        }
        let ghost keys0 = self.key_log();
        let ghost values0 = self.value_log();
        self.log.push((key, value));
        assert(self.key_log().drop_last() =~= keys0);
        assert(self.value_log().drop_last() =~= values0);
        Ok(())
    }
}

} // verus!

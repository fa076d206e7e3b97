//! The reversible history ledger: one record per applied rename, found again
//! by the fingerprint of the name the rename produced.
use vstd::prelude::*;
use crate::text::text_eq;

verus! {

/// One applied rename: the fingerprint of the new bare name, the previous
/// bare name encrypted under the new one, and the number of undo layers.
#[derive(Debug, Clone)]
pub struct Record {
    pub id: i32,
    pub hashed_current_name: String,
    pub encrypted_pre_name: String,
    pub count: i32,
}

/// What a record holds, as plain values.
pub struct RecordModel {
    pub hash: Seq<char>,
    pub cipher: Seq<char>,
    pub count: int,
}

impl Record {
    pub open spec fn model(&self) -> RecordModel {
        RecordModel {
            hash: self.hashed_current_name@,
            cipher: self.encrypted_pre_name@,
            count: self.count as int,
        }
    }

    /// A fresh record of one rename, single-use.
    pub fn new(hashed_current_name: String, encrypted_pre_name: String) -> (r: Record)
        ensures
            r.id == 0,
            r.hashed_current_name@ == hashed_current_name@,
            r.encrypted_pre_name@ == encrypted_pre_name@,
            r.count == 1,
    {
        Record { id: 0, hashed_current_name, encrypted_pre_name, count: 1 }
    }
}

/// Index of the most recent record among the first `k` whose fingerprint is
/// `h`.
pub open spec fn last_match(recs: Seq<RecordModel>, h: Seq<char>, k: int) -> Option<int>
    decreases k,
{
    if k <= 0 {
        None
    } else if recs[k - 1].hash == h {
        Some(k - 1)
    } else {
        last_match(recs, h, k - 1)
    }
}

pub open spec fn find(recs: Seq<RecordModel>, h: Seq<char>) -> Option<int> {
    last_match(recs, h, recs.len() as int)
}

/// The record written for a rename `old -> new`, given a fingerprint and an
/// encryption function.
pub open spec fn entry(
    fp: spec_fn(Seq<char>) -> Seq<char>,
    enc: spec_fn(Seq<char>, Seq<char>) -> Seq<char>,
    old: Seq<char>,
    new: Seq<char>,
) -> RecordModel {
    RecordModel { hash: fp(new), cipher: enc(old, new), count: 1 }
}

/// The name that preceded `cur`, recovered by fingerprint lookup and
/// decryption keyed by `cur`.
pub open spec fn resolve(
    recs: Seq<RecordModel>,
    fp: spec_fn(Seq<char>) -> Seq<char>,
    dec: spec_fn(Seq<char>, Seq<char>) -> Seq<char>,
    cur: Seq<char>,
) -> Option<Seq<char>> {
    match find(recs, fp(cur)) {
        Some(i) => Some(dec(recs[i].cipher, cur)),
        None => None,
    }
}

/// Decryption undoes encryption under the same key.
pub open spec fn round_trip(
    enc: spec_fn(Seq<char>, Seq<char>) -> Seq<char>,
    dec: spec_fn(Seq<char>, Seq<char>) -> Seq<char>,
) -> bool {
    forall|x: Seq<char>, k: Seq<char>| #[trigger] dec(enc(x, k), k) == x
}

/// Whatever was recorded before, the record of a rename `old -> new` leads
/// from `new` back to `old`.
pub proof fn lemma_round_trip(
    recs: Seq<RecordModel>,
    fp: spec_fn(Seq<char>) -> Seq<char>,
    enc: spec_fn(Seq<char>, Seq<char>) -> Seq<char>,
    dec: spec_fn(Seq<char>, Seq<char>) -> Seq<char>,
    old: Seq<char>,
    new: Seq<char>,
)
    requires
        round_trip(enc, dec),
    ensures
        resolve(recs.push(entry(fp, enc, old, new)), fp, dec, new) == Some(old),
{
    let l = recs.push(entry(fp, enc, old, new));
    assert(l[l.len() - 1] == entry(fp, enc, old, new));
    assert(dec(enc(old, new), new) == old);
}

proof fn lemma_last_match_push(recs: Seq<RecordModel>, r: RecordModel, h: Seq<char>)
    requires
        r.hash != h,
    ensures
        find(recs.push(r), h) == find(recs, h),
{
    let l = recs.push(r);
    lemma_last_match_prefix(l, recs, h, recs.len() as int);
}

proof fn lemma_last_match_prefix(l: Seq<RecordModel>, recs: Seq<RecordModel>, h: Seq<char>, k: int)
    requires
        0 <= k <= recs.len(),
        recs.len() <= l.len(),
        forall|i: int| 0 <= i < recs.len() ==> l[i] == recs[i],
    ensures
        last_match(l, h, k) == last_match(recs, h, k),
    decreases k,
{
    if k > 0 {
        lemma_last_match_prefix(l, recs, h, k - 1);
    }
}

/// Renames `n0 -> n1 -> n2`, recorded in turn, are walked back from `n2` to
/// `n1`, then to `n0`, where the walk ends: provided the three names have
/// distinct fingerprints and nothing recorded earlier leads back from `n0`.
/// The walk is the same when each step removes the record it used.
pub proof fn lemma_chain(
    recs: Seq<RecordModel>,
    fp: spec_fn(Seq<char>) -> Seq<char>,
    enc: spec_fn(Seq<char>, Seq<char>) -> Seq<char>,
    dec: spec_fn(Seq<char>, Seq<char>) -> Seq<char>,
    n0: Seq<char>,
    n1: Seq<char>,
    n2: Seq<char>,
)
    requires
        round_trip(enc, dec),
        fp(n0) != fp(n1),
        fp(n0) != fp(n2),
        fp(n1) != fp(n2),
        find(recs, fp(n0)) is None,
    ensures
        ({
            let l = recs.push(entry(fp, enc, n0, n1)).push(entry(fp, enc, n1, n2));
            &&& resolve(l, fp, dec, n2) == Some(n1)
            &&& resolve(l, fp, dec, n1) == Some(n0)
            &&& resolve(l, fp, dec, n0) is None
            &&& resolve(l.remove(l.len() - 1), fp, dec, n1) == Some(n0)
            &&& resolve(l.remove(l.len() - 1).remove(l.len() - 2), fp, dec, n0) is None
        }),
{
    let l1 = recs.push(entry(fp, enc, n0, n1));
    let l = l1.push(entry(fp, enc, n1, n2));
    lemma_round_trip(l1, fp, enc, dec, n1, n2);
    lemma_last_match_push(l1, entry(fp, enc, n1, n2), fp(n1));
    lemma_round_trip(recs, fp, enc, dec, n0, n1);
    lemma_last_match_push(l1, entry(fp, enc, n1, n2), fp(n0));
    lemma_last_match_push(recs, entry(fp, enc, n0, n1), fp(n0));
    assert(l[l1.len() - 1] == l1[l1.len() - 1]);
    assert(l.remove(l.len() - 1) =~= l1);
    assert(l1.remove(l1.len() - 1) =~= recs);
}

/// The records of applied renames, oldest first.
pub struct Ledger {
    pub records: Vec<Record>,
}

impl Ledger {
    pub open spec fn view(&self) -> Seq<RecordModel> {
        self.records@.map_values(|r: Record| r.model())
    }

    pub fn new() -> (r: Ledger)
        ensures
            r.view().len() == 0,
    {
        Ledger { records: Vec::new() }
    }

    /// Records one applied rename.
    pub fn insert(&mut self, rec: Record)
        ensures
            final(self).view() == old(self).view().push(rec.model()),
    {
        self.records.push(rec);
        assert(self.view() =~= old(self).view().push(rec.model()));
    }

    /// The most recent record whose fingerprint is `hash`.
    pub fn lookup(&self, hash: &str) -> (r: Option<usize>)
        ensures
            match r {
                Some(i) => find(self.view(), hash@) == Some(i as int) && i < self.view().len(),
                None => find(self.view(), hash@) is None,
            },
    {
        let mut k: usize = self.records.len();
        while k > 0
            invariant
                k <= self.records@.len(),
                find(self.view(), hash@) == last_match(self.view(), hash@, k as int),
            decreases k,
        {
            if text_eq(self.records[k - 1].hashed_current_name.as_str(), hash) {
                return Some(k - 1);
            }
            k = k - 1;
        }
        None
    }

    /// The stored ciphertext of the name that preceded the name with
    /// fingerprint `hash`, if a rename to that name was recorded.
    pub fn previous_cipher(&self, hash: &str) -> (r: Option<String>)
        ensures
            match find(self.view(), hash@) {
                Some(i) => r is Some && r->0@ == self.view()[i].cipher,
                None => r is None,
            },
    {
        match self.lookup(hash) {
            Some(i) => {
                let c = self.records[i].encrypted_pre_name.clone();
                Some(c)
            },
            None => None,
        }
    }

    /// Uses up one undo layer of record `i`: a single-use record is removed,
    /// one with more layers keeps them less one.
    pub fn consume(&mut self, i: usize)
        requires
            i < old(self).view().len(),
        ensures
            old(self).view()[i as int].count <= 1 ==> final(self).view() == old(self).view().remove(
                i as int,
            ),
            old(self).view()[i as int].count > 1 ==> final(self).view() == old(self).view().update(
                i as int,
                RecordModel {
                    hash: old(self).view()[i as int].hash,
                    cipher: old(self).view()[i as int].cipher,
                    count: old(self).view()[i as int].count - 1,
                },
            ),
    {
        if self.records[i].count <= 1 {
            self.records.remove(i);
            assert(self.view() =~= old(self).view().remove(i as int));
        } else {
            let rec = Record {
                id: self.records[i].id,
                hashed_current_name: self.records[i].hashed_current_name.clone(),
                encrypted_pre_name: self.records[i].encrypted_pre_name.clone(),
                count: self.records[i].count - 1,
            };
            self.records.set(i, rec);
            assert(self.view() =~= old(self).view().update(
                i as int,
                RecordModel {
                    hash: old(self).view()[i as int].hash,
                    cipher: old(self).view()[i as int].cipher,
                    count: old(self).view()[i as int].count - 1,
                },
            ));
        }
    }
}

/// The most undo steps a chain walk takes, in case the history loops.
pub const MAX_CHAIN: usize = 1024;

/// Whether a reversal walk goes on after `steps` steps: only in chain mode,
/// only while the last lookup found a previous name, and never past
/// `MAX_CHAIN` steps.
pub fn chain_continues(steps: usize, found: bool, chainly: bool) -> (r: bool)
    ensures
        r == (chainly && found && steps < MAX_CHAIN),
{
    chainly && found && steps < MAX_CHAIN
}

} // verus!

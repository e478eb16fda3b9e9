//! The stake ledger: at most one entry per staker identity.
use vstd::prelude::*;
use crate::accrual::{accrued, accrued_reward, days_between, elapsed_days};
use crate::types::{StakeEntry, StakerId, StakingError, TokenIdUnit};

verus! {

/// Balances below this many minor units are not kept: a withdrawal that
/// leaves less closes the entry, and no smaller stake is taken.
pub const DUST_THRESHOLD: u64 = 1000;

/// The entries of `s` as a map from key to entry; a later pair wins.
pub open spec fn map_of(s: Seq<(StakerId, StakeEntry)>) -> Map<Seq<u8>, StakeEntry>
    decreases s.len(),
{
    if s.len() == 0 {
        Map::empty()
    } else {
        map_of(s.drop_last()).insert(s.last().0.key(), s.last().1)
    }
}

/// No key occurs twice in `s`.
pub open spec fn unique_keys(s: Seq<(StakerId, StakeEntry)>) -> bool {
    forall|i: int, j: int| 0 <= i < j < s.len() ==> s[i].0.key() != s[j].0.key()
}

/// The principal held in all entries of `m`.
pub open spec fn total_principal(m: Map<Seq<u8>, StakeEntry>) -> int
    decreases m.dom().len(),
{
    if !m.dom().finite() || m.dom().len() == 0 {
        0
    } else {
        let k = m.dom().choose();
        m[k].amount + total_principal(m.remove(k))
    }
}

/// Removing any one entry takes exactly its amount off the total.
pub proof fn lemma_total_remove(m: Map<Seq<u8>, StakeEntry>, k: Seq<u8>)
    requires
        m.dom().finite(),
        m.contains_key(k),
    ensures
        total_principal(m) == m[k].amount + total_principal(m.remove(k)),
    decreases m.dom().len(),
{
    assert(m.dom().len() > 0);
    let j = m.dom().choose();
    if j != k {
        let mj = m.remove(j);
        let mk = m.remove(k);
        lemma_total_remove(mj, k);
        lemma_total_remove(mk, j);
        assert(mj.remove(k) =~= mk.remove(j));
    }
}

/// Setting the entry of `k` to `v` changes the total by the difference.
pub proof fn lemma_total_insert(m: Map<Seq<u8>, StakeEntry>, k: Seq<u8>, v: StakeEntry)
    requires
        m.dom().finite(),
    ensures
        total_principal(m.insert(k, v)) == v.amount + total_principal(m.remove(k)),
{
    lemma_total_remove(m.insert(k, v), k);
    assert(m.insert(k, v).remove(k) =~= m.remove(k));
}

proof fn lemma_map_of_dom(s: Seq<(StakerId, StakeEntry)>)
    ensures
        map_of(s).dom().finite(),
        forall|k: Seq<u8>|
            #![trigger map_of(s).contains_key(k)]
            map_of(s).contains_key(k) <==> exists|i: int| 0 <= i < s.len() && s[i].0.key() == k,
    decreases s.len(),
{
    if s.len() > 0 {
        let d = s.drop_last();
        lemma_map_of_dom(d);
        assert forall|k: Seq<u8>|
            map_of(s).contains_key(k) <==> exists|i: int| 0 <= i < s.len() && s[i].0.key() == k by {
            if map_of(s).contains_key(k) {
                if k == s.last().0.key() {
                    assert(s[s.len() - 1].0.key() == k);
                } else {
                    let i = choose|i: int| 0 <= i < d.len() && d[i].0.key() == k;
                    assert(s[i].0.key() == k);
                }
            }
            if exists|i: int| 0 <= i < s.len() && s[i].0.key() == k {
                let i = choose|i: int| 0 <= i < s.len() && s[i].0.key() == k;
                if i < s.len() - 1 {
                    assert(d[i].0.key() == k);
                }
            }
        }
    }
}

proof fn lemma_map_of_at(s: Seq<(StakerId, StakeEntry)>, i: int)
    requires
        unique_keys(s),
        0 <= i < s.len(),
    ensures
        map_of(s).contains_key(s[i].0.key()),
        map_of(s)[s[i].0.key()] == s[i].1,
    decreases s.len(),
{
    if i < s.len() - 1 {
        let d = s.drop_last();
        assert(unique_keys(d)) by {
            assert forall|a: int, b: int| 0 <= a < b < d.len() implies d[a].0.key()
                != d[b].0.key() by {
                assert(d[a] == s[a] && d[b] == s[b]);
            }
        }
        lemma_map_of_at(d, i);
        assert(d[i] == s[i]);
        assert(s[i].0.key() != s[s.len() - 1].0.key());
    }
}

proof fn lemma_map_of_remove(s: Seq<(StakerId, StakeEntry)>, i: int)
    requires
        unique_keys(s),
        0 <= i < s.len(),
    ensures
        unique_keys(s.remove(i)),
        map_of(s.remove(i)) == map_of(s).remove(s[i].0.key()),
    decreases s.len(),
{
    let k = s[i].0.key();
    let r = s.remove(i);
    assert(unique_keys(r)) by {
        assert forall|a: int, b: int| 0 <= a < b < r.len() implies r[a].0.key()
            != r[b].0.key() by {
            let a2 = if a < i { a } else { a + 1 };
            let b2 = if b < i { b } else { b + 1 };
            assert(r[a] == s[a2] && r[b] == s[b2]);
        }
    }
    let d = s.drop_last();
    assert(unique_keys(d)) by {
        assert forall|a: int, b: int| 0 <= a < b < d.len() implies d[a].0.key()
            != d[b].0.key() by {
            assert(d[a] == s[a] && d[b] == s[b]);
        }
    }
    if i == s.len() - 1 {
        assert(r =~= d);
        lemma_map_of_dom(d);
        assert(!map_of(d).contains_key(k)) by {
            if map_of(d).contains_key(k) {
                let j = choose|j: int| 0 <= j < d.len() && d[j].0.key() == k;
                assert(s[j].0.key() == k);
            }
        }
        assert(map_of(s).remove(k) =~= map_of(d));
    } else {
        lemma_map_of_remove(d, i);
        assert(r.drop_last() =~= d.remove(i));
        assert(r.last() == s.last());
        assert(s.last().0.key() != k);
        assert(map_of(r) =~= map_of(s).remove(k));
    }
}

/// The entry that a stake of `incoming` at time `now` leaves for a staker
/// whose entry was `prev`. A prior entry that has been held for whole days
/// earns its reward, which is folded into the new principal; either way the
/// clock restarts at `now`.
pub open spec fn merged_entry(
    prev: Option<StakeEntry>,
    incoming: u64,
    token_id: TokenIdUnit,
    now: u64,
    weight: u32,
    decimals: u8,
) -> Result<StakeEntry, StakingError> {
    match prev {
        None => Ok(StakeEntry { amount: incoming, time_of_stake: now, token_id }),
        Some(e) => if now < e.time_of_stake {
            Err(StakingError::DaysOfStakeCouldNotBeCalculated)
        } else {
            let sum = e.amount + compounded_reward(e, now, weight, decimals) + incoming;
            if sum > u64::MAX {
                Err(StakingError::Overflow)
            } else {
                Ok(StakeEntry { amount: sum as u64, time_of_stake: now, token_id })
            }
        },
    }
}

/// The reward that entry `e` has earned by time `now`.
pub open spec fn compounded_reward(e: StakeEntry, now: u64, weight: u32, decimals: u8) -> nat {
    accrued(
        e.amount as nat,
        weight as nat,
        decimals as nat,
        days_between(e.time_of_stake as nat, now as nat),
    )
}

/// What is left of `e` after a withdrawal leaves `new_balance`: nothing when
/// that is dust, else the entry with its amount set and its time kept.
pub open spec fn after_withdrawal(e: StakeEntry, new_balance: u64) -> Option<StakeEntry> {
    if new_balance < DUST_THRESHOLD {
        None
    } else {
        Some(StakeEntry { amount: new_balance, ..e })
    }
}

/// `m[k]`, if `m` holds `k`.
pub open spec fn lookup(m: Map<Seq<u8>, StakeEntry>, k: Seq<u8>) -> Option<StakeEntry> {
    if m.contains_key(k) {
        Some(m[k])
    } else {
        None
    }
}

/// The stake entries, one per staker.
pub struct StakeLedger {
    entries: Vec<(StakerId, StakeEntry)>,
}

impl View for StakeLedger {
    type V = Map<Seq<u8>, StakeEntry>;

    closed spec fn view(&self) -> Map<Seq<u8>, StakeEntry> {
        map_of(self.entries@)
    }
}

impl StakeLedger {
    /// The ledger's own invariant: each staker has at most one entry.
    pub closed spec fn wf(&self) -> bool {
        unique_keys(self.entries@)
    }

    pub fn new() -> (r: StakeLedger)
        ensures
            r.wf(),
            r@ == Map::<Seq<u8>, StakeEntry>::empty(),
    {
        StakeLedger { entries: Vec::new() }
    }

    /// A well-formed ledger holds finitely many entries.
    pub proof fn lemma_finite(&self)
        ensures
            self@.dom().finite(),
    {
        lemma_map_of_dom(self.entries@);
    }

    /// A ledger of the pairs in `pairs`; where a staker occurs twice, the
    /// later pair wins.
    pub fn from_pairs(pairs: &Vec<(StakerId, StakeEntry)>) -> (r: StakeLedger)
        ensures
            r.wf(),
            r@ == map_of(pairs@),
    {
        let mut ledger = StakeLedger::new();
        let mut i: usize = 0;
        while i < pairs.len()
            invariant
                i <= pairs@.len(),
                ledger.wf(),
                ledger@ == map_of(pairs@.take(i as int)),
            decreases pairs@.len() - i,
        {
            let (staker, entry) = pairs[i];
            ledger.put(staker, entry);
            assert(pairs@.take(i + 1).drop_last() =~= pairs@.take(i as int));
            i = i + 1;
        }
        assert(pairs@.take(i as int) =~= pairs@);
        ledger
    }

    /// The ledger's pairs, each staker once.
    pub fn pairs(&self) -> (r: Vec<(StakerId, StakeEntry)>)
        requires
            self.wf(),
        ensures
            unique_keys(r@),
            map_of(r@) == self@,
    {
        let mut r: Vec<(StakerId, StakeEntry)> = Vec::new();
        let mut i: usize = 0;
        while i < self.entries.len()
            invariant
                i <= self.entries@.len(),
                r@ == self.entries@.take(i as int),
            decreases self.entries@.len() - i,
        {
            r.push(self.entries[i]);
            assert(r@ =~= self.entries@.take(i + 1));
            i = i + 1;
        }
        assert(self.entries@.take(i as int) =~= self.entries@);
        r
    }

    /// The position of `staker`'s entry.
    fn position(&self, staker: &StakerId) -> (r: Option<usize>)
        requires
            self.wf(),
        ensures
            r.is_none() ==> !self@.contains_key(staker.key()),
            r.is_some() ==> r.unwrap() < self.entries@.len() && self.entries@[r.unwrap() as int].0.key()
                == staker.key(),
    {
        let mut i: usize = 0;
        while i < self.entries.len()
            invariant
                i <= self.entries@.len(),
                forall|j: int| 0 <= j < i ==> self.entries@[j].0.key() != staker.key(),
            decreases self.entries@.len() - i,
        {
            if self.entries[i].0.same_as(staker) {
                return Some(i);
            }
            i = i + 1;
        }
        proof {
            lemma_map_of_dom(self.entries@);
        }
        None
    }

    /// The entry of `staker`, if any. Reads only.
    pub fn get(&self, staker: &StakerId) -> (r: Option<StakeEntry>)
        requires
            self.wf(),
        ensures
            r == lookup(self@, staker.key()),
    {
        match self.position(staker) {
            Some(i) => {
                proof {
                    lemma_map_of_at(self.entries@, i as int);
                }
                Some(self.entries[i].1)
            },
            None => None,
        }
    }

    /// Deletes the entry of `staker`, if any.
    pub fn remove(&mut self, staker: &StakerId)
        requires
            old(self).wf(),
        ensures
            final(self).wf(),
            final(self)@ == old(self)@.remove(staker.key()),
    {
        match self.position(staker) {
            Some(i) => {
                proof {
                    lemma_map_of_remove(self.entries@, i as int);
                }
                self.entries.remove(i);
            },
            None => {
                assert(self@.remove(staker.key()) =~= self@);
            },
        }
    }

    /// Files `entry` under `staker`, replacing any earlier one.
    pub fn put(&mut self, staker: StakerId, entry: StakeEntry)
        requires
            old(self).wf(),
        ensures
            final(self).wf(),
            final(self)@ == old(self)@.insert(staker.key(), entry),
    {
        self.remove(&staker);
        let ghost before = self.entries@;
        proof {
            lemma_map_of_dom(before);
            assert(!map_of(before).contains_key(staker.key()));
        }
        self.entries.push((staker, entry));
        proof {
            assert(self.entries@.drop_last() =~= before);
            assert forall|a: int, b: int|
                0 <= a < b < self.entries@.len() implies self.entries@[a].0.key()
                != self.entries@[b].0.key() by {
                if b == before.len() {
                    assert(self.entries@[a] == before[a]);
                    assert(self.entries@[b].0.key() == staker.key());
                } else {
                    assert(self.entries@[a] == before[a] && self.entries@[b] == before[b]);
                }
            }
            assert(old(self)@.remove(staker.key()).insert(staker.key(), entry) =~= old(
                self,
            )@.insert(staker.key(), entry));
        }
    }

    /// Takes a stake of `incoming` for `staker` at time `now`: a first stake
    /// opens an entry; a later one merges into the existing entry, compounding
    /// the reward it has earned. Nothing changes on an error.
    pub fn upsert_on_stake(
        &mut self,
        staker: StakerId,
        incoming: u64,
        token_id: TokenIdUnit,
        now: u64,
        weight: u32,
        decimals: u8,
    ) -> (r: Result<StakeEntry, StakingError>)
        requires
            old(self).wf(),
        ensures
            final(self).wf(),
            r == merged_entry(lookup(old(self)@, staker.key()), incoming, token_id, now, weight, decimals),
            r.is_ok() ==> final(self)@ == old(self)@.insert(staker.key(), r.unwrap()),
            r.is_err() ==> final(self)@ == old(self)@,
    {
        let amount = match self.get(&staker) {
            None => incoming,
            Some(e) => {
                let days = match elapsed_days(e.time_of_stake, now) {
                    Ok(d) => d,
                    Err(err) => return Err(err),
                };
                let reward = match accrued_reward(e.amount, weight, decimals, days) {
                    Ok(v) => v,
                    Err(err) => return Err(err),
                };
                let sum = (e.amount as u128) + (reward as u128) + (incoming as u128);
                if sum > u64::MAX as u128 {
                    return Err(StakingError::Overflow);
                }
                sum as u64
            },
        };
        let entry = StakeEntry { amount, time_of_stake: now, token_id };
        self.put(staker, entry);
        Ok(entry)
    }

    /// Sets the balance of `staker`'s entry to `new_balance`, keeping its
    /// time; a balance under the dust threshold closes the entry instead.
    pub fn apply_partial_withdrawal(&mut self, staker: &StakerId, new_balance: u64)
        requires
            old(self).wf(),
            old(self)@.contains_key(staker.key()),
        ensures
            final(self).wf(),
            match after_withdrawal(old(self)@[staker.key()], new_balance) {
                None => final(self)@ == old(self)@.remove(staker.key()),
                Some(e) => final(self)@ == old(self)@.insert(staker.key(), e),
            },
    {
        if new_balance < DUST_THRESHOLD {
            self.remove(staker);
        } else {
            match self.get(staker) {
                Some(e) => self.put(*staker, StakeEntry { amount: new_balance, ..e }),
                None => {},
            }
        }
    }
}

} // verus!

//! Positions held until a deadline: the store behind blacklists and avoid
//! lists. Times are milliseconds on the caller's clock.
use vstd::prelude::*;
use crate::pos::BlockPos;

verus! {

/// The deadline of `p` in `s`, looking from the most recent entry back.
pub open spec fn deadline_in(s: Seq<(BlockPos, u64)>, p: BlockPos) -> Option<u64>
    decreases s.len(),
{
    if s.len() == 0 {
        None
    } else if s.last().0 == p {
        Some(s.last().1)
    } else {
        deadline_in(s.drop_last(), p)
    }
}

pub open spec fn keys_unique(s: Seq<(BlockPos, u64)>) -> bool {
    forall|i: int, j: int| 0 <= i < j < s.len() ==> s[i].0 != s[j].0
}

/// What survives a sweep at `now`: deadlines still ahead.
pub open spec fn unexpired(o: Option<u64>, now: u64) -> Option<u64> {
    match o {
        Some(u) => if now < u {
            Some(u)
        } else {
            None
        },
        None => None,
    }
}

proof fn lemma_found(s: Seq<(BlockPos, u64)>, i: int)
    requires
        keys_unique(s),
        0 <= i < s.len(),
    ensures
        deadline_in(s, s[i].0) == Some(s[i].1),
    decreases s.len(),
{
    if i < s.len() - 1 {
        lemma_found(s.drop_last(), i);
    }
}

proof fn lemma_absent(s: Seq<(BlockPos, u64)>, p: BlockPos)
    requires
        forall|i: int| 0 <= i < s.len() ==> s[i].0 != p,
    ensures
        deadline_in(s, p) is None,
    decreases s.len(),
{
    if s.len() > 0 {
        lemma_absent(s.drop_last(), p);
    }
}

proof fn lemma_present(s: Seq<(BlockPos, u64)>, p: BlockPos)
    requires
        keys_unique(s),
        deadline_in(s, p) is Some,
    ensures
        exists|i: int| 0 <= i < s.len() && s[i].0 == p,
{
    if !(exists|i: int| 0 <= i < s.len() && s[i].0 == p) {
        lemma_absent(s, p);
    }
}

/// `secs` seconds after `now` (in milliseconds), capped at the largest time.
pub open spec fn after_secs(now: u64, secs: u64) -> u64 {
    if now + secs * 1000 > u64::MAX {
        u64::MAX
    } else {
        (now + secs * 1000) as u64
    }
}

pub fn deadline_after(now: u64, secs: u64) -> (r: u64)
    ensures
        r == after_secs(now, secs),
{
    if secs > (u64::MAX - now) / 1000 {
        assert(now + secs * 1000 > u64::MAX) by (nonlinear_arith)
            requires secs > (u64::MAX - now) / 1000, now <= u64::MAX;
        u64::MAX
    } else {
        assert(now + secs * 1000 <= u64::MAX) by (nonlinear_arith)
            requires secs <= (u64::MAX - now) / 1000, now <= u64::MAX;
        now + secs * 1000
    }
}

/// A map from positions to deadlines.
pub struct Deadlines {
    entries: Vec<(BlockPos, u64)>,
}

impl Deadlines {
    pub closed spec fn deadline(&self, p: BlockPos) -> Option<u64> {
        deadline_in(self.entries@, p)
    }

    pub closed spec fn wf(&self) -> bool {
        keys_unique(self.entries@)
    }

    /// Whether `p` is held at time `now`.
    pub open spec fn holds(&self, p: BlockPos, now: u64) -> bool {
        match self.deadline(p) {
            Some(u) => now < u,
            None => false,
        }
    }

    pub fn new() -> (r: Deadlines)
        ensures
            r.wf(),
            forall|p: BlockPos| r.deadline(p) is None,
    {
        Deadlines { entries: Vec::new() }
    }

    pub fn get(&self, p: BlockPos) -> (r: Option<u64>)
        requires
            self.wf(),
        ensures
            r == self.deadline(p),
    {
        let mut i: usize = 0;
        while i < self.entries.len()
            invariant
                i <= self.entries.len(),
                keys_unique(self.entries@),
                forall|j: int| 0 <= j < i ==> self.entries@[j].0 != p,
            decreases self.entries.len() - i,
        {
            if self.entries[i].0 == p {
                proof {
                    lemma_found(self.entries@, i as int);
                }
                return Some(self.entries[i].1);
            }
            i = i + 1;
        }
        proof {
            lemma_absent(self.entries@, p);
        }
        None
    }

    /// Whether `p` is held at time `now`.
    pub fn is_held(&self, p: BlockPos, now: u64) -> (r: bool)
        requires
            self.wf(),
        ensures
            r == self.holds(p, now),
    {
        match self.get(p) {
            Some(u) => now < u,
            None => false,
        }
    }

    /// Sets the deadline of `p`, replacing any earlier one.
    pub fn insert(&mut self, p: BlockPos, until: u64)
        requires
            old(self).wf(),
        ensures
            final(self).wf(),
            forall|q: BlockPos|
                #[trigger] final(self).deadline(q) == if q == p {
                    Some(until)
                } else {
                    old(self).deadline(q)
                },
    {
        let mut i: usize = 0;
        while i < self.entries.len()
            invariant
                i <= self.entries.len(),
                self.entries@ == old(self).entries@,
                keys_unique(old(self).entries@),
                forall|j: int| 0 <= j < i ==> self.entries@[j].0 != p,
            decreases self.entries.len() - i,
        {
            if self.entries[i].0 == p {
                self.entries.set(i, (p, until));
                proof {
                    let s0 = old(self).entries@;
                    let s1 = self.entries@;
                    assert forall|a: int, b: int| 0 <= a < b < s1.len() implies s1[a].0 != s1[b].0 by {
                        assert(s0[a].0 != s0[b].0);
                    }
                    assert forall|q: BlockPos| #[trigger]
                        deadline_in(s1, q) == if q == p {
                            Some(until)
                        } else {
                            deadline_in(s0, q)
                        } by {
                        if q == p {
                            lemma_found(s1, i as int);
                        } else if exists|j: int| 0 <= j < s0.len() && s0[j].0 == q {
                            let j = choose|j: int| 0 <= j < s0.len() && s0[j].0 == q;
                            lemma_found(s0, j);
                            lemma_found(s1, j);
                        } else {
                            lemma_absent(s0, q);
                            lemma_absent(s1, q);
                        }
                    }
                }
                return;
            }
            i = i + 1;
        }
        self.entries.push((p, until));
        proof {
            assert(self.entries@.drop_last() == old(self).entries@);
        }
    }

    /// Drops every deadline that is not after `now`.
    pub fn retain_unexpired(&mut self, now: u64)
        requires
            old(self).wf(),
        ensures
            final(self).wf(),
            forall|q: BlockPos| #[trigger]
                final(self).deadline(q) == unexpired(old(self).deadline(q), now),
    {
        let ghost s = self.entries@;
        let mut kept: Vec<(BlockPos, u64)> = Vec::new();
        let mut i: usize = 0;
        while i < self.entries.len()
            invariant
                i <= self.entries.len(),
                self.entries@ == s,
                keys_unique(s),
                keys_unique(kept@),
                forall|q: BlockPos| #[trigger]
                    deadline_in(kept@, q) == unexpired(deadline_in(s.subrange(0, i as int), q), now),
            decreases self.entries.len() - i,
        {
            let e = self.entries[i];
            proof {
                let si = s.subrange(0, i as int);
                let s2 = s.subrange(0, i + 1);
                assert(s2.drop_last() == si);
                assert(s2.last() == e);
                if exists|k: int| 0 <= k < kept@.len() && kept@[k].0 == e.0 {
                    let k = choose|k: int| 0 <= k < kept@.len() && kept@[k].0 == e.0;
                    lemma_found(kept@, k);
                    lemma_present(si, e.0);
                }
                assert forall|j: int| 0 <= j < si.len() implies si[j].0 != e.0 by {
                    assert(s[j].0 != s[i as int].0);
                }
                lemma_absent(si, e.0);
            }
            let ghost before = kept@;
            if now < e.1 {
                kept.push(e);
            }
            proof {
                let si = s.subrange(0, i as int);
                let s2 = s.subrange(0, i + 1);
                assert forall|q: BlockPos| #[trigger]
                    deadline_in(kept@, q) == unexpired(deadline_in(s2, q), now) by {
                    assert(deadline_in(before, q) == unexpired(deadline_in(si, q), now));
                    assert(s2.drop_last() == si);
                    assert(deadline_in(s2, q) == if q == e.0 {
                        Some(e.1)
                    } else {
                        deadline_in(si, q)
                    });
                    if now < e.1 {
                        assert(kept@.drop_last() == before);
                    }
                }
                assert forall|a: int, b: int| 0 <= a < b < kept@.len() implies kept@[a].0
                    != kept@[b].0 by {
                    if now < e.1 && b == kept@.len() - 1 {
                        assert(before[a] == kept@[a]);
                        if before[a].0 == e.0 {
                            lemma_found(before, a);
                        }
                    } else {
                        assert(before[a] == kept@[a]);
                        assert(before[b] == kept@[b]);
                    }
                }
            }
            i = i + 1;
        }
        proof {
            assert(s.subrange(0, s.len() as int) == s);
        }
        self.entries = kept;
    }

    pub fn clear(&mut self)
        ensures
            final(self).wf(),
            forall|q: BlockPos| final(self).deadline(q) is None,
    {
        self.entries = Vec::new();
    }
}

} // verus!

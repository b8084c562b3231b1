//! A ledger from account names to balances, with its running total.
use vstd::prelude::*;

verus! {

/// No two entries carry the same name.
pub open spec fn keys_unique(s: Seq<(String, u128)>) -> bool {
    forall|i: int, j: int| 0 <= i < j < s.len() ==> #[trigger] s[i].0@ != #[trigger] s[j].0@
}

/// The balance recorded for `k`, zero where it has no entry.
pub open spec fn balance_in(s: Seq<(String, u128)>, k: Seq<char>) -> nat
    decreases s.len(),
{
    if s.len() == 0 {
        0
    } else if s.last().0@ == k {
        s.last().1 as nat
    } else {
        balance_in(s.drop_last(), k)
    }
}

/// The sum of all balances.
pub open spec fn total_of(s: Seq<(String, u128)>) -> nat
    decreases s.len(),
{
    if s.len() == 0 {
        0
    } else {
        total_of(s.drop_last()) + s.last().1 as nat
    }
}

proof fn lemma_balance_le_total(s: Seq<(String, u128)>, k: Seq<char>)
    ensures
        balance_in(s, k) <= total_of(s),
    decreases s.len(),
{
    if s.len() > 0 {
        lemma_balance_le_total(s.drop_last(), k);
    }
}

proof fn lemma_absent(s: Seq<(String, u128)>, k: Seq<char>)
    requires
        forall|i: int| 0 <= i < s.len() ==> (#[trigger] s[i]).0@ != k,
    ensures
        balance_in(s, k) == 0,
    decreases s.len(),
{
    if s.len() > 0 {
        assert(s[s.len() - 1].0@ != k);
        assert forall|i: int| 0 <= i < s.drop_last().len() implies (#[trigger] s.drop_last()[i]).0@ != k by {
            assert(s.drop_last()[i] == s[i]);
        }
        lemma_absent(s.drop_last(), k);
    }
}

proof fn lemma_present(s: Seq<(String, u128)>, i: int)
    requires
        keys_unique(s),
        0 <= i < s.len(),
    ensures
        balance_in(s, s[i].0@) == s[i].1,
    decreases s.len(),
{
    let t = s.drop_last();
    if i < s.len() - 1 {
        assert(s[i].0@ != s[s.len() - 1].0@);
        assert(t[i] == s[i]);
        assert(keys_unique(t)) by {
            assert forall|a: int, b: int| 0 <= a < b < t.len() implies #[trigger] t[a].0@ != #[trigger] t[b].0@ by {
                assert(t[a] == s[a] && t[b] == s[b]);
            }
        }
        lemma_present(t, i);
    }
}

proof fn lemma_update(s: Seq<(String, u128)>, i: int, e: (String, u128))
    requires
        keys_unique(s),
        0 <= i < s.len(),
        e.0@ == s[i].0@,
    ensures
        keys_unique(s.update(i, e)),
        total_of(s.update(i, e)) == total_of(s) - s[i].1 + e.1,
        forall|k: Seq<char>|
            #[trigger] balance_in(s.update(i, e), k) == if k == e.0@ {
                e.1 as nat
            } else {
                balance_in(s, k)
            },
    decreases s.len(),
{
    let u = s.update(i, e);
    let n = s.len() - 1;
    assert(keys_unique(u)) by {
        assert forall|a: int, b: int| 0 <= a < b < u.len() implies #[trigger] u[a].0@ != #[trigger] u[b].0@ by {
            assert(u[a].0@ == s[a].0@ && u[b].0@ == s[b].0@);
        }
    }
    if i == n {
        assert(u.drop_last() =~= s.drop_last());
        assert forall|k: Seq<char>| #[trigger] balance_in(u, k) == if k == e.0@ {
            e.1 as nat
        } else {
            balance_in(s, k)
        } by {}
    } else {
        let t = s.drop_last();
        assert(keys_unique(t)) by {
            assert forall|a: int, b: int| 0 <= a < b < t.len() implies #[trigger] t[a].0@ != #[trigger] t[b].0@ by {
                assert(t[a] == s[a] && t[b] == s[b]);
            }
        }
        lemma_update(t, i, e);
        assert(u.drop_last() =~= t.update(i, e));
        assert(u.last() == s.last());
        assert(s[n].0@ != s[i].0@);
        assert forall|k: Seq<char>| #[trigger] balance_in(u, k) == if k == e.0@ {
            e.1 as nat
        } else {
            balance_in(s, k)
        } by {
            assert(balance_in(t.update(i, e), k) == if k == e.0@ {
                e.1 as nat
            } else {
                balance_in(t, k)
            });
        }
    }
}

proof fn lemma_push(s: Seq<(String, u128)>, e: (String, u128))
    requires
        keys_unique(s),
        forall|i: int| 0 <= i < s.len() ==> (#[trigger] s[i]).0@ != e.0@,
    ensures
        keys_unique(s.push(e)),
        total_of(s.push(e)) == total_of(s) + e.1,
        forall|k: Seq<char>|
            #[trigger] balance_in(s.push(e), k) == if k == e.0@ {
                e.1 as nat
            } else {
                balance_in(s, k)
            },
{
    let u = s.push(e);
    assert(u.drop_last() =~= s);
    assert(keys_unique(u)) by {
        assert forall|a: int, b: int| 0 <= a < b < u.len() implies #[trigger] u[a].0@ != #[trigger] u[b].0@ by {
            if b == s.len() {
                assert(u[a] == s[a]);
            } else {
                assert(u[a] == s[a] && u[b] == s[b]);
            }
        }
    }
    assert forall|k: Seq<char>| #[trigger] balance_in(u, k) == if k == e.0@ {
        e.1 as nat
    } else {
        balance_in(s, k)
    } by {}
}

/// Balances by account name; an account without an entry holds zero.
pub struct BalanceBook {
    pub entries: Vec<(String, u128)>,
}

impl BalanceBook {
    pub open spec fn wf(&self) -> bool {
        keys_unique(self.entries@)
    }

    /// What `k` holds.
    pub open spec fn balance(&self, k: Seq<char>) -> nat {
        balance_in(self.entries@, k)
    }

    /// What all accounts hold together.
    pub open spec fn total(&self) -> nat {
        total_of(self.entries@)
    }

    pub fn new() -> (r: BalanceBook)
        ensures
            r.wf(),
            r.total() == 0,
            forall|k: Seq<char>| #[trigger] r.balance(k) == 0,
    {
        BalanceBook { entries: Vec::new() }
    }

    fn find(&self, k: &String) -> (r: Option<usize>)
        ensures
            match r {
                Some(i) => i < self.entries@.len() && self.entries@[i as int].0@ == k@,
                None => forall|i: int| 0 <= i < self.entries@.len() ==> (#[trigger] self.entries@[i]).0@ != k@,
            },
    {
        let mut i: usize = 0;
        while i < self.entries.len()
            invariant
                i <= self.entries@.len(),
                forall|j: int| 0 <= j < i ==> (#[trigger] self.entries@[j]).0@ != k@,
            decreases self.entries@.len() - i,
        {
            if self.entries[i].0 == *k {
                return Some(i);
            }
            i = i + 1;
        }
        None
    }

    /// The balance of `k`.
    pub fn get(&self, k: &String) -> (r: u128)
        requires
            self.wf(),
        ensures
            r == self.balance(k@),
    {
        match self.find(k) {
            Some(i) => {
                proof {
                    lemma_present(self.entries@, i as int);
                }
                self.entries[i].1
            },
            None => {
                proof {
                    lemma_absent(self.entries@, k@);
                }
                0
            },
        }
    }

    /// No single balance exceeds the total.
    pub proof fn lemma_balance_le_total(&self, k: Seq<char>)
        ensures
            self.balance(k) <= self.total(),
    {
        lemma_balance_le_total(self.entries@, k);
    }

    /// Sets the balance of `k` to `v`, leaving every other account as it was.
    pub fn set(&mut self, k: &String, v: u128)
        requires
            old(self).wf(),
        ensures
            final(self).wf(),
            final(self).balance(k@) == v,
            forall|a: Seq<char>| a != k@ ==> #[trigger] final(self).balance(a) == old(self).balance(a),
            final(self).total() == old(self).total() - old(self).balance(k@) + v,
    {
        match self.find(k) {
            Some(i) => {
                let key = k.clone();
                proof {
                    lemma_present(self.entries@, i as int);
                    lemma_update(self.entries@, i as int, (key, v));
                }
                self.entries.set(i, (key, v));
            },
            None => {
                let key = k.clone();
                proof {
                    lemma_absent(self.entries@, k@);
                    lemma_push(self.entries@, (key, v));
                }
                self.entries.push((key, v));
            },
        }
    }
}

} // verus!

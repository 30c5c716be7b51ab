//! The pending-proposal table, keyed by proposal id. Contracts are stated
//! over the ghost views of the stored proposals.

use vstd::prelude::*;
use crate::types::{AdminProposal, ProposalV, proposal_view};

verus! {

/// No two proposals share an id.
pub open spec fn pids_distinct(s: Seq<ProposalV>) -> bool {
    forall|i: int, j: int| 0 <= i < j < s.len() ==> s[i].id != s[j].id
}

/// Some proposal has id `k`.
pub open spec fn has_pid(s: Seq<ProposalV>, k: u64) -> bool {
    exists|i: int| 0 <= i < s.len() && s[i].id == k
}

/// The index of the proposal with id `k` (meaningful only when `has_pid`).
pub open spec fn pidx_of(s: Seq<ProposalV>, k: u64) -> int {
    choose|i: int| 0 <= i < s.len() && s[i].id == k
}

/// The proposal stored under id `k` (meaningful only when `has_pid`).
pub open spec fn pval_of(s: Seq<ProposalV>, k: u64) -> ProposalV {
    s[pidx_of(s, k)]
}

/// `n` is `o` with the proposal of `p`'s id replaced by `p`, or with `p`
/// appended when its id was absent.
pub open spec fn p_upserted(o: Seq<ProposalV>, n: Seq<ProposalV>, p: ProposalV) -> bool {
    if has_pid(o, p.id) {
        n == o.update(pidx_of(o, p.id), p)
    } else {
        n == o.push(p)
    }
}

/// `n` is `o` with the proposal under id `k` removed, or `o` itself when
/// absent.
pub open spec fn p_removed(o: Seq<ProposalV>, n: Seq<ProposalV>, k: u64) -> bool {
    if has_pid(o, k) {
        n == o.remove(pidx_of(o, k))
    } else {
        n == o
    }
}

/// With distinct ids, the index of a present id is unique.
pub proof fn lemma_pidx_unique(s: Seq<ProposalV>, k: u64, i: int)
    requires
        pids_distinct(s),
        0 <= i < s.len(),
        s[i].id == k,
    ensures
        pidx_of(s, k) == i,
        has_pid(s, k),
{
    assert(has_pid(s, k));
    let j = pidx_of(s, k);
    if j != i {
        assert(s[i].id == s[j].id);
        assert(false);
    }
}

/// What an upsert does to every observable of the table.
pub proof fn lemma_p_upserted(o: Seq<ProposalV>, n: Seq<ProposalV>, p: ProposalV)
    requires
        pids_distinct(o),
        p_upserted(o, n, p),
    ensures
        pids_distinct(n),
        has_pid(n, p.id),
        pval_of(n, p.id) == p,
        forall|k2: u64| k2 != p.id ==> has_pid(n, k2) == has_pid(o, k2),
        forall|k2: u64| k2 != p.id && has_pid(o, k2) ==> #[trigger] pval_of(n, k2) == pval_of(
            o,
            k2,
        ),
{
    if has_pid(o, p.id) {
        let i = pidx_of(o, p.id);
        assert(forall|j: int| 0 <= j < n.len() && j != i ==> n[j] == o[j]);
        assert(pids_distinct(n));
        lemma_pidx_unique(n, p.id, i);
        assert forall|k2: u64| k2 != p.id implies has_pid(n, k2) == has_pid(o, k2) by {
            if has_pid(o, k2) {
                let j = pidx_of(o, k2);
                assert(n[j].id == k2);
            }
            if has_pid(n, k2) {
                let j = pidx_of(n, k2);
                assert(o[j].id == k2);
            }
        }
        assert forall|k2: u64| k2 != p.id && has_pid(o, k2) implies #[trigger] pval_of(n, k2)
            == pval_of(o, k2) by {
            let j = pidx_of(o, k2);
            lemma_pidx_unique(o, k2, j);
            assert(n[j] == o[j]);
            lemma_pidx_unique(n, k2, j);
        }
    } else {
        let l = o.len() as int;
        assert forall|i: int, j: int| 0 <= i < j < n.len() implies n[i].id != n[j].id by {
            if j < l {
                assert(n[i] == o[i] && n[j] == o[j]);
            } else {
                assert(n[j] == p);
                assert(n[i] == o[i]);
                assert(has_pid(o, p.id) || n[i].id != p.id);
            }
        }
        lemma_pidx_unique(n, p.id, l);
        assert forall|k2: u64| k2 != p.id implies has_pid(n, k2) == has_pid(o, k2) by {
            if has_pid(o, k2) {
                let j = pidx_of(o, k2);
                assert(n[j].id == k2);
            }
            if has_pid(n, k2) {
                let j = pidx_of(n, k2);
                assert(j != l);
                assert(o[j].id == k2);
            }
        }
        assert forall|k2: u64| k2 != p.id && has_pid(o, k2) implies #[trigger] pval_of(n, k2)
            == pval_of(o, k2) by {
            let j = pidx_of(o, k2);
            lemma_pidx_unique(o, k2, j);
            assert(n[j] == o[j]);
            lemma_pidx_unique(n, k2, j);
        }
    }
}

/// What a removal does to every observable of the table.
pub proof fn lemma_p_removed(o: Seq<ProposalV>, n: Seq<ProposalV>, k: u64)
    requires
        pids_distinct(o),
        p_removed(o, n, k),
    ensures
        pids_distinct(n),
        !has_pid(n, k),
        forall|k2: u64| k2 != k ==> has_pid(n, k2) == has_pid(o, k2),
        forall|k2: u64| k2 != k && has_pid(o, k2) ==> #[trigger] pval_of(n, k2) == pval_of(o, k2),
{
    if has_pid(o, k) {
        let i = pidx_of(o, k);
        lemma_pidx_unique(o, k, i);
        assert(forall|j: int| 0 <= j < i ==> n[j] == o[j]);
        assert(forall|j: int| i <= j < n.len() ==> n[j] == o[j + 1]);
        assert forall|p: int, q: int| 0 <= p < q < n.len() implies n[p].id != n[q].id by {
            let p0 = if p < i { p } else { p + 1 };
            let q0 = if q < i { q } else { q + 1 };
            assert(n[p] == o[p0] && n[q] == o[q0]);
        }
        if has_pid(n, k) {
            let j = pidx_of(n, k);
            let j0 = if j < i { j } else { j + 1 };
            assert(o[j0].id == k);
            lemma_pidx_unique(o, k, j0);
            assert(false);
        }
        assert forall|k2: u64| k2 != k implies has_pid(n, k2) == has_pid(o, k2) by {
            if has_pid(o, k2) {
                let j = pidx_of(o, k2);
                lemma_pidx_unique(o, k2, j);
                assert(j != i);
                if j < i {
                    assert(n[j].id == k2);
                } else {
                    assert(n[j - 1].id == k2);
                }
            }
            if has_pid(n, k2) {
                let j = pidx_of(n, k2);
                let j0 = if j < i { j } else { j + 1 };
                assert(o[j0].id == k2);
            }
        }
        assert forall|k2: u64| k2 != k && has_pid(o, k2) implies #[trigger] pval_of(n, k2)
            == pval_of(o, k2) by {
            let j = pidx_of(o, k2);
            lemma_pidx_unique(o, k2, j);
            assert(j != i);
            let j1 = if j < i { j } else { j - 1 };
            assert(n[j1] == o[j]);
            lemma_pidx_unique(n, k2, j1);
        }
    }
}

/// The pending proposals, in insertion order.
pub struct ProposalList {
    pub items: Vec<AdminProposal>,
}

impl ProposalList {
    /// The ghost views of the stored proposals, in order.
    pub open spec fn view_seq(&self) -> Seq<ProposalV> {
        self.items@.map_values(|p: AdminProposal| proposal_view(p))
    }

    pub open spec fn wf(&self) -> bool {
        pids_distinct(self.view_seq())
    }

    pub fn new() -> (r: ProposalList)
        ensures
            r.view_seq() =~= Seq::<ProposalV>::empty(),
            r.wf(),
    {
        ProposalList { items: Vec::new() }
    }

    pub fn len(&self) -> (r: usize)
        ensures
            r == self.view_seq().len(),
    {
        self.items.len()
    }

    fn find(&self, id: u64) -> (r: Option<usize>)
        requires
            self.wf(),
        ensures
            match r {
                Some(i) => i < self.view_seq().len() && self.view_seq()[i as int].id == id && i
                    == pidx_of(self.view_seq(), id),
                None => !has_pid(self.view_seq(), id),
            },
    {
        let n = self.items.len();
        let mut i: usize = 0;
        while i < n
            invariant
                n == self.items@.len(),
                i <= n,
                self.wf(),
                forall|j: int| 0 <= j < i ==> self.view_seq()[j].id != id,
            decreases n - i,
        {
            if self.items[i].id == id {
                proof {
                    lemma_pidx_unique(self.view_seq(), id, i as int);
                }
                return Some(i);
            }
            i += 1;
        }
        None
    }

    pub fn get<'a>(&'a self, id: u64) -> (r: Option<&'a AdminProposal>)
        requires
            self.wf(),
        ensures
            match r {
                Some(p) => has_pid(self.view_seq(), id) && proposal_view(*p) == pval_of(
                    self.view_seq(),
                    id,
                ),
                None => !has_pid(self.view_seq(), id),
            },
    {
        match self.find(id) {
            Some(i) => Some(&self.items[i]),
            None => None,
        }
    }

    pub fn index_of(&self, id: u64) -> (r: Option<usize>)
        requires
            self.wf(),
        ensures
            match r {
                Some(i) => i < self.view_seq().len() && self.view_seq()[i as int].id == id && i
                    == pidx_of(self.view_seq(), id) && has_pid(self.view_seq(), id),
                None => !has_pid(self.view_seq(), id),
            },
    {
        let r = self.find(id);
        proof {
            if let Some(i) = r {
                lemma_pidx_unique(self.view_seq(), id, i as int);
            }
        }
        r
    }

    pub fn upsert(&mut self, p: AdminProposal)
        requires
            old(self).wf(),
        ensures
            p_upserted(old(self).view_seq(), final(self).view_seq(), proposal_view(p)),
            final(self).wf(),
    {
        let ghost o = self.view_seq();
        let ghost pv = proposal_view(p);
        match self.find(p.id) {
            Some(i) => {
                self.items.remove(i);
                self.items.insert(i, p);
                proof {
                    assert(self.view_seq() =~= o.update(pidx_of(o, pv.id), pv));
                    lemma_p_upserted(o, self.view_seq(), pv);
                }
            },
            None => {
                self.items.push(p);
                proof {
                    assert(self.view_seq() =~= o.push(pv));
                    lemma_p_upserted(o, self.view_seq(), pv);
                }
            },
        }
    }

    /// Replaces the proposal at `i` without changing its id.
    pub fn set_at(&mut self, i: usize, p: AdminProposal)
        requires
            old(self).wf(),
            i < old(self).view_seq().len(),
            proposal_view(p).id == old(self).view_seq()[i as int].id,
        ensures
            final(self).view_seq() =~= old(self).view_seq().update(i as int, proposal_view(p)),
            final(self).wf(),
    {
        let ghost o = self.view_seq();
        self.items.remove(i);
        self.items.insert(i, p);
        proof {
            assert(self.view_seq() =~= o.update(i as int, proposal_view(p)));
            assert forall|a: int, b: int|
                0 <= a < b < self.view_seq().len() implies self.view_seq()[a].id
                != self.view_seq()[b].id by {
                assert(o[a].id != o[b].id);
            }
        }
    }

    pub fn remove_id(&mut self, id: u64) -> (r: Option<AdminProposal>)
        requires
            old(self).wf(),
        ensures
            p_removed(old(self).view_seq(), final(self).view_seq(), id),
            final(self).wf(),
            match r {
                Some(p) => has_pid(old(self).view_seq(), id) && proposal_view(p) == pval_of(
                    old(self).view_seq(),
                    id,
                ),
                None => !has_pid(old(self).view_seq(), id),
            },
    {
        let ghost o = self.view_seq();
        match self.find(id) {
            Some(i) => {
                let p = self.items.remove(i);
                proof {
                    assert(self.view_seq() =~= o.remove(pidx_of(o, id)));
                    lemma_p_removed(o, self.view_seq(), id);
                }
                Some(p)
            },
            None => None,
        }
    }

    pub fn clear(&mut self)
        ensures
            final(self).view_seq() =~= Seq::<ProposalV>::empty(),
            final(self).wf(),
    {
        self.items.clear();
    }
}

} // verus!

//! The committee view: the ordered list of authorities with their stakes and
//! keys, the quorum arithmetic, and the worker registration cache.
//!
//! The enumeration order of the authorities is the canonical source of truth
//! for every signer bitmap of this crate; it is pinned by requiring the
//! identifiers to be strictly increasing.

use vstd::prelude::*;

use crate::crypto::{NetworkPublicKeyBytes, PublicKeyBytes};
use crate::{Epoch, Stake, WorkerId};

verus! {

/// A totally ordered identifier of an authority within a committee.
#[derive(Clone, Copy, Debug, PartialEq, Eq, PartialOrd, Ord, Hash, Default, Structural)]
pub struct AuthorityIdentifier(pub u16);

/// One member of a committee: its identifier, its voting power, and its
/// protocol (signing) public key.
#[derive(Clone, Debug)]
pub struct Authority {
    pub id: AuthorityIdentifier,
    pub stake: Stake,
    pub protocol_key: PublicKeyBytes,
}

/// The committee of one epoch: the authorities in canonical enumeration
/// order.
#[derive(Clone, Debug)]
pub struct Committee {
    pub authorities: Vec<Authority>,
    pub epoch: Epoch,
}

/// Sum of the stakes of a sequence of authorities.
pub open spec fn stake_sum(s: Seq<Authority>) -> int
    decreases s.len(),
{
    if s.len() == 0 {
        0
    } else {
        stake_sum(s.drop_last()) + s.last().stake
    }
}

/// Index of the first authority with the given identifier, or -1 if none.
pub open spec fn find_index(s: Seq<Authority>, id: AuthorityIdentifier) -> int
    decreases s.len(),
{
    if s.len() == 0 {
        -1
    } else if s[0].id == id {
        0
    } else {
        let r = find_index(s.subrange(1, s.len() as int), id);
        if r < 0 {
            -1
        } else {
            r + 1
        }
    }
}

pub proof fn lemma_find_index(s: Seq<Authority>, id: AuthorityIdentifier)
    ensures
        find_index(s, id) >= 0 ==> {
            &&& find_index(s, id) < s.len()
            &&& s[find_index(s, id)].id == id
            &&& forall|j: int| 0 <= j < find_index(s, id) ==> s[j].id != id
        },
        find_index(s, id) < 0 ==> forall|j: int| 0 <= j < s.len() ==> s[j].id != id,
    decreases s.len(),
{
    if s.len() > 0 && s[0].id != id {
        lemma_find_index(s.subrange(1, s.len() as int), id);
        assert forall|j: int| 1 <= j < s.len() implies s[j] == s.subrange(
            1,
            s.len() as int,
        )[j - 1] by {}
    }
}

pub proof fn lemma_stake_sum_prefix(s: Seq<Authority>, k: int)
    requires
        0 <= k <= s.len(),
    ensures
        stake_sum(s.take(k)) + stake_sum(s.skip(k)) == stake_sum(s),
    decreases s.len() - k,
{
    if k == s.len() {
        assert(s.take(k) =~= s);
        assert(s.skip(k) =~= Seq::<Authority>::empty());
    } else {
        lemma_stake_sum_prefix(s, k + 1);
        assert(s.take(k + 1).drop_last() =~= s.take(k));
        let tail = s.skip(k);
        let tail1 = s.skip(k + 1);
        assert(stake_sum(s.take(k + 1)) == stake_sum(s.take(k)) + s[k].stake);
        lemma_stake_sum_head(tail);
        assert(tail.subrange(1, tail.len() as int) =~= tail1);
    }
}

/// Peeling one authority off the front of a sum.
pub proof fn lemma_stake_sum_head(s: Seq<Authority>)
    requires
        s.len() > 0,
    ensures
        stake_sum(s) == s[0].stake + stake_sum(s.subrange(1, s.len() as int)),
    decreases s.len(),
{
    if s.len() == 1 {
        assert(s.drop_last() =~= Seq::<Authority>::empty());
        assert(s.subrange(1, s.len() as int) =~= Seq::<Authority>::empty());
    } else {
        let t = s.subrange(1, s.len() as int);
        lemma_stake_sum_head(s.drop_last());
        assert(s.drop_last().subrange(1, s.drop_last().len() as int) =~= t.drop_last());
        assert(s.last() == t.last());
    }
}

pub proof fn lemma_stake_sum_nonneg(s: Seq<Authority>)
    requires
        forall|i: int| 0 <= i < s.len() ==> s[i].stake >= 0,
    ensures
        stake_sum(s) >= 0,
    decreases s.len(),
{
    if s.len() > 0 {
        lemma_stake_sum_nonneg(s.drop_last());
    }
}

impl Committee {
    /// Well-formedness: identifiers strictly increase along the enumeration
    /// (which both orders the committee canonically and makes them unique),
    /// every member holds positive stake, and the total stake leaves room
    /// for the quorum arithmetic.
    pub open spec fn wf(&self) -> bool {
        &&& forall|i: int, j: int|
            0 <= i < j < self.authorities.len() ==> self.authorities@[i].id.0
                < self.authorities@[j].id.0
        &&& forall|i: int| 0 <= i < self.authorities.len() ==> self.authorities@[i].stake >= 1
        &&& 2 * stake_sum(self.authorities@) <= u64::MAX
        &&& self.authorities.len() <= u32::MAX
    }

    /// Total voting power of the committee.
    pub open spec fn spec_total_stake(&self) -> int {
        stake_sum(self.authorities@)
    }

    /// The quorum threshold: strictly more than two thirds of the total
    /// stake.
    pub open spec fn spec_quorum_threshold(&self) -> int {
        2 * self.spec_total_stake() / 3 + 1
    }

    /// Whether an authority with this identifier is a member.
    pub open spec fn spec_has_authority(&self, id: AuthorityIdentifier) -> bool {
        find_index(self.authorities@, id) >= 0
    }

    /// The stake of the authority with this identifier, or 0 if it is not a
    /// member.
    pub open spec fn spec_stake_of(&self, id: AuthorityIdentifier) -> int {
        if self.spec_has_authority(id) {
            self.authorities@[find_index(self.authorities@, id)].stake as int
        } else {
            0
        }
    }

    /// Build a committee after checking well-formedness; `None` when the
    /// authorities are not strictly ordered by identifier, some stake is
    /// zero, or the total stake is too large.
    pub fn new(authorities: Vec<Authority>, epoch: Epoch) -> (r: Option<Committee>)
        ensures
            r is Some ==> {
                &&& r.unwrap().wf()
                &&& r.unwrap().authorities == authorities
                &&& r.unwrap().epoch == epoch
            },
            r is None ==> !(Committee { authorities, epoch }).wf(),
    {
        let n = authorities.len();
        if n as u64 > u32::MAX as u64 {
            return None;
        }
        let mut total: u64 = 0;
        let mut i: usize = 0;
        while i < n
            invariant
                i <= n,
                n == authorities.len(),
                total == stake_sum(authorities@.take(i as int)),
                2 * total <= u64::MAX,
                forall|p: int, q: int|
                    0 <= p < q < i ==> authorities@[p].id.0 < authorities@[q].id.0,
                forall|p: int| 0 <= p < i ==> authorities@[p].stake >= 1,
            decreases n - i,
        {
            if authorities[i].stake == 0 {
                return None;
            }
            if i > 0 && authorities[i - 1].id.0 >= authorities[i].id.0 {
                return None;
            }
            let stake = authorities[i].stake;
            if stake > u64::MAX / 2 || total > u64::MAX / 2 - stake {
                // The doubled total would no longer fit in a `u64`.
                proof {
                    let c = Committee { authorities, epoch };
                    if c.wf() {
                        lemma_stake_sum_prefix(authorities@, i + 1);
                        lemma_stake_sum_nonneg(authorities@.skip(i + 1));
                        assert(authorities@.take(i + 1).drop_last() =~= authorities@.take(
                            i as int,
                        ));
                        assert(stake_sum(authorities@.take(i + 1)) == total + stake);
                        assert(false);
                    }
                }
                return None;
            }
            proof {
                assert(authorities@.take(i + 1).drop_last() =~= authorities@.take(i as int));
            }
            total = total + stake;
            i = i + 1;
        }
        proof {
            assert(authorities@.take(n as int) =~= authorities@);
        }
        Some(Committee { authorities, epoch })
    }

    /// The epoch this committee serves.
    pub fn epoch(&self) -> (r: Epoch)
        ensures
            r == self.epoch,
    {
        self.epoch
    }

    /// Number of authorities.
    pub fn size(&self) -> (r: usize)
        ensures
            r == self.authorities.len(),
    {
        self.authorities.len()
    }

    /// Total voting power.
    pub fn total_stake(&self) -> (r: Stake)
        requires
            self.wf(),
        ensures
            r == self.spec_total_stake(),
    {
        let n = self.authorities.len();
        let mut total: u64 = 0;
        let mut i: usize = 0;
        while i < n
            invariant
                i <= n,
                n == self.authorities.len(),
                self.wf(),
                total == stake_sum(self.authorities@.take(i as int)),
            decreases n - i,
        {
            proof {
                lemma_stake_sum_prefix(self.authorities@, i as int);
                lemma_stake_sum_head(self.authorities@.skip(i as int));
                assert(self.authorities@.skip(i as int)[0] == self.authorities@[i as int]);
                lemma_stake_sum_nonneg(
                    self.authorities@.skip(i as int).subrange(
                        1,
                        self.authorities@.skip(i as int).len() as int,
                    ),
                );
                assert(self.authorities@.take(i + 1).drop_last() =~= self.authorities@.take(
                    i as int,
                ));
            }
            total = total + self.authorities[i].stake;
            i = i + 1;
        }
        proof {
            assert(self.authorities@.take(n as int) =~= self.authorities@);
        }
        total
    }

    /// The stake a quorum must reach: `2 * total / 3 + 1`.
    pub fn quorum_threshold(&self) -> (r: Stake)
        requires
            self.wf(),
        ensures
            r == self.spec_quorum_threshold(),
    {
        let total = self.total_stake();
        2 * total / 3 + 1
    }

    /// The stake of the authority with the given identifier; 0 for a
    /// non-member.
    pub fn stake_by_id(&self, id: AuthorityIdentifier) -> (r: Stake)
        ensures
            r == self.spec_stake_of(id),
    {
        let n = self.authorities.len();
        let mut i: usize = 0;
        while i < n
            invariant
                i <= n,
                n == self.authorities.len(),
                forall|j: int| 0 <= j < i ==> self.authorities@[j].id != id,
            decreases n - i,
        {
            if self.authorities[i].id == id {
                proof {
                    lemma_find_index(self.authorities@, id);
                    assert(self.authorities@[i as int].id == id);
                }
                return self.authorities[i].stake;
            }
            proof {
                assert(self.authorities@[i as int].id.0 != id.0);
            }
            i = i + 1;
        }
        proof {
            lemma_find_index(self.authorities@, id);
        }
        0
    }

    /// The position of the authority with the given identifier in the
    /// canonical enumeration, if it is a member.
    pub fn authority_index(&self, id: AuthorityIdentifier) -> (r: Option<usize>)
        ensures
            r is Some ==> r.unwrap() == find_index(self.authorities@, id)
                && self.spec_has_authority(id),
            r is None ==> !self.spec_has_authority(id),
    {
        let n = self.authorities.len();
        let mut i: usize = 0;
        while i < n
            invariant
                i <= n,
                n == self.authorities.len(),
                forall|j: int| 0 <= j < i ==> self.authorities@[j].id != id,
            decreases n - i,
        {
            if self.authorities[i].id == id {
                proof {
                    lemma_find_index(self.authorities@, id);
                    assert(self.authorities@[i as int].id == id);
                }
                return Some(i);
            }
            proof {
                assert(self.authorities@[i as int].id.0 != id.0);
            }
            i = i + 1;
        }
        proof {
            lemma_find_index(self.authorities@, id);
        }
        None
    }
}

/// The worker registration cache: for each authority, the identifiers of the
/// workers registered under it.
#[derive(Clone, Debug)]
pub struct WorkerCache {
    pub entries: Vec<(AuthorityIdentifier, Vec<WorkerId>)>,
}

impl WorkerCache {
    /// Whether the worker is registered under the authority.
    pub open spec fn spec_has_worker(&self, id: AuthorityIdentifier, worker: WorkerId) -> bool {
        exists|i: int|
            0 <= i < self.entries@.len() && self.entries@[i].0 == id
                && self.entries@[i].1@.contains(worker)
    }

    pub fn has_worker(&self, id: AuthorityIdentifier, worker: WorkerId) -> (r: bool)
        ensures
            r == self.spec_has_worker(id, worker),
    {
        let n = self.entries.len();
        let mut i: usize = 0;
        while i < n
            invariant
                i <= n,
                n == self.entries.len(),
                forall|p: int|
                    0 <= p < i ==> !(self.entries@[p].0 == id && self.entries@[p].1@.contains(
                        worker,
                    )),
            decreases n - i,
        {
            if self.entries[i].0 == id {
                let m = self.entries[i].1.len();
                let mut j: usize = 0;
                while j < m
                    invariant
                        j <= m,
                        i < n,
                        n == self.entries.len(),
                        self.entries@[i as int].0 == id,
                        m == self.entries@[i as int].1.len(),
                        forall|q: int| 0 <= q < j ==> self.entries@[i as int].1@[q] != worker,
                    decreases m - j,
                {
                    if self.entries[i].1[j] == worker {
                        proof {
                            assert(self.entries@[i as int].0 == id);
                            assert(self.entries@[i as int].1@.contains(worker));
                        }
                        return true;
                    }
                    j = j + 1;
                }
                proof {
                    assert(!self.entries@[i as int].1@.contains(worker));
                }
            }
            proof {
                assert(!(self.entries@[i as int].0 == id && self.entries@[i as int].1@.contains(
                    worker,
                )));
            }
            i = i + 1;
        }
        false
    }
}

/// Authority-side network information about one worker; carried by the
/// worker-listing reply.
#[derive(Clone, Debug, PartialEq, Eq)]
pub struct WorkerInfo {
    pub name: NetworkPublicKeyBytes,
}

/// The protocol configuration threaded into batch construction; it selects
/// which entity versions a node emits.
#[derive(Clone, Copy, Debug)]
pub struct ProtocolConfig {
    pub versioned_metadata: bool,
}

impl ProtocolConfig {
    /// Whether batches carry the versioned metadata shape.
    pub fn narwhal_versioned_metadata(&self) -> (r: bool)
        ensures
            r == self.versioned_metadata,
    {
        self.versioned_metadata
    }
}

} // verus!

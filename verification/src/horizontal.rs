//! The multi-node protocol: requests fanned out to peers, the correlation
//! table keyed by request id, and the merge of replies — sums for counters,
//! set union for listings, disjunction for membership. The bus itself lives
//! outside; it hands replies and deadline expiries in as plain values.

use vstd::prelude::*;

use crate::session::dec_str_of;
use crate::strmap::{StrMap, StrSet};

verus! {

/// What a horizontal request asks of the peers.
#[derive(Clone, Copy, Debug, PartialEq, Eq, Structural)]
pub enum RequestType {
    Sockets,
    Channels,
    ChannelSockets,
    ChannelMembers,
    CountSockets,
    CountChannelSockets,
    CountChannelMembers,
    IsInChannel,
    TerminateUser,
    Send,
}

/// Addition capped at the top of `u64`.
pub open spec fn sat_add64(a: nat, b: nat) -> nat {
    if a + b > u64::MAX {
        u64::MAX as nat
    } else {
        a + b
    }
}

/// The capped sum of a base count and a run of replies.
pub open spec fn sum_sat(base: nat, h: Seq<u64>) -> nat
    decreases h.len(),
{
    if h.len() == 0 {
        base
    } else {
        sat_add64(sum_sat(base, h.drop_last()), h.last() as nat)
    }
}

/// The plain sum of a base count and a run of replies.
pub open spec fn sum_plain(base: nat, h: Seq<u64>) -> nat
    decreases h.len(),
{
    if h.len() == 0 {
        base
    } else {
        (sum_plain(base, h.drop_last()) + h.last()) as nat
    }
}

/// While no addition caps out, the capped sum is the plain sum: a completed
/// count query returns the base plus every reply, exactly.
pub proof fn lemma_sum_sat_exact(base: nat, h: Seq<u64>)
    requires
        sum_plain(base, h) <= u64::MAX,
    ensures
        sum_sat(base, h) == sum_plain(base, h),
    decreases h.len(),
{
    if h.len() > 0 {
        assert(sum_plain(base, h.drop_last()) <= sum_plain(base, h));
        lemma_sum_sat_exact(base, h.drop_last());
    }
}

/// One outstanding request: how many replies are owed, what came in so far,
/// and the merged result.
pub struct PendingRequest {
    pub request_type: RequestType,
    pub app_id: String,
    /// Replies owed: one per peer.
    pub expected_replies: usize,
    /// Replies received so far.
    pub received: usize,
    /// The local value the merge started from.
    pub base: u64,
    /// Merged counter value.
    pub sum: u64,
    /// Merged set value (socket ids, channel names).
    pub items: StrSet,
    /// Merged membership flag.
    pub flag: bool,
    /// When the request gives up, in milliseconds since some epoch.
    pub deadline_ms: u64,
    /// The counter replies received, in order.
    pub counts: Ghost<Seq<u64>>,
}

impl PendingRequest {
    /// The merge bookkeeping is coherent: every counter reply was received,
    /// the sum is the replies' capped total, and a stored request is still
    /// owed a reply.
    pub open spec fn wf(&self) -> bool {
        &&& self.counts@.len() <= self.received
        &&& self.sum as nat == sum_sat(self.base as nat, self.counts@)
        &&& (self.received == 0 || self.received < self.expected_replies)
    }
}

/// The correlation table of one node.
pub struct RequestTable {
    pending: StrMap<PendingRequest>,
    node_id: String,
    next_request_number: u64,
}

impl RequestTable {
    /// Every outstanding request is coherent.
    pub open spec fn wf(&self) -> bool {
        forall|rid: Seq<char>|
            self.pending_view().dom().contains(rid) ==> (#[trigger] self.pending_view()[rid]).wf()
    }

    /// The outstanding requests.
    pub closed spec fn pending_view(&self) -> Map<Seq<char>, PendingRequest> {
        self.pending@
    }

    /// This node's name on the bus.
    pub closed spec fn node_id_view(&self) -> Seq<char> {
        self.node_id@
    }

    pub fn new(node_id: String) -> (r: Self)
        ensures
            r.pending_view() == Map::<Seq<char>, PendingRequest>::empty(),
            r.node_id_view() == node_id@,
            r.wf(),
    {
        RequestTable { pending: StrMap::new(), node_id, next_request_number: 0 }
    }

    /// A request id no earlier request of this node used:
    /// `<node_id>-<number>`.
    pub fn next_request_id(&mut self) -> (r: String)
        requires
            old(self).next_number_view() < u64::MAX,
        ensures
            r@ == old(self).node_id_view() + "-"@ + dec_str_of(old(self).next_number_view() as nat),
            final(self).next_number_view() == old(self).next_number_view() + 1,
            final(self).pending_view() == old(self).pending_view(),
            final(self).node_id_view() == old(self).node_id_view(),
            final(self).wf() == old(self).wf(),
    {
        let n = self.next_request_number;
        self.next_request_number = n + 1;
        let r = self.node_id.clone().concat("-").concat(
            crate::session::u64_dec_string(n).as_str(),
        );
        proof {
            reveal_strlit("-");
        }
        r
    }

    /// How many ids were handed out.
    pub closed spec fn next_number_view(&self) -> u64 {
        self.next_request_number
    }

    /// Whether a frame that arrived from the bus is a peer's: a node never
    /// applies its own broadcast twice.
    pub fn should_process(&self, origin_node_id: &str) -> (r: bool)
        ensures
            r == (origin_node_id@ != self.node_id_view()),
    {
        !crate::strmap::str_eq(origin_node_id, self.node_id.as_str())
    }

    /// Open a counter request: the merge starts from this node's own count,
    /// and `expected_replies` peers owe an answer before `deadline_ms`.
    pub fn start_request(
        &mut self,
        request_id: String,
        request_type: RequestType,
        app_id: String,
        expected_replies: usize,
        deadline_ms: u64,
        local_count: u64,
    )
        requires
            old(self).wf(),
        ensures
            final(self).wf(),
            final(self).pending_view() == old(self).pending_view().insert(
                request_id@,
                final(self).pending_view()[request_id@],
            ),
            final(self).pending_view().dom().contains(request_id@),
            ({
                let p = final(self).pending_view()[request_id@];
                &&& p.request_type == request_type
                &&& p.app_id@ == app_id@
                &&& p.expected_replies == expected_replies
                &&& p.received == 0
                &&& p.base == local_count
                &&& p.sum == local_count
                &&& p.deadline_ms == deadline_ms
                &&& p.counts@ == Seq::<u64>::empty()
            }),
            final(self).node_id_view() == old(self).node_id_view(),
    {
        let p = PendingRequest {
            request_type,
            app_id,
            expected_replies,
            received: 0,
            base: local_count,
            sum: local_count,
            items: StrSet::new(),
            flag: false,
            deadline_ms,
            counts: Ghost(Seq::empty()),
        };
        let ghost rid = request_id@;
        self.pending.insert(request_id, p);
        proof {
            assert forall|r2: Seq<char>| self.pending_view().dom().contains(r2) implies (
            #[trigger] self.pending_view()[r2]).wf() by {
                if r2 != rid {
                    assert(old(self).pending_view()[r2].wf());
                } else {
                    assert(self.pending_view()[r2].counts@.len() == 0);
                }
            }
        }
    }

    /// Merge one peer's counter reply. Returns the completed total when the
    /// last owed reply arrived; the request is then forgotten.
    pub fn on_count_response(&mut self, request_id: &str, count: u64) -> (done: Option<u64>)
        requires
            old(self).wf(),
        ensures
            final(self).wf(),
            final(self).node_id_view() == old(self).node_id_view(),
            !old(self).pending_view().dom().contains(request_id@) ==> final(self).pending_view()
                == old(self).pending_view() && done is None,
            old(self).pending_view().dom().contains(request_id@) ==> ({
                let before = old(self).pending_view();
                let after = final(self).pending_view();
                let p = before[request_id@];
                let total = sum_sat(p.base as nat, p.counts@.push(count));
                &&& (p.received + 1 >= p.expected_replies) ==> (after == before.remove(request_id@)
                    && done == Some(total as u64))
                &&& (p.received + 1 < p.expected_replies) ==> (done is None && after.dom().contains(
                    request_id@,
                ) && after == before.insert(request_id@, after[request_id@]) && ({
                    let q = after[request_id@];
                    &&& q.received == p.received + 1
                    &&& q.counts@ == p.counts@.push(count)
                    &&& q.sum as nat == total
                    &&& q.base == p.base
                    &&& q.expected_replies == p.expected_replies
                    &&& q.request_type == p.request_type
                    &&& q.deadline_ms == p.deadline_ms
                }))
            }),
    {
        let mut p = match self.pending.remove(request_id) {
            Some(p) => p,
            None => {
                return None;
            },
        };
        proof {
            assert(old(self).pending_view()[request_id@].wf());
        }
        let new_sum = if p.sum <= u64::MAX - count {
            p.sum + count
        } else {
            u64::MAX
        };
        p.sum = new_sum;
        proof {
            assert(p.received < usize::MAX);
        }
        p.received = p.received + 1;
        proof {
            let h = p.counts@.push(count);
            assert(h.drop_last() =~= old(self).pending_view()[request_id@].counts@);
        }
        p.counts = Ghost(p.counts@.push(count));
        if p.received >= p.expected_replies {
            Some(p.sum)
        } else {
            let ghost rid = request_id@;
            self.pending.insert(request_id.to_owned(), p);
            proof {
                assert forall|r2: Seq<char>| self.pending_view().dom().contains(r2) implies (
                #[trigger] self.pending_view()[r2]).wf() by {
                    if r2 != rid {
                        assert(old(self).pending_view()[r2].wf());
                    }
                }
            }
            None
        }
    }

    /// The ids of `s` together with the views of `items`.
    pub open spec fn union_view(s: Set<Seq<char>>, items: Seq<String>) -> Set<Seq<char>> {
        Set::new(
            |k: Seq<char>|
                s.contains(k) || exists|i: int| 0 <= i < items.len() && (#[trigger] items[i])@ == k,
        )
    }

    /// Merge one peer's listing reply by set union. Returns the completed
    /// union, each id once, when the last owed reply arrived.
    pub fn on_items_response(&mut self, request_id: &str, items: Vec<String>) -> (done: Option<
        Vec<String>,
    >)
        requires
            old(self).wf(),
        ensures
            final(self).wf(),
            final(self).node_id_view() == old(self).node_id_view(),
            !old(self).pending_view().dom().contains(request_id@) ==> final(self).pending_view()
                == old(self).pending_view() && done is None,
            old(self).pending_view().dom().contains(request_id@) ==> ({
                let before = old(self).pending_view();
                let after = final(self).pending_view();
                let p = before[request_id@];
                let merged = Self::union_view(p.items@, items@);
                &&& (p.received + 1 >= p.expected_replies) ==> (after == before.remove(request_id@)
                    && (done matches Some(v) && crate::adapters::ids_enumerate(v@, merged)))
                &&& (p.received + 1 < p.expected_replies) ==> (done is None && after.dom().contains(
                    request_id@,
                ) && after == before.insert(request_id@, after[request_id@]) && ({
                    let q = after[request_id@];
                    &&& q.received == p.received + 1
                    &&& q.items@ == merged
                    &&& q.sum == p.sum
                    &&& q.base == p.base
                    &&& q.expected_replies == p.expected_replies
                    &&& q.request_type == p.request_type
                    &&& q.deadline_ms == p.deadline_ms
                }))
            }),
    {
        let mut p = match self.pending.remove(request_id) {
            Some(p) => p,
            None => {
                return None;
            },
        };
        proof {
            assert(old(self).pending_view()[request_id@].wf());
        }
        let ghost p0 = old(self).pending_view()[request_id@];
        let ghost s0 = p.items@;
        let n = items.len();
        let mut i: usize = 0;
        while i < n
            invariant
                i <= n,
                n == items@.len(),
                p0.wf(),
                p == (PendingRequest { items: p.items, ..p0 }),
                forall|k: Seq<char>|
                    #[trigger] p.items@.contains(k) <==> (s0.contains(k) || exists|j: int|
                        0 <= j < i && (#[trigger] items@[j])@ == k),
            decreases n - i,
        {
            let ghost pre = p.items@;
            p.items.insert(items[i].clone());
            proof {
                assert forall|k: Seq<char>| #[trigger] p.items@.contains(k) implies (s0.contains(k)
                    || exists|j: int| 0 <= j < i + 1 && (#[trigger] items@[j])@ == k) by {
                    if k == (items@[i as int])@ {
                        assert((items@[i as int])@ == k);
                    } else {
                        assert(pre.contains(k));
                    }
                }
                assert forall|k: Seq<char>|
                    (s0.contains(k) || exists|j: int|
                        0 <= j < i + 1 && (#[trigger] items@[j])@ == k) implies #[trigger] p.items@.contains(
                    k,
                ) by {
                    if k != (items@[i as int])@ {
                        assert(pre.contains(k));
                    }
                }
            }
            i = i + 1;
        }
        proof {
            assert(p.items@ =~= Self::union_view(s0, items@));
        }
        proof {
            assert(p.received < usize::MAX);
        }
        p.received = p.received + 1;
        if p.received >= p.expected_replies {
            Some(p.items.to_vec())
        } else {
            let ghost rid = request_id@;
            self.pending.insert(request_id.to_owned(), p);
            proof {
                assert forall|r2: Seq<char>| self.pending_view().dom().contains(r2) implies (
                #[trigger] self.pending_view()[r2]).wf() by {
                    if r2 != rid {
                        assert(old(self).pending_view()[r2].wf());
                    }
                }
            }
            None
        }
    }

    /// Merge one peer's membership reply by disjunction. Returns the
    /// completed answer when the last owed reply arrived.
    pub fn on_flag_response(&mut self, request_id: &str, value: bool) -> (done: Option<bool>)
        requires
            old(self).wf(),
        ensures
            final(self).wf(),
            final(self).node_id_view() == old(self).node_id_view(),
            !old(self).pending_view().dom().contains(request_id@) ==> final(self).pending_view()
                == old(self).pending_view() && done is None,
            old(self).pending_view().dom().contains(request_id@) ==> ({
                let before = old(self).pending_view();
                let after = final(self).pending_view();
                let p = before[request_id@];
                &&& (p.received + 1 >= p.expected_replies) ==> (after == before.remove(request_id@)
                    && done == Some(p.flag || value))
                &&& (p.received + 1 < p.expected_replies) ==> (done is None && after.dom().contains(
                    request_id@,
                ) && after == before.insert(request_id@, after[request_id@]) && ({
                    let q = after[request_id@];
                    &&& q.received == p.received + 1
                    &&& q.flag == (p.flag || value)
                    &&& q.items@ == p.items@
                    &&& q.sum == p.sum
                    &&& q.base == p.base
                    &&& q.expected_replies == p.expected_replies
                    &&& q.request_type == p.request_type
                    &&& q.deadline_ms == p.deadline_ms
                }))
            }),
    {
        let mut p = match self.pending.remove(request_id) {
            Some(p) => p,
            None => {
                return None;
            },
        };
        proof {
            assert(old(self).pending_view()[request_id@].wf());
        }
        p.flag = p.flag || value;
        proof {
            assert(p.received < usize::MAX);
        }
        p.received = p.received + 1;
        if p.received >= p.expected_replies {
            Some(p.flag)
        } else {
            let ghost rid = request_id@;
            self.pending.insert(request_id.to_owned(), p);
            proof {
                assert forall|r2: Seq<char>| self.pending_view().dom().contains(r2) implies (
                #[trigger] self.pending_view()[r2]).wf() by {
                    if r2 != rid {
                        assert(old(self).pending_view()[r2].wf());
                    }
                }
            }
            None
        }
    }

    /// Give a request up at its deadline: the partial merge and how many
    /// replies had come are handed back, and the request is forgotten. The
    /// caller records the incomplete resolution in the metrics.
    pub fn on_deadline(&mut self, request_id: &str) -> (r: Option<(u64, usize)>)
        requires
            old(self).wf(),
        ensures
            final(self).wf(),
            final(self).node_id_view() == old(self).node_id_view(),
            r is Some <==> old(self).pending_view().dom().contains(request_id@),
            !old(self).pending_view().dom().contains(request_id@) ==> final(self).pending_view()
                == old(self).pending_view(),
            old(self).pending_view().dom().contains(request_id@) ==> ({
                let p = old(self).pending_view()[request_id@];
                &&& final(self).pending_view() == old(self).pending_view().remove(request_id@)
                &&& r == Some((p.sum, p.received))
            }),
    {
        match self.pending.remove(request_id) {
            Some(p) => Some((p.sum, p.received)),
            None => None,
        }
    }

    /// A request is complete exactly when every owed reply arrived.
    pub fn is_complete(&self, request_id: &str) -> (r: bool)
        ensures
            r == (self.pending_view().dom().contains(request_id@)
                && self.pending_view()[request_id@].received
                >= self.pending_view()[request_id@].expected_replies),
    {
        match self.pending.get(request_id) {
            Some(p) => p.received >= p.expected_replies,
            None => false,
        }
    }

    /// How many requests are outstanding.
    pub fn pending_count(&self) -> (n: usize)
        ensures
            n == self.pending_view().dom().len(),
    {
        self.pending.len()
    }
}

} // verus!

//! Per-request tallies.  Active requests are tracked by an increasing
//! identifier; finishing one moves it into the per-type summary, under
//! the reason it ended with.  Transfer sizes accumulate per type.

use vstd::prelude::*;

verus! {

/// Handle to one active request.
#[derive(Clone, Copy, PartialEq, Eq, Structural, Hash, Debug)]
pub struct RequestId(pub u64);

/// The kinds of request the host reports.
#[derive(Clone, Copy, PartialEq, Eq, Structural, Hash, Debug)]
pub enum RequestType {
    Origin,
    InjectorPrivate,
    InjectorPublic,
    CacheIn,
    CacheOut,
}

/// Why a request ended.
#[derive(Clone, Copy, PartialEq, Eq, Structural, Debug)]
pub enum RemoveReason {
    Success,
    Failure,
    Cancelled,
}

/// Finished-request tallies of one type.
#[derive(Clone, Copy, PartialEq, Eq, Structural, Debug)]
pub struct Summary {
    pub success_count: u64,
    pub failure_count: u64,
    pub transferred: u64,
}

impl Summary {
    pub open spec fn zero() -> Summary {
        Summary { success_count: 0, failure_count: 0, transferred: 0 }
    }
}

/// Position of a request type in the summary table.
pub open spec fn type_slot(t: RequestType) -> int {
    match t {
        RequestType::Origin => 0,
        RequestType::InjectorPrivate => 1,
        RequestType::InjectorPublic => 2,
        RequestType::CacheIn => 3,
        RequestType::CacheOut => 4,
    }
}

fn type_slot_x(t: RequestType) -> (r: usize)
    ensures
        r == type_slot(t),
{
    match t {
        RequestType::Origin => 0,
        RequestType::InjectorPrivate => 1,
        RequestType::InjectorPublic => 2,
        RequestType::CacheIn => 3,
        RequestType::CacheOut => 4,
    }
}

/// A sum that stops at the top of the type instead of failing.
pub open spec fn sat_add_u64(a: u64, b: u64) -> u64 {
    if a + b > u64::MAX {
        u64::MAX
    } else {
        (a + b) as u64
    }
}

/// Index of the active entry with identifier `id`, or -1.
pub open spec fn active_index(s: Seq<(u64, RequestType)>, id: u64) -> int
    decreases s.len(),
{
    if s.len() == 0 {
        -1
    } else if s[0].0 == id {
        0
    } else {
        let rest = active_index(s.skip(1), id);
        if rest < 0 {
            -1
        } else {
            rest + 1
        }
    }
}

pub proof fn lemma_active_index_found(s: Seq<(u64, RequestType)>, id: u64, i: int)
    requires
        0 <= i < s.len(),
        s[i].0 == id,
        forall|j: int| 0 <= j < i ==> s[j].0 != id,
    ensures
        active_index(s, id) == i,
    decreases s.len(),
{
    if i > 0 {
        lemma_active_index_found(s.skip(1), id, i - 1);
    }
}

pub proof fn lemma_active_index_absent(s: Seq<(u64, RequestType)>, id: u64)
    requires
        forall|j: int| 0 <= j < s.len() ==> s[j].0 != id,
    ensures
        active_index(s, id) == -1,
    decreases s.len(),
{
    if s.len() > 0 {
        lemma_active_index_absent(s.skip(1), id);
    }
}

/// The summary slot after one removal under a reason.
pub open spec fn summary_after_remove(s: Option<Summary>, reason: RemoveReason) -> Summary {
    let base = match s {
        Some(v) => v,
        None => Summary::zero(),
    };
    match reason {
        RemoveReason::Success => Summary {
            success_count: sat_add_u64(base.success_count, 1),
            ..base
        },
        RemoveReason::Failure => Summary {
            failure_count: sat_add_u64(base.failure_count, 1),
            ..base
        },
        RemoveReason::Cancelled => base,
    }
}

/// Active requests and per-type summaries.
pub struct Requests {
    next_id: u64,
    active: Vec<(u64, RequestType)>,
    summary: Vec<Option<Summary>>,
    has_new_data: bool,
}

impl Requests {
    pub closed spec fn next_id_spec(self) -> u64 {
        self.next_id
    }

    pub closed spec fn active_spec(self) -> Seq<(u64, RequestType)> {
        self.active@
    }

    pub closed spec fn summary_spec(self) -> Seq<Option<Summary>> {
        self.summary@
    }

    pub closed spec fn has_new_data_spec(self) -> bool {
        self.has_new_data
    }

    pub open spec fn wf(self) -> bool {
        &&& self.summary_spec().len() == 5
        &&& forall|i: int, j: int|
            0 <= i < j < self.active_spec().len() ==> self.active_spec()[i].0
                < self.active_spec()[j].0
        &&& forall|i: int|
            0 <= i < self.active_spec().len() ==> (#[trigger] self.active_spec()[i].0)
                < self.next_id_spec()
    }

    pub fn new() -> (r: Requests)
        ensures
            r.wf(),
            r.active_spec() =~= Seq::<(u64, RequestType)>::empty(),
            forall|i: int| 0 <= i < 5 ==> (#[trigger] r.summary_spec()[i]) is None,
            !r.has_new_data_spec(),
            r.next_id_spec() == 0,
    {
        let mut summary: Vec<Option<Summary>> = Vec::new();
        summary.push(None);
        summary.push(None);
        summary.push(None);
        summary.push(None);
        summary.push(None);
        Requests { next_id: 0, active: Vec::new(), summary, has_new_data: false }
    }

    /// Open a request of the given type and hand out its identifier.
    pub fn add_request(&mut self, request_type: RequestType) -> (r: RequestId)
        requires
            old(self).wf(),
            old(self).next_id_spec() < u64::MAX,
        ensures
            final(self).wf(),
            r.0 == old(self).next_id_spec(),
            final(self).active_spec() == old(self).active_spec().push((r.0, request_type)),
            final(self).summary_spec() == old(self).summary_spec(),
            final(self).has_new_data_spec(),
            final(self).next_id_spec() == old(self).next_id_spec() + 1,
    {
        let ghost pre = *self;
        let id = self.next_id;
        self.active.push((id, request_type));
        self.next_id = id + 1;
        self.has_new_data = true;
        proof {
            assert forall|a: int, b: int|
                0 <= a < b < self.active@.len() implies self.active@[a].0 < self.active@[b].0 by {
                if b < self.active@.len() - 1 {
                    assert(pre.active_spec()[a].0 < pre.active_spec()[b].0);
                } else {
                    assert(pre.active_spec()[a].0 < pre.next_id_spec());
                }
            }
            assert forall|a: int|
                0 <= a < self.active@.len() implies (#[trigger] self.active@[a].0)
                < self.next_id by {
                if a < self.active@.len() - 1 {
                    assert(pre.active_spec()[a].0 < pre.next_id_spec());
                }
            }
        }
        RequestId(id)
    }

    /// Close a request.  An identifier that is no longer active (its
    /// entry was cleared by a rotation, or it was closed before) changes
    /// nothing; a cancellation counts toward no tally.
    pub fn remove_request(&mut self, id: RequestId, reason: RemoveReason)
        requires
            old(self).wf(),
        ensures
            final(self).wf(),
            final(self).next_id_spec() == old(self).next_id_spec(),
            ({
                let s = old(self).active_spec();
                let i = active_index(s, id.0);
                if i >= 0 {
                    let t = s[i].1;
                    &&& final(self).active_spec() == s.remove(i)
                    &&& final(self).summary_spec() == old(self).summary_spec().update(
                        type_slot(t),
                        Some(summary_after_remove(old(self).summary_spec()[type_slot(t)], reason)),
                    )
                    &&& final(self).has_new_data_spec()
                } else {
                    &&& final(self).active_spec() == s
                    &&& final(self).summary_spec() == old(self).summary_spec()
                    &&& final(self).has_new_data_spec() == old(self).has_new_data_spec()
                }
            }),
    {
        let ghost s = self.active@;
        let n = self.active.len();
        let mut i: usize = 0;
        let mut found: bool = false;
        while i < n && !found
            invariant
                n == self.active@.len(),
                0 <= i <= n,
                self.active@ == s,
                self.summary@ == old(self).summary_spec(),
                self.has_new_data == old(self).has_new_data_spec(),
                self.next_id == old(self).next_id_spec(),
                forall|j: int| 0 <= j < i ==> s[j].0 != id.0,
                found ==> i < n && s[i as int].0 == id.0,
            decreases n - i, (if found {
                0int
            } else {
                1int
            }),
        {
            let entry: &(u64, RequestType) = vstd::std_specs::vec::vec_index(&self.active, i);
            if entry.0 == id.0 {
                found = true;
            } else {
                i = i + 1;
            }
        }
        if !found {
            proof {
                lemma_active_index_absent(s, id.0);
            }
            return ;
        }
        proof {
            lemma_active_index_found(s, id.0, i as int);
        }
        let entry: (u64, RequestType) = *vstd::std_specs::vec::vec_index(&self.active, i);
        let request_type = entry.1;
        self.active.remove(i);
        let slot = type_slot_x(request_type);
        let cur: Option<Summary> = *vstd::std_specs::vec::vec_index(&self.summary, slot);
        let base = match cur {
            Some(v) => v,
            None => Summary { success_count: 0, failure_count: 0, transferred: 0 },
        };
        let updated = match reason {
            RemoveReason::Success => Summary {
                success_count: if base.success_count < u64::MAX {
                    base.success_count + 1
                } else {
                    u64::MAX
                },
                failure_count: base.failure_count,
                transferred: base.transferred,
            },
            RemoveReason::Failure => Summary {
                success_count: base.success_count,
                failure_count: if base.failure_count < u64::MAX {
                    base.failure_count + 1
                } else {
                    u64::MAX
                },
                transferred: base.transferred,
            },
            RemoveReason::Cancelled => base,
        };
        self.summary.set(slot, Some(updated));
        self.has_new_data = true;
        proof {
            assert forall|a: int, b: int|
                0 <= a < b < self.active@.len() implies self.active@[a].0 < self.active@[b].0 by {
                if b < i as int {
                    assert(s[a].0 < s[b].0);
                } else if a < i as int {
                    assert(s[a].0 < s[b + 1].0);
                } else {
                    assert(s[a + 1].0 < s[b + 1].0);
                }
            }
            assert forall|a: int| 0 <= a < self.active@.len() implies (#[trigger] self.active@[a].0)
                < self.next_id by {
                if a < i as int {
                    assert(s[a].0 < self.next_id);
                } else {
                    assert(s[a + 1].0 < self.next_id);
                }
            }
        }
    }

    /// Add to the running transfer total of a type.  This accumulates
    /// quietly: it raises no change by itself.
    pub fn increment_transfer_size(&mut self, request_type: RequestType, added: usize)
        requires
            old(self).wf(),
        ensures
            final(self).wf(),
            ({
                let slot = type_slot(request_type);
                let base = match old(self).summary_spec()[slot] {
                    Some(v) => v,
                    None => Summary::zero(),
                };
                final(self).summary_spec() == old(self).summary_spec().update(
                    slot,
                    Some(
                        Summary {
                            transferred: sat_add_u64(base.transferred, added as u64),
                            ..base
                        },
                    ),
                )
            }),
            final(self).active_spec() == old(self).active_spec(),
            final(self).has_new_data_spec() == old(self).has_new_data_spec(),
            final(self).next_id_spec() == old(self).next_id_spec(),
    {
        let slot = type_slot_x(request_type);
        let cur: Option<Summary> = *vstd::std_specs::vec::vec_index(&self.summary, slot);
        let base = match cur {
            Some(v) => v,
            None => Summary { success_count: 0, failure_count: 0, transferred: 0 },
        };
        let added64 = added as u64;
        let transferred = if base.transferred <= u64::MAX - added64 {
            base.transferred + added64
        } else {
            u64::MAX
        };
        let ghost pre = *self;
        self.summary.set(
            slot,
            Some(
                Summary {
                    success_count: base.success_count,
                    failure_count: base.failure_count,
                    transferred,
                },
            ),
        );
        proof {
            assert forall|a: int, b: int|
                0 <= a < b < self.active@.len() implies self.active@[a].0 < self.active@[b].0 by {
                assert(pre.active_spec()[a].0 < pre.active_spec()[b].0);
            }
            assert forall|a: int|
                0 <= a < self.active@.len() implies (#[trigger] self.active@[a].0)
                < self.next_id by {
                assert(pre.active_spec()[a].0 < pre.next_id_spec());
            }
        }
    }

    pub fn has_new_data(&self) -> (r: bool)
        ensures
            r == self.has_new_data_spec(),
    {
        self.has_new_data
    }

    /// Forget everything: active requests, summaries, and the flag.
    pub fn clear(&mut self)
        ensures
            final(self).wf(),
            final(self).active_spec() =~= Seq::<(u64, RequestType)>::empty(),
            forall|i: int| 0 <= i < 5 ==> (#[trigger] final(self).summary_spec()[i]) is None,
            !final(self).has_new_data_spec(),
            final(self).next_id_spec() == old(self).next_id_spec(),
    {
        self.active.clear();
        self.clear_finished();
    }

    /// Forget the summaries and the flag; active requests stay, so they
    /// can still be finished and counted in a later record.
    pub fn clear_finished(&mut self)
        requires
            old(self).wf() || old(self).active_spec().len() == 0,
        ensures
            old(self).wf() ==> final(self).wf(),
            final(self).active_spec() == old(self).active_spec(),
            forall|i: int| 0 <= i < 5 ==> (#[trigger] final(self).summary_spec()[i]) is None,
            final(self).summary_spec().len() == 5,
            !final(self).has_new_data_spec(),
            final(self).next_id_spec() == old(self).next_id_spec(),
    {
        let ghost pre = *self;
        let mut summary: Vec<Option<Summary>> = Vec::new();
        summary.push(None);
        summary.push(None);
        summary.push(None);
        summary.push(None);
        summary.push(None);
        self.summary = summary;
        self.has_new_data = false;
        proof {
            if pre.wf() {
                assert forall|a: int, b: int|
                    0 <= a < b < self.active@.len() implies self.active@[a].0
                    < self.active@[b].0 by {
                    assert(pre.active_spec()[a].0 < pre.active_spec()[b].0);
                }
                assert forall|a: int|
                    0 <= a < self.active@.len() implies (#[trigger] self.active@[a].0)
                    < self.next_id by {
                    assert(pre.active_spec()[a].0 < pre.next_id_spec());
                }
            }
        }
    }

    /// Drop only the change flag (the tallies were just collected).
    pub fn mark_collected(&mut self)
        ensures
            old(self).wf() ==> final(self).wf(),
            final(self).active_spec() == old(self).active_spec(),
            final(self).summary_spec() == old(self).summary_spec(),
            final(self).next_id_spec() == old(self).next_id_spec(),
            !final(self).has_new_data_spec(),
    {
        let ghost pre = *self;
        self.has_new_data = false;
        proof {
            if pre.wf() {
                assert forall|a: int, b: int|
                    0 <= a < b < self.active@.len() implies self.active@[a].0
                    < self.active@[b].0 by {
                    assert(pre.active_spec()[a].0 < pre.active_spec()[b].0);
                }
                assert forall|a: int|
                    0 <= a < self.active@.len() implies (#[trigger] self.active@[a].0)
                    < self.next_id by {
                    assert(pre.active_spec()[a].0 < pre.next_id_spec());
                }
            }
        }
    }

    /// Borrow the summaries for serialization.
    pub fn summaries(&self) -> (r: &Vec<Option<Summary>>)
        ensures
            r@ == self.summary_spec(),
    {
        &self.summary
    }
}

} // verus!

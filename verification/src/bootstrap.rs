//! Bootstrap attempt tracking: per address family, a table of attempts
//! keyed by an increasing identifier, each either still running or
//! finished with a duration and an outcome.  Collection summarizes the
//! successful durations into an exponential histogram.

use vstd::prelude::*;
use vstd::arithmetic::power2::pow2;

verus! {

/// Address family of a bootstrap attempt.
#[derive(Clone, Copy, PartialEq, Eq, Structural, Debug)]
pub enum IpVersion {
    V4,
    V6,
}

/// Handle to one bootstrap attempt.
#[derive(Clone, Copy, PartialEq, Eq, Structural, Debug)]
pub struct BootstrapId {
    pub ipv: IpVersion,
    pub id: usize,
}

/// One attempt's state.
#[derive(Clone, Copy, PartialEq, Eq, Structural, Debug)]
pub enum BootstrapState {
    Started { at_ms: u64 },
    Finished { took_ms: u64, success: bool },
}

impl BootstrapState {
    /// The duration of a successfully finished attempt.
    pub fn success_duration_ms(&self) -> (r: Option<u64>)
        ensures
            r == success_duration_spec(*self),
    {
        match self {
            BootstrapState::Started { .. } => None,
            BootstrapState::Finished { took_ms, success } => if *success {
                Some(*took_ms)
            } else {
                None
            },
        }
    }

    pub fn is_started(&self) -> (r: bool)
        ensures
            r == (*self is Started),
    {
        match self {
            BootstrapState::Started { .. } => true,
            BootstrapState::Finished { .. } => false,
        }
    }

    pub fn is_finished(&self) -> (r: bool)
        ensures
            r == (*self is Finished),
    {
        match self {
            BootstrapState::Started { .. } => false,
            BootstrapState::Finished { .. } => true,
        }
    }
}

pub open spec fn success_duration_spec(s: BootstrapState) -> Option<u64> {
    match s {
        BootstrapState::Started { .. } => None,
        BootstrapState::Finished { took_ms, success } => if success {
            Some(took_ms)
        } else {
            None
        },
    }
}

/// The durations of the successfully finished attempts, in table order.
pub open spec fn success_durations(s: Seq<(usize, BootstrapState)>) -> Seq<u64>
    decreases s.len(),
{
    if s.len() == 0 {
        Seq::empty()
    } else {
        let rest = success_durations(s.drop_last());
        match success_duration_spec(s.last().1) {
            Some(d) => rest.push(d),
            None => rest,
        }
    }
}

/// How many attempts are still running.
pub open spec fn count_started(s: Seq<(usize, BootstrapState)>) -> nat
    decreases s.len(),
{
    if s.len() == 0 {
        0
    } else {
        count_started(s.drop_last()) + if s.last().1 is Started {
            1nat
        } else {
            0nat
        }
    }
}

/// The entries whose attempts are still running, in table order.
pub open spec fn keep_started(s: Seq<(usize, BootstrapState)>) -> Seq<(usize, BootstrapState)>
    decreases s.len(),
{
    if s.len() == 0 {
        Seq::empty()
    } else {
        let rest = keep_started(s.drop_last());
        if s.last().1 is Started {
            rest.push(s.last())
        } else {
            rest
        }
    }
}

/// Index of the entry with identifier `id`, or -1.
pub open spec fn entry_index(s: Seq<(usize, BootstrapState)>, id: usize) -> int
    decreases s.len(),
{
    if s.len() == 0 {
        -1
    } else if s[0].0 == id {
        0
    } else {
        let rest = entry_index(s.skip(1), id);
        if rest < 0 {
            -1
        } else {
            rest + 1
        }
    }
}

/// A found index lies in the table and carries the identifier.
pub proof fn lemma_entry_index_bounds(s: Seq<(usize, BootstrapState)>, id: usize)
    ensures
        -1 <= entry_index(s, id) < s.len(),
        entry_index(s, id) >= 0 ==> s[entry_index(s, id)].0 == id,
    decreases s.len(),
{
    if s.len() > 0 && s[0].0 != id {
        lemma_entry_index_bounds(s.skip(1), id);
    }
}

pub proof fn lemma_entry_index_found(s: Seq<(usize, BootstrapState)>, id: usize, i: int)
    requires
        0 <= i < s.len(),
        s[i].0 == id,
        forall|j: int| 0 <= j < i ==> s[j].0 != id,
    ensures
        entry_index(s, id) == i,
    decreases s.len(),
{
    if i > 0 {
        lemma_entry_index_found(s.skip(1), id, i - 1);
    }
}

pub proof fn lemma_entry_index_absent(s: Seq<(usize, BootstrapState)>, id: usize)
    requires
        forall|j: int| 0 <= j < s.len() ==> s[j].0 != id,
    ensures
        entry_index(s, id) == -1,
    decreases s.len(),
{
    if s.len() > 0 {
        lemma_entry_index_absent(s.skip(1), id);
    }
}

/// One address family's attempt table with its identifier counter.
/// Identifiers in the table are unique: they increase strictly with
/// the position and stay below the counter.
pub open spec fn table_wf(s: Seq<(usize, BootstrapState)>, next_id: usize) -> bool {
    &&& forall|i: int, j: int| 0 <= i < j < s.len() ==> s[i].0 < s[j].0
    &&& forall|i: int| 0 <= i < s.len() ==> (#[trigger] s[i].0) < next_id
}

/// The attempt tables of both address families.
pub struct Bootstraps {
    next_id_v4: usize,
    next_id_v6: usize,
    v4: Vec<(usize, BootstrapState)>,
    v6: Vec<(usize, BootstrapState)>,
}

/// Start an attempt in one table: a fresh identifier, a started entry.
fn start_in(table: &mut Vec<(usize, BootstrapState)>, next_id: &mut usize, now_ms: u64) -> (r:
    usize)
    requires
        table_wf(old(table)@, *old(next_id)),
        *old(next_id) < usize::MAX,
    ensures
        table_wf(final(table)@, *final(next_id)),
        r == *old(next_id),
        *final(next_id) == *old(next_id) + 1,
        final(table)@ == old(table)@.push((r, BootstrapState::Started { at_ms: now_ms })),
{
    let id = *next_id;
    table.push((id, BootstrapState::Started { at_ms: now_ms }));
    *next_id = id + 1;
    id
}

/// What `finish` leaves behind: the found running entry finished with
/// the elapsed duration, and everything else untouched.
pub open spec fn finish_post(
    s: Seq<(usize, BootstrapState)>,
    t: Seq<(usize, BootstrapState)>,
    id: usize,
    success: bool,
    now_ms: u64,
) -> bool {
    let i = entry_index(s, id);
    if i >= 0 && s[i].1 is Started {
        t == s.update(
            i,
            (id, BootstrapState::Finished { took_ms: finish_took(s[i].1, now_ms), success }),
        )
    } else {
        t == s
    }
}

/// Finish an attempt in one table.  An identifier that is not in the
/// table (its entry was cleared by a rotation) and one already finished
/// are ignored.
fn finish_in(table: &mut Vec<(usize, BootstrapState)>, id: usize, success: bool, now_ms: u64)
    ensures
        finish_post(old(table)@, final(table)@, id, success, now_ms),
{
    let ghost s = table@;
    let n = table.len();
    let mut i: usize = 0;
    let mut found: bool = false;
    while i < n && !found
        invariant
            n == table@.len(),
            0 <= i <= n,
            table@ == s,
            forall|j: int| 0 <= j < i ==> s[j].0 != id,
            found ==> i < n && s[i as int].0 == id,
        decreases n - i, (if found { 0int } else { 1int }),
    {
        let entry: &(usize, BootstrapState) = vstd::std_specs::vec::vec_index(table, i);
        if entry.0 == id {
            found = true;
        } else {
            i = i + 1;
        }
    }
    if !found {
        proof {
            lemma_entry_index_absent(s, id);
        }
        return ;
    }
    proof {
        lemma_entry_index_found(s, id, i as int);
    }
    let entry: &(usize, BootstrapState) = vstd::std_specs::vec::vec_index(table, i);
    match entry.1 {
        BootstrapState::Started { at_ms } => {
            let took_ms = if now_ms >= at_ms {
                now_ms - at_ms
            } else {
                0
            };
            table.set(i, (id, BootstrapState::Finished { took_ms, success }));
        },
        BootstrapState::Finished { .. } => (),
    }
}

/// The duration an attempt ran, measured to the present moment; a clock
/// that moved backward counts as no time elapsed.
pub open spec fn finish_took(state: BootstrapState, now_ms: u64) -> u64 {
    match state {
        BootstrapState::Started { at_ms } => if now_ms >= at_ms {
            (now_ms - at_ms) as u64
        } else {
            0u64
        },
        BootstrapState::Finished { took_ms, .. } => took_ms,
    }
}

/// Drop the finished entries of one table, keeping the running ones.
fn clear_finished_in(table: &mut Vec<(usize, BootstrapState)>)
    ensures
        final(table)@ == keep_started(old(table)@),
{
    let ghost s = table@;
    let n = table.len();
    let mut out: Vec<(usize, BootstrapState)> = Vec::new();
    let mut i: usize = 0;
    proof {
        assert(s.subrange(0, 0) =~= Seq::<(usize, BootstrapState)>::empty());
    }
    while i < n
        invariant
            n == table@.len(),
            0 <= i <= n,
            table@ == s,
            out@ == keep_started(s.subrange(0, i as int)),
        decreases n - i,
    {
        let entry: &(usize, BootstrapState) = vstd::std_specs::vec::vec_index(table, i);
        proof {
            assert(s.subrange(0, i as int + 1).drop_last() =~= s.subrange(0, i as int));
            assert(s.subrange(0, i as int + 1).last() == s[i as int]);
        }
        match entry.1 {
            BootstrapState::Started { .. } => {
                out.push(*entry);
            },
            BootstrapState::Finished { .. } => (),
        }
        i = i + 1;
    }
    proof {
        assert(s.subrange(0, n as int) =~= s);
    }
    *table = out;
}

impl Bootstraps {
    pub closed spec fn v4_spec(self) -> Seq<(usize, BootstrapState)> {
        self.v4@
    }

    pub closed spec fn v6_spec(self) -> Seq<(usize, BootstrapState)> {
        self.v6@
    }

    pub closed spec fn next_id_v4_spec(self) -> usize {
        self.next_id_v4
    }

    pub closed spec fn next_id_v6_spec(self) -> usize {
        self.next_id_v6
    }

    pub open spec fn wf(self) -> bool {
        table_wf(self.v4_spec(), self.next_id_v4_spec()) && table_wf(
            self.v6_spec(),
            self.next_id_v6_spec(),
        )
    }

    /// The table of one address family.
    pub open spec fn table_spec(self, ipv: IpVersion) -> Seq<(usize, BootstrapState)> {
        match ipv {
            IpVersion::V4 => self.v4_spec(),
            IpVersion::V6 => self.v6_spec(),
        }
    }

    pub fn new() -> (r: Bootstraps)
        ensures
            r.wf(),
            r.v4_spec() =~= Seq::<(usize, BootstrapState)>::empty(),
            r.v6_spec() =~= Seq::<(usize, BootstrapState)>::empty(),
    {
        Bootstraps { next_id_v4: 0, next_id_v6: 0, v4: Vec::new(), v6: Vec::new() }
    }

    /// Record the start of an attempt and hand out its identifier.
    pub fn start(&mut self, ipv: IpVersion, now_ms: u64) -> (r: BootstrapId)
        requires
            old(self).wf(),
            old(self).next_id_v4_spec() < usize::MAX,
            old(self).next_id_v6_spec() < usize::MAX,
        ensures
            final(self).wf(),
            r.ipv == ipv,
            final(self).table_spec(ipv) == old(self).table_spec(ipv).push(
                (r.id, BootstrapState::Started { at_ms: now_ms }),
            ),
            final(self).table_spec(flip(ipv)) == old(self).table_spec(flip(ipv)),
    {
        match ipv {
            IpVersion::V4 => {
                let id = start_in(&mut self.v4, &mut self.next_id_v4, now_ms);
                BootstrapId { ipv, id }
            },
            IpVersion::V6 => {
                let id = start_in(&mut self.v6, &mut self.next_id_v6, now_ms);
                BootstrapId { ipv, id }
            },
        }
    }

    /// Record the end of an attempt.  Finishing an attempt whose entry
    /// was cleared, or one already finished, changes nothing.
    pub fn finish(&mut self, id: BootstrapId, success: bool, now_ms: u64)
        requires
            old(self).wf(),
        ensures
            final(self).wf(),
            finish_post(
                old(self).table_spec(id.ipv),
                final(self).table_spec(id.ipv),
                id.id,
                success,
                now_ms,
            ),
            final(self).table_spec(flip(id.ipv)) == old(self).table_spec(flip(id.ipv)),
    {
        match id.ipv {
            IpVersion::V4 => finish_in(&mut self.v4, id.id, success, now_ms),
            IpVersion::V6 => finish_in(&mut self.v6, id.id, success, now_ms),
        }
        proof {
            let s = old(self).table_spec(id.ipv);
            let i = entry_index(s, id.id);
            lemma_entry_index_bounds(s, id.id);
            if i >= 0 && s[i].1 is Started {
                lemma_update_keeps_table_wf(
                    s,
                    i,
                    (
                        id.id,
                        BootstrapState::Finished { took_ms: finish_took(s[i].1, now_ms), success },
                    ),
                    match id.ipv {
                        IpVersion::V4 => old(self).next_id_v4_spec(),
                        IpVersion::V6 => old(self).next_id_v6_spec(),
                    },
                );
            }
        }
    }

    /// Drop the finished attempts, keeping the running ones.
    pub fn clear_finished(&mut self)
        requires
            old(self).wf(),
        ensures
            final(self).wf(),
            final(self).v4_spec() == keep_started(old(self).v4_spec()),
            final(self).v6_spec() == keep_started(old(self).v6_spec()),
            final(self).next_id_v4_spec() == old(self).next_id_v4_spec(),
            final(self).next_id_v6_spec() == old(self).next_id_v6_spec(),
    {
        proof {
            lemma_keep_started_wf(self.v4@, self.next_id_v4);
            lemma_keep_started_wf(self.v6@, self.next_id_v6);
        }
        clear_finished_in(&mut self.v4);
        clear_finished_in(&mut self.v6);
    }

    /// Drop everything.
    pub fn clear(&mut self)
        ensures
            final(self).wf(),
            final(self).v4_spec() =~= Seq::<(usize, BootstrapState)>::empty(),
            final(self).v6_spec() =~= Seq::<(usize, BootstrapState)>::empty(),
    {
        self.v4.clear();
        self.v6.clear();
    }

    /// Borrow one table for serialization.
    pub fn table(&self, ipv: IpVersion) -> (r: &Vec<(usize, BootstrapState)>)
        ensures
            r@ == self.table_spec(ipv),
    {
        match ipv {
            IpVersion::V4 => &self.v4,
            IpVersion::V6 => &self.v6,
        }
    }
}

/// The other address family.
pub open spec fn flip(ipv: IpVersion) -> IpVersion {
    match ipv {
        IpVersion::V4 => IpVersion::V6,
        IpVersion::V6 => IpVersion::V4,
    }
}

/// Lower bound of histogram bucket `k`: zero for the first bucket, then
/// the scale doubled per bucket.
pub open spec fn bucket_lo(scale: nat, k: nat) -> nat {
    if k == 0 {
        0
    } else {
        scale * pow2((k - 1) as nat)
    }
}

/// Exclusive upper bound of histogram bucket `k`.
pub open spec fn bucket_hi(scale: nat, k: nat) -> nat {
    scale * pow2(k)
}

pub open spec fn in_bucket(scale: nat, k: nat, v: nat) -> bool {
    bucket_lo(scale, k) <= v < bucket_hi(scale, k)
}

/// How many of the values fall into bucket `k`.
pub open spec fn count_in_bucket(vs: Seq<u64>, scale: nat, k: nat) -> nat
    decreases vs.len(),
{
    if vs.len() == 0 {
        0
    } else {
        count_in_bucket(vs.drop_last(), scale, k) + if in_bucket(scale, k, vs.last() as nat) {
            1nat
        } else {
            0nat
        }
    }
}

/// Does the value fall into any of the first `bc` buckets?
pub open spec fn is_assigned(scale: nat, bc: nat, v: nat) -> bool {
    exists|k: nat| k < bc && in_bucket(scale, k, v)
}

/// How many of the values fall into no bucket.
pub open spec fn count_unassigned(vs: Seq<u64>, scale: nat, bc: nat) -> nat
    decreases vs.len(),
{
    if vs.len() == 0 {
        0
    } else {
        count_unassigned(vs.drop_last(), scale, bc) + if is_assigned(scale, bc, vs.last() as nat) {
            0nat
        } else {
            1nat
        }
    }
}

/// A bucket count never exceeds the number of values.
pub proof fn lemma_count_in_bucket_le(vs: Seq<u64>, scale: nat, k: nat)
    ensures
        count_in_bucket(vs, scale, k) <= vs.len(),
    decreases vs.len(),
{
    if vs.len() > 0 {
        lemma_count_in_bucket_le(vs.drop_last(), scale, k);
    }
}

pub proof fn lemma_count_unassigned_le(vs: Seq<u64>, scale: nat, bc: nat)
    ensures
        count_unassigned(vs, scale, bc) <= vs.len(),
    decreases vs.len(),
{
    if vs.len() > 0 {
        lemma_count_unassigned_le(vs.drop_last(), scale, bc);
    }
}

/// Buckets past the one a value falls into cannot also hold it.
proof fn lemma_buckets_disjoint_above(scale: nat, k: nat, j: nat, v: nat)
    requires
        in_bucket(scale, k, v),
        j > k,
    ensures
        !in_bucket(scale, j, v),
{
    vstd::arithmetic::power2::lemma_pow2_pos(k);
    if j - 1 > k {
        vstd::arithmetic::power2::lemma_pow2_strictly_increases(k, (j - 1) as nat);
    }
    assert(scale * pow2(k) <= scale * pow2((j - 1) as nat)) by (nonlinear_arith)
        requires
            pow2(k) <= pow2((j - 1) as nat),
            scale >= 0,
    ;
}

/// Histogram of values over buckets that double in width, with a count
/// of the values past the last bucket.
pub struct ExponentialHistogram {
    pub scale: u32,
    pub buckets: Vec<u32>,
    pub more: u32,
}

impl ExponentialHistogram {
    /// Count each value into its bucket: `[0, scale)`, then
    /// `[scale * 2^(k-1), scale * 2^k)` for bucket `k`, and `more` for
    /// values beyond the last bucket.
    pub fn new(scale: u32, bucket_count: usize, values: &Vec<u64>) -> (r: ExponentialHistogram)
        requires
            values@.len() <= u32::MAX,
            bucket_count <= 64,
        ensures
            r.scale == scale,
            r.buckets@.len() == bucket_count,
            forall|k: int|
                0 <= k < bucket_count ==> (#[trigger] r.buckets@[k]) as nat == count_in_bucket(
                    values@,
                    scale as nat,
                    k as nat,
                ),
            r.more as nat == count_unassigned(values@, scale as nat, bucket_count as nat),
    {
        let mut buckets: Vec<u32> = Vec::new();
        let mut z: usize = 0;
        while z < bucket_count
            invariant
                0 <= z <= bucket_count,
                buckets@.len() == z,
                forall|k: int| 0 <= k < z ==> (#[trigger] buckets@[k]) == 0u32,
            decreases bucket_count - z,
        {
            buckets.push(0u32);
            z = z + 1;
        }
        let mut more: u32 = 0;
        let ghost vs = values@;
        let n = values.len();
        let mut vi: usize = 0;
        proof {
            assert(vs.subrange(0, 0) =~= Seq::<u64>::empty());
            lemma_zero_counts(vs.subrange(0, 0), scale as nat, bucket_count as nat);
        }
        while vi < n
            invariant
                n == vs.len() <= u32::MAX,
                values@ == vs,
                0 <= vi <= n,
                bucket_count <= 64,
                buckets@.len() == bucket_count,
                forall|k: int|
                    0 <= k < bucket_count ==> (#[trigger] buckets@[k]) as nat == count_in_bucket(
                        vs.subrange(0, vi as int),
                        scale as nat,
                        k as nat,
                    ),
                more as nat == count_unassigned(
                    vs.subrange(0, vi as int),
                    scale as nat,
                    bucket_count as nat,
                ),
            decreases n - vi,
        {
            let v: u64 = *vstd::std_specs::vec::vec_index(values, vi);
            let mut lo: u128 = 0;
            let mut hi: u128 = scale as u128;
            let mut k: usize = 0;
            let mut assigned: bool = false;
            proof {
                assert(pow2(0) == 1) by {
                    vstd::arithmetic::power2::lemma2_to64();
                }
            }
            while k < bucket_count && !assigned
                invariant
                    0 <= k <= bucket_count <= 64,
                    lo == bucket_lo(scale as nat, k as nat),
                    hi == bucket_hi(scale as nat, k as nat),
                    forall|j: nat| j < k ==> !in_bucket(scale as nat, j, v as nat),
                    assigned ==> k < bucket_count && in_bucket(scale as nat, k as nat, v as nat),
                decreases bucket_count - k, (if assigned {
                    0int
                } else {
                    1int
                }),
            {
                if (lo <= v as u128) && ((v as u128) < hi) {
                    assigned = true;
                } else {
                    proof {
                        vstd::arithmetic::power2::lemma_pow2_unfold((k + 1) as nat);
                        if ((k + 1) as nat) < 64 {
                            vstd::arithmetic::power2::lemma_pow2_strictly_increases(
                                (k + 1) as nat,
                                64,
                            );
                        }
                        assert(pow2(64) == 0x10000000000000000) by {
                            vstd::arithmetic::power2::lemma2_to64_rest();
                        }
                        assert(hi * 2 == scale as nat * pow2((k + 1) as nat)) by (nonlinear_arith)
                            requires
                                hi == scale as nat * pow2(k as nat),
                                pow2((k + 1) as nat) == 2 * pow2(k as nat),
                        ;
                        assert(scale as nat * pow2((k + 1) as nat) <= 0x100000000
                            * 0x10000000000000000) by (nonlinear_arith)
                            requires
                                scale < 0x100000000,
                                pow2((k + 1) as nat) <= 0x10000000000000000,
                        ;
                    }
                    lo = hi;
                    hi = hi * 2;
                    k = k + 1;
                }
            }
            proof {
                let pre = vs.subrange(0, vi as int);
                let post = vs.subrange(0, vi as int + 1);
                assert(post.drop_last() =~= pre);
                assert(post.last() == v);
                lemma_count_unassigned_le(post, scale as nat, bucket_count as nat);
                if assigned {
                    assert(is_assigned(scale as nat, bucket_count as nat, v as nat));
                    assert forall|j: int|
                        0 <= j < bucket_count && j != k implies !(#[trigger] in_bucket(
                        scale as nat,
                        j as nat,
                        v as nat,
                    )) by {
                        if j > k {
                            lemma_buckets_disjoint_above(
                                scale as nat,
                                k as nat,
                                j as nat,
                                v as nat,
                            );
                        }
                    }
                } else {
                    assert(!is_assigned(scale as nat, bucket_count as nat, v as nat));
                }
                assert forall|kk: int| 0 <= kk < bucket_count implies #[trigger] count_in_bucket(
                    post,
                    scale as nat,
                    kk as nat,
                ) <= post.len() by {
                    lemma_count_in_bucket_le(post, scale as nat, kk as nat);
                }
            }
            if assigned {
                proof {
                    lemma_count_in_bucket_le(vs.subrange(0, vi as int), scale as nat, k as nat);
                }
                let cur: u32 = *vstd::std_specs::vec::vec_index(&buckets, k);
                buckets.set(k, cur + 1);
            } else {
                more = more + 1;
            }
            vi = vi + 1;
        }
        proof {
            assert(vs.subrange(0, n as int) =~= vs);
        }
        ExponentialHistogram { scale, buckets, more }
    }
}

/// Counts over no values are zero.
proof fn lemma_zero_counts(vs: Seq<u64>, scale: nat, bc: nat)
    requires
        vs.len() == 0,
    ensures
        forall|k: nat| count_in_bucket(vs, scale, k) == 0,
        count_unassigned(vs, scale, bc) == 0,
{
}

/// The least of the values, when any.
pub open spec fn min_of(s: Seq<u64>) -> Option<u64>
    decreases s.len(),
{
    if s.len() == 0 {
        None
    } else {
        match min_of(s.drop_last()) {
            None => Some(s.last()),
            Some(m) => Some(
                if s.last() < m {
                    s.last()
                } else {
                    m
                },
            ),
        }
    }
}

/// The greatest of the values, when any.
pub open spec fn max_of(s: Seq<u64>) -> Option<u64>
    decreases s.len(),
{
    if s.len() == 0 {
        None
    } else {
        match max_of(s.drop_last()) {
            None => Some(s.last()),
            Some(m) => Some(
                if s.last() > m {
                    s.last()
                } else {
                    m
                },
            ),
        }
    }
}

pub fn min_of_values(values: &Vec<u64>) -> (r: Option<u64>)
    ensures
        r == min_of(values@),
{
    let mut best: Option<u64> = None;
    let n = values.len();
    let mut i: usize = 0;
    proof {
        assert(values@.subrange(0, 0) =~= Seq::<u64>::empty());
    }
    while i < n
        invariant
            n == values@.len(),
            0 <= i <= n,
            best == min_of(values@.subrange(0, i as int)),
        decreases n - i,
    {
        let v: u64 = *vstd::std_specs::vec::vec_index(values, i);
        proof {
            assert(values@.subrange(0, i as int + 1).drop_last() =~= values@.subrange(0, i as int));
        }
        best = match best {
            None => Some(v),
            Some(m) => Some(
                if v < m {
                    v
                } else {
                    m
                },
            ),
        };
        i = i + 1;
    }
    proof {
        assert(values@.subrange(0, n as int) =~= values@);
    }
    best
}

pub fn max_of_values(values: &Vec<u64>) -> (r: Option<u64>)
    ensures
        r == max_of(values@),
{
    let mut best: Option<u64> = None;
    let n = values.len();
    let mut i: usize = 0;
    proof {
        assert(values@.subrange(0, 0) =~= Seq::<u64>::empty());
    }
    while i < n
        invariant
            n == values@.len(),
            0 <= i <= n,
            best == max_of(values@.subrange(0, i as int)),
        decreases n - i,
    {
        let v: u64 = *vstd::std_specs::vec::vec_index(values, i);
        proof {
            assert(values@.subrange(0, i as int + 1).drop_last() =~= values@.subrange(0, i as int));
        }
        best = match best {
            None => Some(v),
            Some(m) => Some(
                if v > m {
                    v
                } else {
                    m
                },
            ),
        };
        i = i + 1;
    }
    proof {
        assert(values@.subrange(0, n as int) =~= values@);
    }
    best
}

/// The successful durations of a table, gathered for serialization.
pub fn collect_success_durations(table: &Vec<(usize, BootstrapState)>) -> (r: Vec<u64>)
    ensures
        r@ == success_durations(table@),
{
    let mut out: Vec<u64> = Vec::new();
    let n = table.len();
    let mut i: usize = 0;
    proof {
        assert(table@.subrange(0, 0) =~= Seq::<(usize, BootstrapState)>::empty());
    }
    while i < n
        invariant
            n == table@.len(),
            0 <= i <= n,
            out@ == success_durations(table@.subrange(0, i as int)),
        decreases n - i,
    {
        let entry: &(usize, BootstrapState) = vstd::std_specs::vec::vec_index(table, i);
        proof {
            assert(table@.subrange(0, i as int + 1).drop_last() =~= table@.subrange(0, i as int));
            assert(table@.subrange(0, i as int + 1).last() == table@[i as int]);
        }
        match entry.1.success_duration_ms() {
            Some(d) => out.push(d),
            None => (),
        }
        i = i + 1;
    }
    proof {
        assert(table@.subrange(0, n as int) =~= table@);
    }
    out
}

/// How many attempts of a table are still running.
pub fn count_started_in(table: &Vec<(usize, BootstrapState)>) -> (r: usize)
    ensures
        r as nat == count_started(table@),
{
    let mut count: usize = 0;
    let n = table.len();
    let mut i: usize = 0;
    proof {
        assert(table@.subrange(0, 0) =~= Seq::<(usize, BootstrapState)>::empty());
        lemma_count_started_le(table@, 0);
    }
    while i < n
        invariant
            n == table@.len(),
            0 <= i <= n,
            count as nat == count_started(table@.subrange(0, i as int)),
            count <= i,
        decreases n - i,
    {
        let entry: &(usize, BootstrapState) = vstd::std_specs::vec::vec_index(table, i);
        proof {
            assert(table@.subrange(0, i as int + 1).drop_last() =~= table@.subrange(0, i as int));
            assert(table@.subrange(0, i as int + 1).last() == table@[i as int]);
        }
        match entry.1 {
            BootstrapState::Started { .. } => {
                count = count + 1;
            },
            BootstrapState::Finished { .. } => (),
        }
        i = i + 1;
    }
    proof {
        assert(table@.subrange(0, n as int) =~= table@);
    }
    count
}

proof fn lemma_count_started_le(s: Seq<(usize, BootstrapState)>, i: int)
    ensures
        count_started(s) <= s.len(),
    decreases s.len(),
{
    if s.len() > 0 {
        lemma_count_started_le(s.drop_last(), i);
    }
}

/// The running count never exceeds the number of entries.
pub proof fn lemma_count_started_le_pub(s: Seq<(usize, BootstrapState)>)
    ensures
        count_started(s) <= s.len(),
{
    lemma_count_started_le(s, 0);
}

/// Keeping only the running entries never grows the table.
pub proof fn lemma_keep_started_le(s: Seq<(usize, BootstrapState)>)
    ensures
        keep_started(s).len() <= s.len(),
    decreases s.len(),
{
    if s.len() > 0 {
        lemma_keep_started_le(s.drop_last());
    }
}

/// Updating an entry in place, keeping its identifier, keeps the table
/// well-formed.
proof fn lemma_update_keeps_table_wf(
    s: Seq<(usize, BootstrapState)>,
    i: int,
    entry: (usize, BootstrapState),
    next_id: usize,
)
    requires
        table_wf(s, next_id),
        0 <= i < s.len(),
        entry.0 == s[i].0,
    ensures
        table_wf(s.update(i, entry), next_id),
{
    let t = s.update(i, entry);
    assert forall|a: int, b: int| 0 <= a < b < t.len() implies t[a].0 < t[b].0 by {
        assert(s[a].0 < s[b].0);
    }
}

/// Keeping a subsequence keeps the table well-formed.
proof fn lemma_keep_started_wf(s: Seq<(usize, BootstrapState)>, next_id: usize)
    requires
        table_wf(s, next_id),
    ensures
        table_wf(keep_started(s), next_id),
        forall|i: int|
            0 <= i < keep_started(s).len() ==> exists|j: int|
                0 <= j < s.len() && s[j] == #[trigger] keep_started(s)[i],
        keep_started(s).len() <= s.len(),
        forall|i: int, j: int|
            0 <= i < j < keep_started(s).len() ==> keep_started(s)[i].0 < keep_started(s)[j].0,
    decreases s.len(),
{
    if s.len() > 0 {
        lemma_keep_started_wf(s.drop_last(), next_id);
        let k = keep_started(s);
        let kd = keep_started(s.drop_last());
        if s.last().1 is Started {
            assert(k == kd.push(s.last()));
            assert forall|i: int, j: int| 0 <= i < j < k.len() implies k[i].0 < k[j].0 by {
                if j < k.len() - 1 {
                    assert(kd[i].0 < kd[j].0);
                } else {
                    let wit = choose|w: int|
                        0 <= w < s.drop_last().len() && s.drop_last()[w] == k[i];
                    assert(s[wit].0 < s[s.len() - 1].0);
                }
            }
            assert forall|i: int| 0 <= i < k.len() implies (#[trigger] k[i].0) < next_id by {
                if i < k.len() - 1 {
                    assert(kd[i].0 < next_id);
                } else {
                    assert(s[s.len() - 1].0 < next_id);
                }
            }
            assert forall|i: int| 0 <= i < k.len() implies exists|j: int|
                0 <= j < s.len() && s[j] == #[trigger] k[i] by {
                if i < k.len() - 1 {
                    let wit = choose|w: int|
                        0 <= w < s.drop_last().len() && s.drop_last()[w] == kd[i];
                    assert(s[wit] == k[i]);
                } else {
                    assert(s[s.len() - 1] == k[i]);
                }
            }
        } else {
            assert(k == kd);
            assert forall|i: int| 0 <= i < k.len() implies exists|j: int|
                0 <= j < s.len() && s[j] == #[trigger] k[i] by {
                let wit = choose|w: int| 0 <= w < s.drop_last().len() && s.drop_last()[w] == kd[i];
                assert(s[wit] == k[i]);
            }
        }
    }
}

} // verus!

//! Jobs that a sampler holds, by the id that they carry.
use crate::job::{ExactEnergy, SessionTarget};
use crate::stream::StreamJob;
use crate::wire::{copy_bytes, same_bytes};
use vstd::prelude::*;

verus! {

/// Which salt of which range a job samples.
#[derive(Clone, Copy, Debug, PartialEq, Eq, Structural)]
pub struct LeaseLink {
    /// Number of the range within its session.
    pub lease: u64,
    /// Index of the salt within the range.
    pub index: u64,
}

/// What was known about a job when it was prepared, held until it finishes.
#[derive(Debug)]
pub struct PendingJob {
    /// The coordinator's own id of the job.
    pub job_id: Vec<u8>,
    /// Wire coefficients, when the sampler's representation can lose
    /// information.
    pub exact_energy: Option<ExactEnergy>,
    pub num_reads: u32,
    pub num_sweeps: u32,
    /// When the job was prepared, in milliseconds of a steady clock.
    pub started_ms: u64,
    /// Session energy threshold, or `None` when there is none.
    pub max_energy_milli: Option<i64>,
    pub min_solutions: u32,
    /// This job's cancellation watermark.
    pub watermark: Option<u64>,
    /// Set for the job of a salt range.
    pub lease: Option<LeaseLink>,
}

/// The requirement that an attempt is measured against. A target of
/// `i64::MAX` sets no real threshold.
pub open spec fn threshold(target: Option<SessionTarget>) -> (Option<i64>, u32) {
    match target {
        None => (None, 0),
        Some(t) => (
            if t.max_energy_milli == i64::MAX {
                None
            } else {
                Some(t.max_energy_milli)
            },
            t.min_solutions,
        ),
    }
}

/// The requirement that an attempt is measured against.
pub fn requirement(target: Option<SessionTarget>) -> (measured: (Option<i64>, u32))
    ensures
        measured == threshold(target),
{
    match target {
        None => (None, 0),
        Some(t) => (
            if t.max_energy_milli == i64::MAX {
                None
            } else {
                Some(t.max_energy_milli)
            },
            t.min_solutions,
        ),
    }
}

/// The pending jobs of a session.
#[derive(Debug)]
pub struct PendingTable {
    pub entries: Vec<(Vec<u8>, PendingJob)>,
}

/// The jobs of a list by their ids, the last one of an id winning.
pub open spec fn as_map(entries: Seq<(Vec<u8>, PendingJob)>) -> Map<Seq<u8>, PendingJob>
    decreases entries.len(),
{
    if entries.len() == 0 {
        Map::empty()
    } else {
        as_map(entries.drop_last()).insert(entries.last().0@, entries.last().1)
    }
}

/// No id occurs twice.
pub open spec fn distinct(entries: Seq<(Vec<u8>, PendingJob)>) -> bool {
    forall|a: int, b: int|
        0 <= a < b < entries.len() ==> (#[trigger] entries[a]).0@ != (#[trigger] entries[b]).0@
}

impl View for PendingTable {
    type V = Map<Seq<u8>, PendingJob>;

    open spec fn view(&self) -> Map<Seq<u8>, PendingJob> {
        as_map(self.entries@)
    }
}

proof fn lemma_contains(entries: Seq<(Vec<u8>, PendingJob)>, key: Seq<u8>)
    ensures
        as_map(entries).contains_key(key) <==> exists|i: int|
            0 <= i < entries.len() && (#[trigger] entries[i]).0@ == key,
    decreases entries.len(),
{
    if entries.len() > 0 {
        let shorter = entries.drop_last();
        lemma_contains(shorter, key);
        if as_map(entries).contains_key(key) && entries.last().0@ != key {
            let i = choose|i: int| 0 <= i < shorter.len() && (#[trigger] shorter[i]).0@ == key;
            assert(entries[i].0@ == key);
        }
        if exists|i: int| 0 <= i < entries.len() && (#[trigger] entries[i]).0@ == key {
            let i = choose|i: int| 0 <= i < entries.len() && (#[trigger] entries[i]).0@ == key;
            if i < shorter.len() {
                assert(shorter[i].0@ == key);
            }
        }
    }
}

proof fn lemma_remove(entries: Seq<(Vec<u8>, PendingJob)>, i: int)
    requires
        distinct(entries),
        0 <= i < entries.len(),
    ensures
        as_map(entries.remove(i)) == as_map(entries).remove(entries[i].0@),
        as_map(entries).contains_key(entries[i].0@),
        as_map(entries)[entries[i].0@] == entries[i].1,
        distinct(entries.remove(i)),
    decreases entries.len(),
{
    let shorter = entries.drop_last();
    let key = entries[i].0@;
    if i == entries.len() - 1 {
        assert(entries.remove(i) =~= shorter);
        lemma_contains(shorter, key);
        if as_map(shorter).contains_key(key) {
            let k = choose|k: int| 0 <= k < shorter.len() && (#[trigger] shorter[k]).0@ == key;
            assert(entries[k].0@ != entries[i].0@);
        }
        assert(as_map(shorter) =~= as_map(entries).remove(key));
    } else {
        assert forall|a: int, b: int| 0 <= a < b < shorter.len() implies (
            #[trigger] shorter[a]).0@ != (#[trigger] shorter[b]).0@ by {
            assert(entries[a].0@ != entries[b].0@);
        }
        lemma_remove(shorter, i);
        assert(shorter[i] == entries[i]);
        assert(entries.remove(i).drop_last() =~= shorter.remove(i));
        assert(entries.remove(i).last() == entries.last());
        assert(entries[i].0@ != entries[entries.len() - 1].0@);
        assert(as_map(entries.remove(i)) =~= as_map(entries).remove(key));
    }
    assert forall|a: int, b: int| 0 <= a < b < entries.remove(i).len() implies (
        #[trigger] entries.remove(i)[a]).0@ != (#[trigger] entries.remove(i)[b]).0@ by {
        let a0 = if a < i {
            a
        } else {
            a + 1
        };
        let b0 = if b < i {
            b
        } else {
            b + 1
        };
        assert(entries[a0].0@ != entries[b0].0@);
    }
}

impl PendingTable {
    /// No id occurs twice.
    pub open spec fn wf(self) -> bool {
        distinct(self.entries@)
    }

    /// A table without jobs.
    pub fn new() -> (table: Self)
        ensures
            table.wf(),
            table@ == Map::<Seq<u8>, PendingJob>::empty(),
    {
        PendingTable { entries: Vec::new() }
    }

    /// Take out the job with this id.
    pub fn remove(&mut self, job_id: &[u8]) -> (job: Option<PendingJob>)
        requires
            old(self).wf(),
        ensures
            final(self).wf(),
            final(self)@ == old(self)@.remove(job_id@),
            job == if old(self)@.contains_key(job_id@) {
                Some(old(self)@[job_id@])
            } else {
                None
            },
    {
        let mut i: usize = 0;
        while i < self.entries.len()
            invariant
                i <= self.entries@.len(),
                *self == *old(self),
                self.wf(),
                forall|k: int| 0 <= k < i ==> (#[trigger] self.entries@[k]).0@ != job_id@,
            decreases self.entries@.len() - i,
        {
            if same_bytes(self.entries[i].0.as_slice(), job_id) {
                proof {
                    lemma_remove(self.entries@, i as int);
                }
                let (_, job): (Vec<u8>, PendingJob) = self.entries.remove(i);
                return Some(job);
            }
            i += 1;
        }
        proof {
            lemma_contains(self.entries@, job_id@);
            assert(self@.remove(job_id@) =~= self@);
        }
        None
    }

    /// Hold a job under this id, in place of one that had it.
    pub fn insert(&mut self, job_id: Vec<u8>, job: PendingJob)
        requires
            old(self).wf(),
        ensures
            final(self).wf(),
            final(self)@ == old(self)@.insert(job_id@, job),
    {
        let ghost start = self@;
        let _ = self.remove(job_id.as_slice());
        let ghost between = self.entries@;
        self.entries.push((job_id, job));
        proof {
            assert(self.entries@.drop_last() =~= between);
            lemma_contains(between, job_id@);
            assert(!as_map(between).contains_key(job_id@));
            assert forall|a: int, b: int| 0 <= a < b < self.entries@.len() implies (
                #[trigger] self.entries@[a]).0@ != (#[trigger] self.entries@[b]).0@ by {
                if b < between.len() {
                    assert(between[a].0@ != between[b].0@);
                } else {
                    assert(between[a].0@ != job_id@);
                }
            }
            assert(self@ =~= start.insert(job_id@, job));
        }
    }
}

/// A job that is held is handed out once, as it was put in, and is then gone.
pub proof fn law_held_jobs_come_out_once(
    table: Map<Seq<u8>, PendingJob>,
    job_id: Seq<u8>,
    job: PendingJob,
)
    ensures
        ({
            let held = table.insert(job_id, job);
            &&& held.contains_key(job_id)
            &&& held[job_id] == job
            &&& !held.remove(job_id).contains_key(job_id)
            &&& forall|other: Seq<u8>|
                other != job_id ==> (held.contains_key(other) <==> table.contains_key(other))
        }),
{
}

/// The eight bytes of `n`, least significant first.
pub open spec fn index_bytes(n: u64) -> Seq<u8> {
    Seq::new(8, |i: int| byte_of(n, i))
}

/// Byte `i` of `n`.
pub open spec fn byte_of(n: u64, i: int) -> u8 {
    ((n >> ((8 * i) as u64)) & 0xff) as u8
}

/// The id under which a plain job is held.
pub open spec fn plain_id(job_id: Seq<u8>) -> Seq<u8> {
    seq![0u8] + job_id
}

/// The id under which one salt's job is held: the range's own id, and the
/// salt's index behind it.
pub open spec fn salt_id(job_id: Seq<u8>, index: u64) -> Seq<u8> {
    seq![1u8] + job_id + index_bytes(index)
}

/// The id under which a job is held.
pub open spec fn held_id(job_id: Seq<u8>, index: Option<u64>) -> Seq<u8> {
    match index {
        None => plain_id(job_id),
        Some(n) => salt_id(job_id, n),
    }
}

/// The id under which a job is held: that of a plain job, or that of one salt
/// of a range. The first byte tells the two apart, so a plain job may carry any
/// id at all.
pub fn pending_id(job_id: &[u8], index: Option<u64>) -> (id: Vec<u8>)
    ensures
        id@ == held_id(job_id@, index),
{
    let mut id: Vec<u8> = Vec::new();
    id.push(match index {
        None => 0u8,
        Some(_) => 1u8,
    });
    let ghost tag = id@;
    let mut at: usize = 0;
    while at < job_id.len()
        invariant
            at <= job_id@.len(),
            id@ == tag + job_id@.take(at as int),
        decreases job_id@.len() - at,
    {
        id.push(job_id[at]);
        assert(id@ =~= tag + job_id@.take(at + 1));
        at += 1;
    }
    assert(job_id@.take(at as int) =~= job_id@);
    match index {
        None => {
            assert(id@ =~= plain_id(job_id@));
        },
        Some(n) => {
            let ghost start = id@;
            let mut i: u64 = 0;
            while i < 8
                invariant
                    i <= 8,
                    id@.len() == start.len() + i,
                    forall|k: int| 0 <= k < start.len() ==> id@[k] == start[k],
                    forall|k: int|
                        0 <= k < i ==> #[trigger] id@[start.len() + k] == byte_of(n, k),
                decreases 8 - i,
            {
                id.push(((n >> (8 * i)) & 0xff) as u8);
                i += 1;
            }
            assert forall|k: int| start.len() <= k < start.len() + 8 implies id@[k] == (start
                + index_bytes(n))[k] by {
                assert(id@[start.len() + (k - start.len())] == byte_of(n, k - start.len()));
            }
            assert(id@ =~= start + index_bytes(n));
            assert(id@ =~= salt_id(job_id@, n));
        },
    }
    id
}

proof fn lemma_index_bytes(a: u64, b: u64)
    requires
        index_bytes(a) == index_bytes(b),
    ensures
        a == b,
{
    assert forall|i: int| 0 <= i < 8 implies byte_of(a, i) == byte_of(b, i) by {
        assert(index_bytes(a)[i] == byte_of(a, i));
        assert(index_bytes(b)[i] == byte_of(b, i));
    }
    assert(byte_of(a, 0) == byte_of(b, 0) && byte_of(a, 1) == byte_of(b, 1) && byte_of(a, 2)
        == byte_of(b, 2) && byte_of(a, 3) == byte_of(b, 3) && byte_of(a, 4) == byte_of(b, 4)
        && byte_of(a, 5) == byte_of(b, 5) && byte_of(a, 6) == byte_of(b, 6) && byte_of(a, 7)
        == byte_of(b, 7));
    assert(a == b) by (bit_vector)
        requires
            ((a >> 0u64) & 0xff) as u8 == ((b >> 0u64) & 0xff) as u8,
            ((a >> 8u64) & 0xff) as u8 == ((b >> 8u64) & 0xff) as u8,
            ((a >> 16u64) & 0xff) as u8 == ((b >> 16u64) & 0xff) as u8,
            ((a >> 24u64) & 0xff) as u8 == ((b >> 24u64) & 0xff) as u8,
            ((a >> 32u64) & 0xff) as u8 == ((b >> 32u64) & 0xff) as u8,
            ((a >> 40u64) & 0xff) as u8 == ((b >> 40u64) & 0xff) as u8,
            ((a >> 48u64) & 0xff) as u8 == ((b >> 48u64) & 0xff) as u8,
            ((a >> 56u64) & 0xff) as u8 == ((b >> 56u64) & 0xff) as u8,
    ;
}

/// No two jobs share an id: two plain jobs with one id are one job, two salts
/// with one id are the same salt of the same range, and a plain job never has
/// the id of a salt.
pub proof fn law_held_ids_are_distinct(
    job_a: Seq<u8>,
    a: Option<u64>,
    job_b: Seq<u8>,
    b: Option<u64>,
)
    requires
        held_id(job_a, a) == held_id(job_b, b),
    ensures
        job_a == job_b,
        a == b,
{
    let x = held_id(job_a, a);
    let y = held_id(job_b, b);
    assert(x[0] == match a {
        None => 0u8,
        Some(_) => 1u8,
    });
    assert(y[0] == match b {
        None => 0u8,
        Some(_) => 1u8,
    });
    match (a, b) {
        (None, None) => {
            assert(job_a =~= x.skip(1));
            assert(job_b =~= y.skip(1));
        },
        (Some(m), Some(n)) => {
            assert(index_bytes(m).len() == 8 && index_bytes(n).len() == 8);
            assert(x.len() == job_a.len() + 9);
            assert(y.len() == job_b.len() + 9);
            assert(job_a =~= x.subrange(1, 1 + job_a.len() as int));
            assert(job_b =~= y.subrange(1, 1 + job_b.len() as int));
            assert(index_bytes(m) =~= x.skip(1 + job_a.len() as int));
            assert(index_bytes(n) =~= y.skip(1 + job_b.len() as int));
            lemma_index_bytes(m, n);
        },
        _ => {},
    }
}

/// What is recorded of a plain job.
pub open spec fn records<C>(
    entry: PendingJob,
    job: StreamJob<C>,
    exact_energy: Option<ExactEnergy>,
    num_reads: u32,
    num_sweeps: u32,
    target: Option<SessionTarget>,
    now_ms: u64,
) -> bool {
    &&& entry.job_id@ == job.job_id@
    &&& entry.exact_energy == exact_energy
    &&& entry.num_reads == num_reads
    &&& entry.num_sweeps == num_sweeps
    &&& entry.started_ms == now_ms
    &&& (entry.max_energy_milli, entry.min_solutions) == threshold(target)
    &&& entry.watermark == job.watermark
    &&& entry.lease is None
}

/// Record a prepared job and hand it on under the id that it is held by.
pub fn hold_job<C>(
    table: &mut PendingTable,
    job: StreamJob<C>,
    exact_energy: Option<ExactEnergy>,
    num_reads: u32,
    num_sweeps: u32,
    target: Option<SessionTarget>,
    now_ms: u64,
) -> (sent: StreamJob<C>)
    requires
        old(table).wf(),
    ensures
        final(table).wf(),
        sent.job_id@ == plain_id(job.job_id@),
        sent.graph == job.graph,
        sent.params == job.params,
        sent.watermark == job.watermark,
        final(table)@.contains_key(sent.job_id@),
        records(
            final(table)@[sent.job_id@],
            job,
            exact_energy,
            num_reads,
            num_sweeps,
            target,
            now_ms,
        ),
        final(table)@ == old(table)@.insert(sent.job_id@, final(table)@[sent.job_id@]),
{
    let id: Vec<u8> = pending_id(job.job_id.as_slice(), None);
    let (max_energy_milli, min_solutions): (Option<i64>, u32) = requirement(target);
    let StreamJob { job_id, graph, params, watermark } = job;
    let entry: PendingJob = PendingJob {
        job_id,
        exact_energy,
        num_reads,
        num_sweeps,
        started_ms: now_ms,
        max_energy_milli,
        min_solutions,
        watermark,
        lease: None,
    };
    table.insert(copy_bytes(id.as_slice()), entry);
    StreamJob { job_id: id, graph, params, watermark }
}

/// A table without repeated ids holds every entry under its own id, and nothing
/// else.
pub proof fn law_a_table_holds_its_entries(table: PendingTable, key: Seq<u8>, i: int)
    requires
        table.wf(),
    ensures
        0 <= i < table.entries@.len() ==> table@.contains_key(table.entries@[i].0@)
            && table@[table.entries@[i].0@] == table.entries@[i].1,
        table@.contains_key(key) ==> exists|k: int|
            0 <= k < table.entries@.len() && (#[trigger] table.entries@[k]).0@ == key,
{
    lemma_contains(table.entries@, key);
    if 0 <= i < table.entries@.len() {
        lemma_remove(table.entries@, i);
    }
}

/// An attempt is measured against the threshold and the number of solutions of
/// its target, unless the threshold is the largest number there is.
pub proof fn law_a_target_sets_the_threshold(target: SessionTarget)
    ensures
        threshold(Some(target)).1 == target.min_solutions,
        target.max_energy_milli < i64::MAX ==> threshold(Some(target)).0 == Some(
            target.max_energy_milli,
        ),
        target.max_energy_milli == i64::MAX ==> threshold(Some(target)).0 is None,
        threshold(None) == (None::<i64>, 0u32),
{
}

/// What is held of a job is what was known of it: the coordinator's own id, the
/// wire coefficients, its numbers, when it was prepared, what it is measured
/// against, and with which generation it is abandoned.
pub proof fn law_what_is_known_is_held<C>(
    entry: PendingJob,
    job: StreamJob<C>,
    exact_energy: Option<ExactEnergy>,
    num_reads: u32,
    num_sweeps: u32,
    target: SessionTarget,
    now_ms: u64,
)
    requires
        records(entry, job, exact_energy, num_reads, num_sweeps, Some(target), now_ms),
    ensures
        entry.job_id@ == job.job_id@,
        entry.exact_energy == exact_energy,
        entry.num_reads == num_reads,
        entry.num_sweeps == num_sweeps,
        entry.started_ms == now_ms,
        entry.watermark == job.watermark,
        entry.min_solutions == target.min_solutions,
        target.max_energy_milli < i64::MAX ==> entry.max_energy_milli == Some(
            target.max_energy_milli,
        ),
        target.max_energy_milli == i64::MAX ==> entry.max_energy_milli is None,
        entry.lease is None,
{
}

} // verus!

//! The job scheduler: greedy ascending first-fit packing of cost-weighted
//! jobs into capacity-bounded batches.
//!
//! Jobs are stable-sorted ascending by cost and each is placed into the
//! first batch it fits; a job that fits nowhere opens a new batch. A job
//! whose cost exceeds the capacity fails the whole schedule before any batch
//! is emitted. The packing is a heuristic, deliberately not optimal.

use vstd::prelude::*;
use vstd::seq_lib::lemma_multiset_commutative;

verus! {

/// One simulation job: its capacity cost and the command that launches it.
#[derive(Debug, PartialEq)]
pub struct Job {
    pub cost: usize,
    pub command: String,
}

/// One batch: the jobs that run concurrently, and their total cost.
#[derive(Debug, PartialEq)]
pub struct JobBatch {
    pub load: usize,
    pub jobs: Vec<Job>,
}

/// A job's cost exceeds the scheduler capacity: no batch is emitted.
#[derive(Clone, Copy, Debug, PartialEq, Eq, Structural)]
pub struct CapacityError {
    pub cost: usize,
    pub capacity: usize,
}

/// Inserts a job after every job of equal or smaller cost: the step of a
/// stable ascending sort.
pub open spec fn insert_sorted(j: Job, s: Seq<Job>) -> Seq<Job>
    decreases s.len(),
{
    if s.len() == 0 {
        seq![j]
    } else if s.last().cost > j.cost {
        insert_sorted(j, s.drop_last()).push(s.last())
    } else {
        s.push(j)
    }
}

/// The stable ascending sort of a job list: ties keep their original order.
pub open spec fn stable_sorted(s: Seq<Job>) -> Seq<Job>
    decreases s.len(),
{
    if s.len() == 0 {
        Seq::empty()
    } else {
        insert_sorted(s.last(), stable_sorted(s.drop_last()))
    }
}

/// Total cost of a batch.
pub open spec fn batch_load(b: Seq<Job>) -> int
    decreases b.len(),
{
    if b.len() == 0 {
        0
    } else {
        batch_load(b.drop_last()) + b.last().cost
    }
}

/// Places one job into the first batch with room, or opens a new batch at
/// the end.
pub open spec fn ff_insert(bs: Seq<Seq<Job>>, j: Job, cap: int) -> Seq<Seq<Job>>
    decreases bs.len(),
{
    if bs.len() == 0 {
        seq![seq![j]]
    } else if batch_load(bs.first()) + j.cost <= cap {
        bs.update(0, bs.first().push(j))
    } else {
        seq![bs.first()] + ff_insert(bs.drop_first(), j, cap)
    }
}

/// First-fit packing of a job list, in list order.
pub open spec fn ff_pack(jobs: Seq<Job>, cap: int) -> Seq<Seq<Job>>
    decreases jobs.len(),
{
    if jobs.len() == 0 {
        Seq::empty()
    } else {
        ff_insert(ff_pack(jobs.drop_last(), cap), jobs.last(), cap)
    }
}

/// The job lists of a batch list.
pub open spec fn batches_jobs(bs: Seq<JobBatch>) -> Seq<Seq<Job>> {
    bs.map_values(|b: JobBatch| b.jobs@)
}

/// Appending a job adds its cost to the load.
proof fn lemma_batch_load_push(b: Seq<Job>, j: Job)
    ensures
        batch_load(b.push(j)) == batch_load(b) + j.cost,
{
    assert(b.push(j).drop_last() =~= b);
    assert(b.push(j).last() == j);
}

/// Loads are never negative.
proof fn lemma_batch_load_nonneg(b: Seq<Job>)
    ensures
        batch_load(b) >= 0,
    decreases b.len(),
{
    if b.len() > 0 {
        lemma_batch_load_nonneg(b.drop_last());
    }
}

/// Inserting into the sorted list adds exactly that job.
proof fn lemma_insert_sorted_multiset(j: Job, s: Seq<Job>)
    ensures
        insert_sorted(j, s).to_multiset() =~= s.to_multiset().insert(j),
        insert_sorted(j, s).len() == s.len() + 1,
    decreases s.len(),
{
    broadcast use vstd::seq_lib::group_to_multiset_ensures;

    if s.len() == 0 {
        assert(seq![j] =~= Seq::empty().push(j));
    } else if s.last().cost > j.cost {
        lemma_insert_sorted_multiset(j, s.drop_last());
        assert(s =~= s.drop_last().push(s.last()));
    } else {
        assert(s.push(j).to_multiset() =~= s.to_multiset().insert(j));
    }
}

/// Sorting keeps exactly the same jobs.
pub proof fn lemma_stable_sorted_multiset(s: Seq<Job>)
    ensures
        stable_sorted(s).to_multiset() =~= s.to_multiset(),
        stable_sorted(s).len() == s.len(),
    decreases s.len(),
{
    broadcast use vstd::seq_lib::group_to_multiset_ensures;

    if s.len() > 0 {
        lemma_stable_sorted_multiset(s.drop_last());
        lemma_insert_sorted_multiset(s.last(), stable_sorted(s.drop_last()));
        assert(s =~= s.drop_last().push(s.last()));
    }
}

/// Every job of the sorted list is a job of the original list.
pub proof fn lemma_stable_sorted_contains(s: Seq<Job>, i: int)
    requires
        0 <= i < stable_sorted(s).len(),
    ensures
        s.contains(stable_sorted(s)[i]),
{
    broadcast use vstd::seq_lib::group_to_multiset_ensures;

    lemma_stable_sorted_multiset(s);
    assert(stable_sorted(s).contains(stable_sorted(s)[i]));
    assert(stable_sorted(s).to_multiset().count(stable_sorted(s)[i]) > 0);
}

/// First-fit placement adds exactly the placed job to the packing.
proof fn lemma_ff_insert_flat_multiset(bs: Seq<Seq<Job>>, j: Job, cap: int)
    ensures
        ff_insert(bs, j, cap).flatten().to_multiset() =~= bs.flatten().to_multiset().insert(
            j,
        ),
    decreases bs.len(),
{
    broadcast use vstd::seq_lib::group_to_multiset_ensures;

    if bs.len() == 0 {
        let r = ff_insert(bs, j, cap);
        assert(r =~= seq![seq![j]]);
        assert(r.drop_first() =~= Seq::<Seq<Job>>::empty());
        assert(r.flatten() == r.first() + r.drop_first().flatten());
        assert(r.drop_first().flatten() =~= Seq::<Job>::empty());
        assert(r.first() + Seq::<Job>::empty() =~= seq![j]);
        assert(bs.flatten() =~= Seq::<Job>::empty());
        assert(seq![j] =~= Seq::empty().push(j));
    } else if batch_load(bs.first()) + j.cost <= cap {
        let r = bs.update(0, bs.first().push(j));
        assert(r.first() == bs.first().push(j));
        assert(r.drop_first() =~= bs.drop_first());
        assert(r.flatten() == r.first() + r.drop_first().flatten());
        lemma_multiset_commutative(r.first(), r.drop_first().flatten());
        lemma_multiset_commutative(bs.first(), bs.drop_first().flatten());
        assert(r.first().to_multiset() =~= bs.first().to_multiset().insert(j));
        assert(r.flatten().to_multiset() =~= bs.flatten().to_multiset().insert(j));
    } else {
        lemma_ff_insert_flat_multiset(bs.drop_first(), j, cap);
        let r = seq![bs.first()] + ff_insert(bs.drop_first(), j, cap);
        assert(r.first() == bs.first());
        assert(r.drop_first() =~= ff_insert(bs.drop_first(), j, cap));
        assert(r.flatten() == r.first() + r.drop_first().flatten());
        lemma_multiset_commutative(r.first(), r.drop_first().flatten());
        lemma_multiset_commutative(bs.first(), bs.drop_first().flatten());
        assert(r.flatten().to_multiset() =~= bs.flatten().to_multiset().insert(j));
    }
}

/// The packing holds exactly the packed jobs.
proof fn lemma_ff_pack_flat_multiset(jobs: Seq<Job>, cap: int)
    ensures
        ff_pack(jobs, cap).flatten().to_multiset() =~= jobs.to_multiset(),
    decreases jobs.len(),
{
    broadcast use vstd::seq_lib::group_to_multiset_ensures;

    if jobs.len() == 0 {
        assert(ff_pack(jobs, cap).flatten() =~= Seq::<Job>::empty());
    } else {
        lemma_ff_pack_flat_multiset(jobs.drop_last(), cap);
        lemma_ff_insert_flat_multiset(ff_pack(jobs.drop_last(), cap), jobs.last(), cap);
        assert(jobs =~= jobs.drop_last().push(jobs.last()));
    }
}

/// Placement keeps every batch within capacity, for a job within capacity.
proof fn lemma_ff_insert_loads(bs: Seq<Seq<Job>>, j: Job, cap: int)
    requires
        forall|b: int| 0 <= b < bs.len() ==> batch_load(#[trigger] bs[b]) <= cap,
        j.cost <= cap,
    ensures
        forall|b: int|
            0 <= b < ff_insert(bs, j, cap).len() ==> batch_load(
                #[trigger] ff_insert(bs, j, cap)[b],
            ) <= cap,
    decreases bs.len(),
{
    if bs.len() == 0 {
        let r = ff_insert(bs, j, cap);
        assert(r[0] =~= Seq::<Job>::empty().push(j));
        lemma_batch_load_push(Seq::empty(), j);
    } else if batch_load(bs.first()) + j.cost <= cap {
        lemma_batch_load_push(bs.first(), j);
    } else {
        lemma_ff_insert_loads(bs.drop_first(), j, cap);
        let r = seq![bs.first()] + ff_insert(bs.drop_first(), j, cap);
        assert(forall|b: int|
            1 <= b < r.len() ==> #[trigger] r[b] == ff_insert(bs.drop_first(), j, cap)[b
                - 1]);
        assert(r[0] == bs.first());
    }
}

/// Packing jobs within capacity keeps every batch within capacity.
proof fn lemma_ff_pack_loads(jobs: Seq<Job>, cap: int)
    requires
        forall|i: int| 0 <= i < jobs.len() ==> (#[trigger] jobs[i]).cost <= cap,
    ensures
        forall|b: int|
            0 <= b < ff_pack(jobs, cap).len() ==> batch_load(#[trigger] ff_pack(jobs, cap)[b])
                <= cap,
    decreases jobs.len(),
{
    if jobs.len() > 0 {
        assert(forall|i: int|
            0 <= i < jobs.len() - 1 ==> jobs.drop_last()[i] == #[trigger] jobs[i]);
        lemma_ff_pack_loads(jobs.drop_last(), cap);
        lemma_ff_insert_loads(ff_pack(jobs.drop_last(), cap), jobs.last(), cap);
    }
}

/// For any job list whose costs all fit the capacity, scheduling packs every
/// job into exactly one batch — the packed jobs are exactly the given jobs —
/// and no batch's total cost exceeds the capacity.
pub proof fn lemma_schedule_complete(jobs: Seq<Job>, cap: int)
    requires
        forall|i: int| 0 <= i < jobs.len() ==> (#[trigger] jobs[i]).cost <= cap,
    ensures
        ff_pack(stable_sorted(jobs), cap).flatten().to_multiset() == jobs.to_multiset(),
        forall|b: int|
            0 <= b < ff_pack(stable_sorted(jobs), cap).len() ==> batch_load(
                #[trigger] ff_pack(stable_sorted(jobs), cap)[b],
            ) <= cap,
{
    lemma_stable_sorted_multiset(jobs);
    lemma_ff_pack_flat_multiset(stable_sorted(jobs), cap);
    assert forall|i: int|
        0 <= i < stable_sorted(jobs).len() implies (#[trigger] stable_sorted(jobs)[i]).cost
        <= cap by {
        lemma_stable_sorted_contains(jobs, i);
        let t = choose|t: int|
            0 <= t < jobs.len() && jobs[t] == stable_sorted(jobs)[i];
        assert(jobs[t].cost <= cap);
    }
    lemma_ff_pack_loads(stable_sorted(jobs), cap);
    assert(ff_pack(stable_sorted(jobs), cap).flatten().to_multiset() =~= jobs.to_multiset());
}

/// Where the sorted insertion lands: past every smaller-or-equal cost.
proof fn lemma_insert_sorted_at(s: Seq<Job>, j: Job, p: int)
    requires
        0 <= p <= s.len(),
        forall|t: int| p <= t < s.len() ==> (#[trigger] s[t]).cost > j.cost,
        p > 0 ==> s[p - 1].cost <= j.cost,
    ensures
        insert_sorted(j, s) == s.insert(p, j),
    decreases s.len() - p,
{
    if p == s.len() {
        if s.len() == 0 {
            assert(insert_sorted(j, s) =~= s.insert(p, j));
        } else {
            assert(s.push(j) =~= s.insert(p, j));
        }
    } else {
        assert(s.last().cost > j.cost);
        assert(forall|t: int|
            0 <= t < s.len() - 1 ==> s.drop_last()[t] == #[trigger] s[t]);
        lemma_insert_sorted_at(s.drop_last(), j, p);
        assert(insert_sorted(j, s) == insert_sorted(j, s.drop_last()).push(s.last()));
        assert(s.drop_last().insert(p, j).push(s.last()) =~= s.insert(p, j));
    }
}

/// Stable ascending sort by cost, by insertion.
fn sort_jobs(jobs: Vec<Job>) -> (r: Vec<Job>)
    ensures
        r@ == stable_sorted(jobs@),
{
    let ghost all = jobs@;
    let mut src = jobs;
    let mut out: Vec<Job> = Vec::new();
    let ghost mut k: int = 0;
    while src.len() > 0
        invariant
            0 <= k <= all.len(),
            src@ == all.skip(k),
            out@ == stable_sorted(all.take(k)),
        decreases src@.len(),
    {
        let j = src.remove(0);
        proof {
            assert(all.skip(k).remove(0) =~= all.skip(k + 1));
            assert(j == all[k]);
        }
        let cost = j.cost;
        let n_out = out.len();
        let mut p: usize = n_out;
        while p > 0 && out[p - 1].cost > cost
            invariant
                0 <= p <= n_out,
                n_out == out@.len(),
                forall|t: int| p <= t < n_out ==> (#[trigger] out@[t]).cost > cost,
            decreases p,
        {
            p -= 1;
        }
        proof {
            lemma_insert_sorted_at(out@, j, p as int);
            assert(all.take(k + 1).drop_last() =~= all.take(k));
            assert(all.take(k + 1).last() == all[k]);
        }
        out.insert(p, j);
        proof {
            k = k + 1;
        }
    }
    proof {
        assert(all.take(all.len() as int) =~= all);
    }
    out
}

/// Where first-fit placement lands: the first batch with room.
proof fn lemma_ff_insert_at(bs: Seq<Seq<Job>>, j: Job, cap: int, f: int)
    requires
        0 <= f <= bs.len(),
        forall|t: int| 0 <= t < f ==> batch_load(#[trigger] bs[t]) + j.cost > cap,
    ensures
        f < bs.len() && batch_load(bs[f]) + j.cost <= cap ==> ff_insert(bs, j, cap)
            == bs.update(f, bs[f].push(j)),
        f == bs.len() ==> ff_insert(bs, j, cap) == bs.push(seq![j]),
    decreases bs.len(),
{
    if bs.len() == 0 {
        assert(ff_insert(bs, j, cap) =~= bs.push(seq![j]));
    } else if f == 0 {
        if batch_load(bs[0]) + j.cost <= cap {
        }
    } else {
        assert(batch_load(bs.first()) + j.cost > cap);
        assert(forall|t: int|
            0 <= t < bs.len() - 1 ==> bs.drop_first()[t] == #[trigger] bs[t + 1]);
        lemma_ff_insert_at(bs.drop_first(), j, cap, f - 1);
        if f < bs.len() && batch_load(bs[f]) + j.cost <= cap {
            assert(ff_insert(bs, j, cap) == seq![bs.first()] + ff_insert(
                bs.drop_first(),
                j,
                cap,
            ));
            assert(seq![bs.first()] + bs.drop_first().update(f - 1, bs[f].push(j))
                =~= bs.update(f, bs[f].push(j)));
        } else if f == bs.len() {
            assert(seq![bs.first()] + bs.drop_first().push(seq![j]) =~= bs.push(seq![j]));
        }
    }
}

/// Packs the jobs into capacity-bounded batches: ascending stable sort by
/// cost, then first fit in batch-creation order. Fails before emitting any
/// batch if some job's cost exceeds the capacity; otherwise the batches are
/// exactly the first-fit packing of the sorted jobs, each with its total
/// cost as load, and no load exceeds the capacity.
pub fn schedule_jobs(jobs: Vec<Job>, capacity: usize) -> (r: Result<
    Vec<JobBatch>,
    CapacityError,
>)
    ensures
        match r {
            Ok(bs) => {
                &&& forall|i: int|
                    0 <= i < jobs@.len() ==> (#[trigger] jobs@[i]).cost <= capacity
                &&& batches_jobs(bs@) == ff_pack(stable_sorted(jobs@), capacity as int)
                &&& forall|b: int|
                    0 <= b < bs@.len() ==> (#[trigger] bs@[b]).load == batch_load(bs@[b].jobs@)
                        && bs@[b].load <= capacity
            },
            Err(e) => {
                &&& e.capacity == capacity
                &&& e.cost > capacity
                &&& exists|i: int|
                    0 <= i < jobs@.len() && (#[trigger] jobs@[i]).cost == e.cost
            },
        },
{
    let n = jobs.len();
    let mut chk: usize = 0;
    while chk < n
        invariant
            n == jobs@.len(),
            forall|i: int| 0 <= i < chk ==> (#[trigger] jobs@[i]).cost <= capacity,
        decreases n - chk,
    {
        if jobs[chk].cost > capacity {
            return Err(CapacityError { cost: jobs[chk].cost, capacity });
        }
        chk += 1;
    }
    let ghost jobs0 = jobs@;
    let sorted = sort_jobs(jobs);
    proof {
        assert forall|i: int|
            0 <= i < sorted@.len() implies (#[trigger] sorted@[i]).cost <= capacity by {
            lemma_stable_sorted_contains(jobs0, i);
            let t = choose|t: int| 0 <= t < jobs0.len() && jobs0[t] == sorted@[i];
        }
    }
    let ghost sorted0 = sorted@;
    let mut src = sorted;
    let mut batches: Vec<JobBatch> = Vec::new();
    let ghost mut k: int = 0;
    while src.len() > 0
        invariant
            0 <= k <= sorted0.len(),
            src@ == sorted0.skip(k),
            forall|i: int| 0 <= i < sorted0.len() ==> (#[trigger] sorted0[i]).cost <= capacity,
            batches_jobs(batches@) == ff_pack(sorted0.take(k), capacity as int),
            forall|b: int|
                0 <= b < batches@.len() ==> (#[trigger] batches@[b]).load == batch_load(
                    batches@[b].jobs@,
                ) && batches@[b].load <= capacity,
        decreases src@.len(),
    {
        let j = src.remove(0);
        proof {
            assert(sorted0.skip(k).remove(0) =~= sorted0.skip(k + 1));
            assert(j == sorted0[k]);
            assert(sorted0.take(k + 1).drop_last() =~= sorted0.take(k));
            assert(sorted0.take(k + 1).last() == sorted0[k]);
        }
        let nb = batches.len();
        let mut f: usize = 0;
        while f < nb && j.cost > capacity - batches[f].load
            invariant
                0 <= f <= nb,
                nb == batches@.len(),
                forall|b: int|
                    0 <= b < batches@.len() ==> (#[trigger] batches@[b]).load == batch_load(
                        batches@[b].jobs@,
                    ) && batches@[b].load <= capacity,
                forall|t: int|
                    0 <= t < f ==> batch_load((#[trigger] batches@[t]).jobs@) + j.cost
                        > capacity,
            decreases nb - f,
        {
            f += 1;
        }
        proof {
            assert(forall|t: int|
                0 <= t < f ==> batch_load(#[trigger] batches_jobs(batches@)[t]) + j.cost
                    > capacity);
            lemma_ff_insert_at(batches_jobs(batches@), j, capacity as int, f as int);
        }
        if f < nb {
            let ghost bs_pre = batches@;
            let ld = batches[f].load;
            proof {
                lemma_batch_load_push(batches@[f as int].jobs@, j);
            }
            batches[f].load = ld + j.cost;
            batches[f].jobs.push(j);
            proof {
                assert(batches@ =~= bs_pre.update(
                    f as int,
                    (JobBatch {
                        load: (ld + j.cost) as usize,
                        jobs: batches@[f as int].jobs,
                    }),
                ));
                assert(batches_jobs(batches@) =~= ff_pack(sorted0.take(k + 1), capacity as int));
            }
        } else {
            proof {
                lemma_batch_load_push(Seq::empty(), j);
            }
            batches.push(JobBatch { load: j.cost, jobs: vec![j] });
            proof {
                assert(batches@.last().jobs@ =~= seq![sorted0[k]]);
                assert(batches_jobs(batches@) =~= ff_pack(sorted0.take(k + 1), capacity as int));
            }
        }
        proof {
            k = k + 1;
        }
    }
    proof {
        assert(sorted0.take(sorted0.len() as int) =~= sorted0);
    }
    Ok(batches)
}

/// File name of the `idx`-th batch script.
pub fn script_file_name(idx: usize) -> (r: String)
    ensures
        r@ == "run_"@ + crate::text::dec_digits(idx as int) + ".sh"@,
{
    let mut out = ("run_").to_owned();
    let num = crate::text::decimal_string(idx);
    out.append(num.as_str());
    out.append(".sh");
    out
}

/// The lines of one batch script: a shebang, the environment-setup line, a
/// change into the working directory, one background-launch line per job of
/// the batch, and a trailing wait that joins them.
pub fn batch_script_lines(setup_path: &str, workdir: &str, batch: &JobBatch) -> (r: Vec<
    String,
>)
    ensures
        r@.len() == batch.jobs@.len() + 4,
        r@[0]@ == "#!/bin/bash"@,
        r@[1]@ == "source "@ + setup_path@,
        r@[2]@ == "cd "@ + workdir@,
        forall|t: int|
            0 <= t < batch.jobs@.len() ==> (#[trigger] r@[3 + t])@ == batch.jobs@[t].command@
                + "&"@,
        r@[r@.len() - 1]@ == "wait"@,
{
    let mut lines: Vec<String> = Vec::new();
    lines.push(("#!/bin/bash").to_owned());
    let mut setup = ("source ").to_owned();
    setup.append(setup_path);
    lines.push(setup);
    let mut cd = ("cd ").to_owned();
    cd.append(workdir);
    lines.push(cd);
    let n = batch.jobs.len();
    for t in 0..n
        invariant
            n == batch.jobs@.len(),
            lines@.len() == t + 3,
            lines@[0]@ == "#!/bin/bash"@,
            lines@[1]@ == "source "@ + setup_path@,
            lines@[2]@ == "cd "@ + workdir@,
            forall|u: int|
                0 <= u < t ==> (#[trigger] lines@[3 + u])@ == batch.jobs@[u].command@ + "&"@,
    {
        let mut launch = batch.jobs[t].command.clone();
        launch.append("&");
        lines.push(launch);
    }
    lines.push(("wait").to_owned());
    lines
}

} // verus!

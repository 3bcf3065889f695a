//! Background jobs: their numbers, their list and the reports of those that are done.
use crate::numbers::{decimal, decimal_of, pad_right, padded_right};
use vstd::prelude::*;
use vstd::string::*;

verus! {

/// A command that runs in the background.
pub struct Job {
    /// The number by which the user knows it.
    pub number: u32,
    /// The command as it was given.
    pub command: String,
    /// What it is doing.
    pub status: String,
}

/// The content of a `Job`.
pub struct JobView {
    /// The number by which the user knows it.
    pub number: int,
    /// The command as it was given.
    pub command: Seq<char>,
    /// What it is doing.
    pub status: Seq<char>,
}

impl View for Job {
    type V = JobView;

    open spec fn view(&self) -> JobView {
        JobView { number: self.number as int, command: self.command@, status: self.status@ }
    }
}

/// The jobs of a list, by their content.
pub open spec fn job_views(v: Seq<Job>) -> Seq<JobView> {
    v.map_values(|j: Job| j@)
}

/// Some job has the number `n`.
pub open spec fn is_used(jobs: Seq<JobView>, n: int) -> bool {
    exists|i: int| 0 <= i < jobs.len() && (#[trigger] jobs[i]).number == n
}

/// `n` is the least positive number that no job has.
pub open spec fn is_next_number(jobs: Seq<JobView>, n: int) -> bool {
    &&& n >= 1
    &&& !is_used(jobs, n)
    &&& forall|m: int| 1 <= m < n ==> #[trigger] is_used(jobs, m)
}

/// The jobs stand in the order of their numbers, which are positive and differ.
pub open spec fn in_order(jobs: Seq<JobView>) -> bool {
    &&& forall|i: int| 0 <= i < jobs.len() ==> (#[trigger] jobs[i]).number >= 1
    &&& forall|i: int, j: int|
        0 <= i < j < jobs.len() ==> (#[trigger] jobs[i]).number < (#[trigger] jobs[j]).number
}

/// How many jobs at the front of the list have a number of at most `n`.
pub open spec fn slot(jobs: Seq<JobView>, n: int) -> int
    decreases jobs.len(),
{
    if jobs.len() == 0 || jobs[0].number > n {
        0
    } else {
        1 + slot(jobs.skip(1), n)
    }
}

/// The mark of the job at `i` in a list of `n`: `+` for the last, `-` for the one before it,
/// a blank for the others.
pub open spec fn marker(i: int, n: int) -> Seq<char> {
    if i + 1 == n {
        "+"@
    } else if i + 2 == n {
        "-"@
    } else {
        " "@
    }
}

/// How wide the status is in a report.
pub const STATUS_WIDTH: usize = 24;

/// The line about the job at `i`: its number, its mark, its status and its command, and a
/// `&` at the end where it is still running.
pub open spec fn report_line(jobs: Seq<JobView>, done: Seq<bool>, i: int) -> Seq<char> {
    let head = "["@ + decimal(jobs[i].number as nat) + "]"@ + marker(i, jobs.len() as int) + "  "@;
    if done[i] {
        head + padded_right("Done"@, STATUS_WIDTH as int) + jobs[i].command + "\n"@
    } else {
        head + padded_right(jobs[i].status, STATUS_WIDTH as int) + jobs[i].command + " &\n"@
    }
}

/// The lines about the first `k` jobs; where `all` does not hold, about those alone that
/// are done.
pub open spec fn report(jobs: Seq<JobView>, done: Seq<bool>, all: bool, k: int) -> Seq<char>
    decreases k,
{
    if k <= 0 {
        seq![]
    } else if all || done[k - 1] {
        report(jobs, done, all, k - 1) + report_line(jobs, done, k - 1)
    } else {
        report(jobs, done, all, k - 1)
    }
}

/// Of the first `k` jobs those that are not done, in their order.
pub open spec fn running(jobs: Seq<JobView>, done: Seq<bool>, k: int) -> Seq<JobView>
    decreases k,
{
    if k <= 0 {
        seq![]
    } else if done[k - 1] {
        running(jobs, done, k - 1)
    } else {
        running(jobs, done, k - 1).push(jobs[k - 1])
    }
}

/// The mark of the job at `i` in a list of `n`.
pub fn job_marker(i: usize, n: usize) -> (r: &'static str)
    requires
        i + 1 == n || i + 2 <= usize::MAX,
    ensures
        r@ == marker(i as int, n as int),
{
    if i + 1 == n {
        "+"
    } else if i + 2 == n {
        "-"
    } else {
        " "
    }
}

/// As long as every number below `n` is used there are at least `n - 1` jobs.
proof fn lemma_used_numbers(jobs: Seq<JobView>, n: int)
    requires
        n >= 1,
        forall|m: int| 1 <= m < n ==> #[trigger] is_used(jobs, m),
    ensures
        n - 1 <= jobs.len(),
{
    let numbers = jobs.map_values(|j: JobView| j.number);
    let below = vstd::set_lib::set_int_range(1, n);
    vstd::set_lib::lemma_int_range(1, n);
    assert forall|m: int| below.contains(m) implies #[trigger] numbers.to_set().contains(m) by {
        assert(is_used(jobs, m));
        let i = choose|i: int| 0 <= i < jobs.len() && (#[trigger] jobs[i]).number == m;
        assert(numbers[i] == m);
    }
    assert(below.subset_of(numbers.to_set()));
    vstd::seq_lib::seq_to_set_is_finite(numbers);
    vstd::set_lib::lemma_len_subset(below, numbers.to_set());
    numbers.lemma_cardinality_of_set();
}

/// The least positive number that no job has.
pub fn next_job_number(jobs: &Vec<Job>) -> (n: u32)
    requires
        jobs@.len() < u32::MAX,
    ensures
        is_next_number(job_views(jobs@), n as int),
{
    let ghost views = job_views(jobs@);
    let mut n: u32 = 1;
    while number_in_use(jobs, n)
        invariant
            views == job_views(jobs@),
            jobs@.len() < u32::MAX,
            1 <= n,
            forall|m: int| 1 <= m < n ==> #[trigger] is_used(views, m),
        decreases u32::MAX - n,
    {
        proof {
            lemma_used_numbers(views, n + 1);
        }
        n = n + 1;
    }
    n
}

/// Whether some job has the number `n`.
fn number_in_use(jobs: &Vec<Job>, n: u32) -> (r: bool)
    ensures
        r == is_used(job_views(jobs@), n as int),
{
    let ghost views = job_views(jobs@);
    let mut i: usize = 0;
    while i < jobs.len()
        invariant
            i <= jobs@.len(),
            views == job_views(jobs@),
            forall|j: int| 0 <= j < i ==> (#[trigger] views[j]).number != n,
        decreases jobs@.len() - i,
    {
        if jobs[i].number == n {
            assert(views[i as int].number == n);
            return true;
        }
        assert(views[i as int].number != n);
        i = i + 1;
    }
    false
}

/// The jobs in the background, in the order of their numbers.
pub struct Jobs {
    jobs: Vec<Job>,
}

impl View for Jobs {
    type V = Seq<JobView>;

    closed spec fn view(&self) -> Seq<JobView> {
        job_views(self.jobs@)
    }
}

/// A job that has just been started.
pub open spec fn started(number: int, command: Seq<char>) -> JobView {
    JobView { number, command, status: "Running"@ }
}

impl Jobs {
    /// What every operation keeps: the jobs stand in the order of their numbers, which are
    /// positive and differ.
    pub open spec fn wf(&self) -> bool {
        in_order(self@)
    }

    /// No jobs.
    pub fn new() -> (r: Jobs)
        ensures
            r.wf(),
            r@ == Seq::<JobView>::empty(),
    {
        let r = Jobs { jobs: Vec::new() };
        assert(r@ =~= Seq::<JobView>::empty());
        r
    }

    /// The numbers of the jobs, in order.
    pub fn numbers(&self) -> (r: Vec<u32>)
        ensures
            r@.len() == self@.len(),
            forall|i: int| 0 <= i < r@.len() ==> r@[i] == (#[trigger] self@[i]).number,
    {
        let mut r: Vec<u32> = Vec::new();
        let mut i: usize = 0;
        while i < self.jobs.len()
            invariant
                i <= self.jobs@.len(),
                r@.len() == i,
                forall|j: int| 0 <= j < i ==> r@[j] == (#[trigger] self@[j]).number,
            decreases self.jobs@.len() - i,
        {
            r.push(self.jobs[i].number);
            i = i + 1;
        }
        r
    }

    /// Takes up a job that was just started: it gets the least number that is free, and
    /// stands where that number belongs.
    pub fn start(&mut self, command: String) -> (n: u32)
        requires
            old(self).wf(),
            old(self)@.len() < u32::MAX,
        ensures
            final(self).wf(),
            is_next_number(old(self)@, n as int),
            final(self)@ == old(self)@.insert(
                slot(old(self)@, n as int),
                started(n as int, command@),
            ),
    {
        let n = next_job_number(&self.jobs);
        let ghost before = self@;
        let mut i: usize = 0;
        while i < self.jobs.len() && self.jobs[i].number <= n
            invariant
                i <= self.jobs@.len(),
                before == self@,
                forall|j: int| 0 <= j < i ==> (#[trigger] before[j]).number <= n,
            decreases self.jobs@.len() - i,
        {
            assert(before[i as int].number == self.jobs@[i as int].number);
            i = i + 1;
        }
        proof {
            if i < before.len() {
                assert(before[i as int].number == self.jobs@[i as int].number);
            }
            lemma_slot(before, n as int, i as int);
        }
        let job = Job { number: n, command, status: "Running".to_owned() };
        let ghost new_view = job@;
        self.jobs.insert(i, job);
        assert(self@ =~= before.insert(i as int, new_view));
        proof {
            assert forall|j: int| 0 <= j < before.len() implies (#[trigger] before[j]).number
                != n by {
                if before[j].number == n {
                    assert(is_used(before, n as int));
                }
            }
            lemma_insert_in_order(before, i as int, new_view);
        }
        n
    }

    /// Keeps the jobs that are not done.
    fn keep_running(&mut self, done: &Vec<bool>)
        requires
            old(self).wf(),
            done@.len() == old(self)@.len(),
        ensures
            final(self).wf(),
            final(self)@ == running(old(self)@, done@, old(self)@.len() as int),
    {
        let ghost before = self@;
        let mut kept: Vec<Job> = Vec::new();
        let mut i: usize = 0;
        assert(job_views(kept@) =~= running(before, done@, 0));
        while i < self.jobs.len()
            invariant
                i <= self.jobs@.len(),
                before == self@,
                done@.len() == before.len(),
                job_views(kept@) == running(before, done@, i as int),
            decreases self.jobs@.len() - i,
        {
            let ghost so_far = job_views(kept@);
            if !done[i] {
                let job = Job {
                    number: self.jobs[i].number,
                    command: self.jobs[i].command.clone(),
                    status: self.jobs[i].status.clone(),
                };
                assert(job@ == before[i as int]);
                kept.push(job);
                assert(job_views(kept@) =~= so_far.push(before[i as int]));
            }
            i = i + 1;
        }
        self.jobs = kept;
        proof {
            lemma_running(before, done@, before.len() as int);
        }
    }

    /// The lines about the jobs, or about those alone that are done.
    fn describe(&self, done: &Vec<bool>, all: bool) -> (r: String)
        requires
            self.wf(),
            done@.len() == self@.len(),
        ensures
            r@ == report(self@, done@, all, self@.len() as int),
    {
        let n: usize = self.jobs.len();
        let ghost views = self@;
        let mut r = String::new();
        let mut i: usize = 0;
        while i < n
            invariant
                i <= n,
                n == self.jobs@.len(),
                views == self@,
                views.len() == n,
                done@.len() == n,
                in_order(views),
                r@ == report(views, done@, all, i as int),
            decreases n - i,
        {
            let ghost so_far = r@;
            if all || done[i] {
                assert(views[i as int] == self.jobs@[i as int]@);
                r.append("[");
                r.append(decimal_of(self.jobs[i].number as u64).as_str());
                r.append("]");
                r.append(job_marker(i, n));
                r.append("  ");
                if done[i] {
                    r.append(pad_right("Done", STATUS_WIDTH).as_str());
                    r.append(self.jobs[i].command.as_str());
                    r.append("\n");
                } else {
                    r.append(pad_right(self.jobs[i].status.as_str(), STATUS_WIDTH).as_str());
                    r.append(self.jobs[i].command.as_str());
                    r.append(" &\n");
                }
                assert(r@ =~= so_far + report_line(views, done@, i as int));
            }
            i = i + 1;
        }
        r
    }

    /// Takes out the jobs that are done, and tells of each. `done` says of each job, in
    /// order, whether it is.
    pub fn reap(&mut self, done: &Vec<bool>) -> (r: String)
        requires
            old(self).wf(),
            done@.len() == old(self)@.len(),
        ensures
            final(self).wf(),
            r@ == report(old(self)@, done@, false, old(self)@.len() as int),
            final(self)@ == running(old(self)@, done@, old(self)@.len() as int),
    {
        let r = self.describe(done, false);
        self.keep_running(done);
        r
    }

    /// Tells of all jobs, and takes out those that are done. `done` says of each job, in
    /// order, whether it is.
    pub fn list(&mut self, done: &Vec<bool>) -> (r: String)
        requires
            old(self).wf(),
            done@.len() == old(self)@.len(),
        ensures
            final(self).wf(),
            r@ == report(old(self)@, done@, true, old(self)@.len() as int),
            final(self)@ == running(old(self)@, done@, old(self)@.len() as int),
    {
        let r = self.describe(done, true);
        self.keep_running(done);
        r
    }
}

/// `slot` is the only index below which every number is at most `n`, and from which the
/// numbers exceed it.
proof fn lemma_slot(jobs: Seq<JobView>, n: int, k: int)
    requires
        0 <= k <= jobs.len(),
        forall|i: int| 0 <= i < k ==> (#[trigger] jobs[i]).number <= n,
        k < jobs.len() ==> jobs[k].number > n,
    ensures
        slot(jobs, n) == k,
    decreases jobs.len(),
{
    if k > 0 {
        let rest = jobs.skip(1);
        assert(jobs[0].number <= n);
        assert forall|i: int| 0 <= i < k - 1 implies (#[trigger] rest[i]).number <= n by {
            assert(rest[i] == jobs[i + 1]);
        }
        lemma_slot(rest, n, k - 1);
    }
}

proof fn lemma_insert_in_order(jobs: Seq<JobView>, k: int, job: JobView)
    requires
        in_order(jobs),
        0 <= k <= jobs.len(),
        job.number >= 1,
        forall|i: int| 0 <= i < k ==> (#[trigger] jobs[i]).number < job.number,
        k < jobs.len() ==> jobs[k].number > job.number,
    ensures
        in_order(jobs.insert(k, job)),
{
    let s = jobs.insert(k, job);
    assert forall|i: int| 0 <= i < s.len() implies (#[trigger] s[i]).number >= 1 by {
        if i < k {
            assert(s[i] == jobs[i]);
        } else if i > k {
            assert(s[i] == jobs[i - 1]);
        }
    }
    assert forall|i: int, j: int| 0 <= i < j < s.len() implies (#[trigger] s[i]).number < (
    #[trigger] s[j]).number by {
        if j < k {
            assert(s[i] == jobs[i] && s[j] == jobs[j]);
        } else if j == k {
            assert(s[i] == jobs[i]);
        } else if i < k {
            assert(s[i] == jobs[i] && s[j] == jobs[j - 1]);
        } else if i == k {
            assert(s[j] == jobs[j - 1]);
            assert(jobs[k].number <= jobs[j - 1].number);
        } else {
            assert(s[i] == jobs[i - 1] && s[j] == jobs[j - 1]);
        }
    }
}

/// The jobs that are kept stand in order, and each of them is one of the first `k` that is
/// not done.
proof fn lemma_running(jobs: Seq<JobView>, done: Seq<bool>, k: int)
    requires
        in_order(jobs),
        0 <= k <= jobs.len() == done.len(),
    ensures
        in_order(running(jobs, done, k)),
        forall|i: int|
            0 <= i < running(jobs, done, k).len() ==> kept(jobs, done, k, #[trigger] running(
                jobs,
                done,
                k,
            )[i]),
        forall|i: int|
            0 <= i < k && !done[i] ==> running(jobs, done, k).contains(#[trigger] jobs[i]),
    decreases k,
{
    if k > 0 {
        lemma_running(jobs, done, k - 1);
        let before = running(jobs, done, k - 1);
        let after = running(jobs, done, k);
        assert forall|i: int| 0 <= i < after.len() implies kept(
            jobs,
            done,
            k,
            #[trigger] after[i],
        ) by {
            if i < before.len() {
                assert(kept(jobs, done, k - 1, before[i]));
            } else {
                assert(jobs[k - 1] == after[i]);
            }
        }
        assert forall|i: int| 0 <= i < k && !done[i] implies after.contains(
            #[trigger] jobs[i],
        ) by {
            if i < k - 1 {
                assert(before.contains(jobs[i]));
                let j = choose|j: int| 0 <= j < before.len() && before[j] == jobs[i];
                assert(after[j] == jobs[i]);
            } else {
                assert(after[after.len() - 1] == jobs[i]);
            }
        }
        if !done[k - 1] {
            assert forall|i: int| 0 <= i < before.len() implies (#[trigger] before[i]).number
                < jobs[k - 1].number by {
                assert(kept(jobs, done, k - 1, before[i]));
            }
        }
    }
}

/// `job` is one of the first `k` jobs and is not done.
pub open spec fn kept(jobs: Seq<JobView>, done: Seq<bool>, k: int, job: JobView) -> bool {
    exists|j: int| 0 <= j < k && !done[j] && #[trigger] jobs[j] == job
}

/// A job leaves the list exactly when it is done: one that is done is gone from it, so that
/// it is never told of again, and one that is not done stays as it is. The list stays in
/// order.
pub proof fn law_done_jobs_leave(jobs: Seq<JobView>, done: Seq<bool>)
    requires
        in_order(jobs),
        done.len() == jobs.len(),
    ensures
        in_order(running(jobs, done, jobs.len() as int)),
        forall|i: int|
            0 <= i < jobs.len() ==> (running(jobs, done, jobs.len() as int).contains(
                #[trigger] jobs[i],
            ) <==> !done[i]),
        forall|i: int|
            0 <= i < jobs.len() && done[i] ==> !is_used(
                running(jobs, done, jobs.len() as int),
                (#[trigger] jobs[i]).number,
            ),
{
    let n = jobs.len() as int;
    let left = running(jobs, done, n);
    lemma_running(jobs, done, n);
    assert forall|i: int| 0 <= i < n && done[i] implies !is_used(
        left,
        (#[trigger] jobs[i]).number,
    ) by {
        if is_used(left, jobs[i].number) {
            let k = choose|k: int|
                0 <= k < left.len() && (#[trigger] left[k]).number == jobs[i].number;
            assert(kept(jobs, done, n, left[k]));
            let j = choose|j: int| 0 <= j < n && !done[j] && #[trigger] jobs[j] == left[k];
            assert(jobs[j].number == jobs[i].number);
            assert(j < i || i < j);
        }
    }
    assert forall|i: int| 0 <= i < n implies (left.contains(#[trigger] jobs[i]) <==> !done[i]) by {
        if done[i] && left.contains(jobs[i]) {
            let k = choose|k: int| 0 <= k < left.len() && left[k] == jobs[i];
            assert(left[k].number == jobs[i].number);
        }
    }
}

/// There is only one least free number.
pub proof fn law_next_number_is_unique(jobs: Seq<JobView>, n: int, m: int)
    requires
        is_next_number(jobs, n),
        is_next_number(jobs, m),
    ensures
        n == m,
{
    if n < m {
        assert(is_used(jobs, n));
    } else if m < n {
        assert(is_used(jobs, m));
    }
}

/// There is always a least free number, and it is at most one more than there are jobs.
pub proof fn law_next_number_exists(jobs: Seq<JobView>) -> (n: int)
    ensures
        is_next_number(jobs, n),
        n <= jobs.len() + 1,
{
    lemma_next_number_from(jobs, 1)
}

proof fn lemma_next_number_from(jobs: Seq<JobView>, n: int) -> (next: int)
    requires
        n >= 1,
        forall|m: int| 1 <= m < n ==> #[trigger] is_used(jobs, m),
    ensures
        is_next_number(jobs, next),
        next <= jobs.len() + 1,
    decreases jobs.len() + 1 - n,
{
    lemma_used_numbers(jobs, n);
    if is_used(jobs, n) {
        lemma_used_numbers(jobs, n + 1);
        lemma_next_number_from(jobs, n + 1)
    } else {
        n
    }
}

/// Once a job has the least free number, wherever it stands in the list, the next one is
/// greater.
pub proof fn law_next_number_grows(jobs: Seq<JobView>, job: JobView, k: int, next: int)
    requires
        is_next_number(jobs, job.number),
        0 <= k <= jobs.len(),
        is_next_number(jobs.insert(k, job), next),
    ensures
        next > job.number,
{
    let more = jobs.insert(k, job);
    if next == job.number {
        assert(more[k].number == next);
        assert(is_used(more, next));
    } else if next < job.number {
        assert(is_used(jobs, next));
        let i = choose|i: int| 0 <= i < jobs.len() && (#[trigger] jobs[i]).number == next;
        if i < k {
            assert(more[i].number == next);
        } else {
            assert(more[i + 1].number == next);
        }
        assert(is_used(more, next));
    }
}

/// The least free number does not depend on the order of the jobs.
pub proof fn law_next_number_ignores_the_order(jobs: Seq<JobView>, other: Seq<JobView>, n: int)
    requires
        jobs.to_multiset() == other.to_multiset(),
        is_next_number(jobs, n),
    ensures
        is_next_number(other, n),
{
    assert forall|m: int| is_used(jobs, m) == is_used(other, m) by {
        if is_used(jobs, m) {
            lemma_used_in_any_order(jobs, other, m);
        }
        if is_used(other, m) {
            lemma_used_in_any_order(other, jobs, m);
        }
    }
}

proof fn lemma_used_in_any_order(jobs: Seq<JobView>, other: Seq<JobView>, m: int)
    requires
        jobs.to_multiset() == other.to_multiset(),
        is_used(jobs, m),
    ensures
        is_used(other, m),
{
    let i = choose|i: int| 0 <= i < jobs.len() && (#[trigger] jobs[i]).number == m;
    jobs.to_multiset_ensures();
    other.to_multiset_ensures();
    assert(jobs.to_multiset().count(jobs[i]) > 0);
    assert(other.contains(jobs[i]));
    let j = choose|j: int| 0 <= j < other.len() && other[j] == jobs[i];
    assert(other[j].number == m);
}

/// The number of a job that has left is free again: the next job gets it or a lesser one.
pub proof fn law_numbers_are_reused(jobs: Seq<JobView>, done: Seq<bool>, i: int, n: int)
    requires
        in_order(jobs),
        done.len() == jobs.len(),
        0 <= i < jobs.len(),
        done[i],
        is_next_number(running(jobs, done, jobs.len() as int), n),
    ensures
        n <= jobs[i].number,
{
    law_done_jobs_leave(jobs, done);
    let left = running(jobs, done, jobs.len() as int);
    assert(!is_used(left, jobs[i].number));
    if jobs[i].number < n {
        assert(is_used(left, jobs[i].number));
    }
}

/// What was told of jobs that are done is not told again: as long as no other job is done, a
/// second look prints nothing and takes out nothing.
pub proof fn law_done_jobs_are_told_of_once(
    jobs: Seq<JobView>,
    done: Seq<bool>,
    later: Seq<bool>,
)
    requires
        later.len() == running(jobs, done, jobs.len() as int).len(),
        forall|i: int| 0 <= i < later.len() ==> !#[trigger] later[i],
    ensures
        ({
            let left = running(jobs, done, jobs.len() as int);
            &&& report(left, later, false, left.len() as int) == Seq::<char>::empty()
            &&& running(left, later, left.len() as int) == left
        }),
{
    let left = running(jobs, done, jobs.len() as int);
    lemma_none_done(left, later, left.len() as int);
    assert(left.take(left.len() as int) =~= left);
}

proof fn lemma_none_done(jobs: Seq<JobView>, done: Seq<bool>, k: int)
    requires
        0 <= k <= jobs.len() == done.len(),
        forall|i: int| 0 <= i < done.len() ==> !#[trigger] done[i],
    ensures
        report(jobs, done, false, k) == Seq::<char>::empty(),
        running(jobs, done, k) == jobs.take(k),
    decreases k,
{
    if k == 0 {
        assert(jobs.take(0) =~= seq![]);
    } else {
        lemma_none_done(jobs, done, k - 1);
        assert(!done[k - 1]);
        assert(jobs.take(k) =~= jobs.take(k - 1).push(jobs[k - 1]));
    }
}

/// The report has a line for each job that is told of, in the order of the jobs: all of them, or
/// those alone that are done. The line has the number in brackets, a mark, two blanks, the status
/// in a column of twenty-four, and the command; a job that is done has the status `Done`, and a
/// `&` follows the command of any other. The last job has the mark `+`, the one before it `-`,
/// and the others a blank. A job is kept exactly where it is not done.
pub proof fn law_reports(jobs: Seq<JobView>, done: Seq<bool>, all: bool, k: int)
    requires
        0 <= k < jobs.len() == done.len(),
    ensures
        report(jobs, done, all, 0) == Seq::<char>::empty(),
        report(jobs, done, all, k + 1) == report(jobs, done, all, k) + (if all || done[k] {
            seq!['['] + decimal(jobs[k].number as nat) + seq![']'] + seq![
                if k + 1 == jobs.len() {
                    '+'
                } else if k + 2 == jobs.len() {
                    '-'
                } else {
                    ' '
                },
            ] + seq![' ', ' '] + (if done[k] {
                padded_right(seq!['D', 'o', 'n', 'e'], 24) + jobs[k].command
            } else {
                padded_right(jobs[k].status, 24) + jobs[k].command + seq![' ', '&']
            }) + seq!['\n']
        } else {
            seq![]
        }),
        running(jobs, done, 0) == Seq::<JobView>::empty(),
        running(jobs, done, k + 1) == (if done[k] {
            running(jobs, done, k)
        } else {
            running(jobs, done, k).push(jobs[k])
        }),
{
    reveal_strlit("[");
    reveal_strlit("]");
    reveal_strlit("+");
    reveal_strlit("-");
    reveal_strlit(" ");
    reveal_strlit("  ");
    reveal_strlit("Done");
    reveal_strlit("\n");
    reveal_strlit(" &\n");
    assert("Done"@ =~= seq!['D', 'o', 'n', 'e']);
    let mark = if k + 1 == jobs.len() {
        '+'
    } else if k + 2 == jobs.len() {
        '-'
    } else {
        ' '
    };
    assert(marker(k, jobs.len() as int) =~= seq![mark]);
    let head = seq!['['] + decimal(jobs[k].number as nat) + seq![']'] + seq![mark] + seq![' ', ' '];
    if done[k] {
        assert(report_line(jobs, done, k) =~= head + (padded_right(seq!['D', 'o', 'n', 'e'], 24)
            + jobs[k].command) + seq!['\n']);
    } else {
        assert(report_line(jobs, done, k) =~= head + (padded_right(jobs[k].status, 24)
            + jobs[k].command + seq![' ', '&']) + seq!['\n']);
    }
    if !(all || done[k]) {
        assert(report(jobs, done, all, k) + Seq::<char>::empty() =~= report(jobs, done, all, k));
    }
}

/// The mark of a job.
pub proof fn law_marks(i: int, n: int)
    ensures
        marker(i, n) == seq![
            if i == n - 1 {
                '+'
            } else if i == n - 2 {
                '-'
            } else {
                ' '
            },
        ],
{
    reveal_strlit("+");
    reveal_strlit("-");
    reveal_strlit(" ");
    assert("+"@ =~= seq!['+']);
    assert("-"@ =~= seq!['-']);
    assert(" "@ =~= seq![' ']);
}

/// A job that was just started has the number and the command that it was given, and runs.
pub proof fn law_started_jobs_run(number: int, command: Seq<char>)
    ensures
        started(number, command).number == number,
        started(number, command).command == command,
        started(number, command).status == "Running"@,
{
}

/// The next number is positive, no job has it, and some job has each positive number below it.
pub proof fn law_next_number(jobs: Seq<JobView>, n: int, m: int, i: int)
    requires
        is_next_number(jobs, n),
    ensures
        n >= 1,
        0 <= i < jobs.len() ==> jobs[i].number != n,
        1 <= m < n ==> exists|j: int| 0 <= j < jobs.len() && (#[trigger] jobs[j]).number == m,
{
    if 0 <= i < jobs.len() && jobs[i].number == n {
        assert(is_used(jobs, n));
    }
    if 1 <= m < n {
        assert(is_used(jobs, m));
    }
}

/// A new job stands after those with lesser numbers and before those with greater ones, and the
/// others stay in their order.
pub proof fn law_jobs_stand_by_number(jobs: Seq<JobView>, n: int)
    requires
        forall|i: int, j: int|
            0 <= i < j < jobs.len() ==> (#[trigger] jobs[i]).number < (#[trigger] jobs[j]).number,
    ensures
        0 <= slot(jobs, n) <= jobs.len(),
        forall|i: int| 0 <= i < slot(jobs, n) ==> (#[trigger] jobs[i]).number <= n,
        forall|i: int| slot(jobs, n) <= i < jobs.len() ==> (#[trigger] jobs[i]).number > n,
    decreases jobs.len(),
{
    if jobs.len() > 0 && jobs[0].number <= n {
        let rest = jobs.skip(1);
        assert forall|i: int, j: int| 0 <= i < j < rest.len() implies (#[trigger] rest[i]).number
            < (#[trigger] rest[j]).number by {
            assert(rest[i] == jobs[i + 1] && rest[j] == jobs[j + 1]);
        }
        law_jobs_stand_by_number(rest, n);
        assert forall|i: int| 0 <= i < slot(jobs, n) implies (#[trigger] jobs[i]).number <= n by {
            if i > 0 {
                assert(jobs[i] == rest[i - 1]);
            }
        }
        assert forall|i: int| slot(jobs, n) <= i < jobs.len() implies (#[trigger] jobs[i]).number
            > n by {
            assert(jobs[i] == rest[i - 1]);
        }
    } else if jobs.len() > 0 {
        assert forall|i: int| 0 <= i < jobs.len() implies (#[trigger] jobs[i]).number > n by {
            assert(i > 0 ==> jobs[0].number < jobs[i].number);
        }
    }
}

} // verus!

//! The fetcher of a crawl: it hands out the fetches of some groups of
//! documents so that never more than a fixed number are in flight, and
//! counts what has resolved.

use vstd::prelude::*;
use crate::linz_s3_filter::reporter::{wrapped_pred, wrapped_sum, Progress, Reporter};

verus! {

/// The first job at or after place `index` of group `group`, as its group
/// and its place in the group: groups without a job left are passed over.
/// When no job is left, the result is the number of groups and 0.
pub open spec fn next_from(sizes: Seq<usize>, group: int, index: int) -> (int, int)
    decreases sizes.len() - group,
{
    if group < 0 || group >= sizes.len() {
        (sizes.len() as int, 0)
    } else if index < sizes[group] {
        (group, index)
    } else {
        next_from(sizes, group + 1, 0)
    }
}

/// How many jobs of group `g` have been handed out when the next job is
/// `cursor`: all of an earlier group, none of a later one.
pub open spec fn started_in(sizes: Seq<usize>, cursor: (int, int), g: int) -> int {
    if g < cursor.0 {
        sizes[g] as int
    } else if g == cursor.0 {
        cursor.1
    } else {
        0
    }
}

/// The jobs of each group that are in flight: handed out and not resolved.
pub open spec fn in_flight_by_group(sizes: Seq<usize>, done: Seq<usize>, cursor: (int, int)) -> Seq<
    int,
> {
    Seq::new(sizes.len(), |g: int| started_in(sizes, cursor, g) - done[g])
}

/// The sum of the first `n` numbers of `v`.
pub open spec fn sum_upto(v: Seq<int>, n: int) -> int
    decreases n,
{
    if n <= 0 {
        0
    } else {
        sum_upto(v, n - 1) + v[n - 1]
    }
}

/// The reporter of a crawl before its first fetch, after the first `n`
/// groups were announced: their documents are counted in the total, and a
/// group without documents is read already.
pub open spec fn announced(sizes: Seq<usize>, n: int) -> Reporter
    decreases n,
{
    if n <= 0 {
        Reporter {
            urls_read: 0,
            urls_total: 0,
            collections_read: 0,
            open_threads: 0,
            collections_total: sizes.len() as usize,
            stop_flag: false,
        }
    } else {
        let before = announced(sizes, n - 1);
        Reporter {
            urls_total: wrapped_sum(before.urls_total, sizes[n - 1]),
            collections_read: if sizes[n - 1] == 0 {
                wrapped_sum(before.collections_read, 1)
            } else {
                before.collections_read
            },
            ..before
        }
    }
}

/// The reporter after one more fetch has resolved; `last` says that it was
/// the last of its group.
pub open spec fn after_resolved(before: Reporter, last: bool) -> Reporter {
    Reporter {
        urls_read: wrapped_sum(before.urls_read, 1),
        open_threads: wrapped_pred(before.open_threads),
        collections_read: if last {
            wrapped_sum(before.collections_read, 1)
        } else {
            before.collections_read
        },
        ..before
    }
}

proof fn lemma_next_from(sizes: Seq<usize>, group: int, index: int)
    requires
        0 <= group <= sizes.len(),
        0 <= index,
    ensures
        ({
            let next = next_from(sizes, group, index);
            &&& group <= next.0 <= sizes.len()
            &&& next.0 < sizes.len() ==> 0 <= next.1 < sizes[next.0]
            &&& next.0 == sizes.len() ==> next.1 == 0
            &&& next.0 == group && group < sizes.len() ==> next.1 == index
            &&& next.0 > group ==> next.1 == 0 && index >= sizes[group] && forall|g: int|
                group < g < next.0 ==> sizes[g] == 0
        }),
    decreases sizes.len() - group,
{
    if group < sizes.len() && index >= sizes[group] {
        lemma_next_from(sizes, group + 1, 0);
    }
}

proof fn lemma_sum_update(v: Seq<int>, w: Seq<int>, g: int, d: int, n: int)
    requires
        0 <= g < v.len(),
        0 <= n <= v.len(),
        w.len() == v.len(),
        forall|i: int| 0 <= i < v.len() && i != g ==> w[i] == v[i],
        w[g] == v[g] + d,
    ensures
        sum_upto(w, n) == sum_upto(v, n) + (if g < n {
            d
        } else {
            0
        }),
    decreases n,
{
    if n > 0 {
        lemma_sum_update(v, w, g, d, n - 1);
    }
}

proof fn lemma_sum_bounds(v: Seq<int>, g: int, n: int)
    requires
        0 <= n <= v.len(),
        forall|i: int| 0 <= i < v.len() ==> v[i] >= 0,
    ensures
        sum_upto(v, n) >= 0,
        0 <= g < n ==> sum_upto(v, n) >= v[g],
    decreases n,
{
    if n > 0 {
        lemma_sum_bounds(v, g, n - 1);
    }
}

proof fn lemma_sum_of_zeros(v: Seq<int>, n: int)
    requires
        0 <= n <= v.len(),
        forall|i: int| 0 <= i < v.len() ==> v[i] == 0,
    ensures
        sum_upto(v, n) == 0,
    decreases n,
{
    if n > 0 {
        lemma_sum_of_zeros(v, n - 1);
    }
}

/// Writes one count.
fn set_count(counts: &mut Vec<usize>, at: usize, value: usize)
    requires
        at < old(counts).len(),
    ensures
        final(counts)@ == old(counts)@.update(at as int, value),
    no_unwind
{
    counts[at] = value;
}

/// What changes with every fetch that starts or resolves.
struct Turn {
    /// The group of the next job to hand out.
    group: usize,
    /// The place of that job in its group.
    index: usize,
    in_flight: usize,
    reporter: Reporter,
}

/// The fetcher of a crawl. The documents to fetch come in groups, one group
/// for each collection. The fetcher hands out the jobs in order, never more
/// at a time than its capacity, and counts the jobs that resolve. Its
/// reporter shows the progress.
pub struct BoundedFetcher {
    capacity: usize,
    sizes: Vec<usize>,
    done: Vec<usize>,
    turn: Turn,
}

impl BoundedFetcher {
    /// The counts agree: no group has more jobs resolved than handed out,
    /// every job handed out and not resolved is counted as in flight, the
    /// fetches in flight are no more than the capacity, which is at least
    /// 1, and they are the open workers of the reporter.
    #[verifier::type_invariant]
    spec fn counts_agree(self) -> bool {
        &&& self.capacity >= 1
        &&& self.done.len() == self.sizes.len()
        &&& self.turn.group <= self.sizes.len()
        &&& self.turn.group < self.sizes.len() ==> self.turn.index < self.sizes@[self.turn.group as int]
        &&& self.turn.group == self.sizes.len() ==> self.turn.index == 0
        &&& forall|g: int|
            0 <= g < self.sizes.len() ==> self.done@[g] <= started_in(
                self.sizes@,
                (self.turn.group as int, self.turn.index as int),
                g,
            )
        &&& self.turn.in_flight >= sum_upto(
            in_flight_by_group(
                self.sizes@,
                self.done@,
                (self.turn.group as int, self.turn.index as int),
            ),
            self.sizes.len() as int,
        )
        &&& self.turn.in_flight <= self.capacity
        &&& self.turn.reporter.open_threads == self.turn.in_flight
    }

    /// How many fetches may be in flight at once.
    pub closed spec fn capacity(&self) -> usize {
        self.capacity
    }

    /// The number of jobs of each group.
    pub closed spec fn sizes(&self) -> Seq<usize> {
        self.sizes@
    }

    /// The number of resolved jobs of each group.
    pub closed spec fn done(&self) -> Seq<usize> {
        self.done@
    }

    /// The next job to hand out, as its group and its place in the group;
    /// the number of groups and 0 when every job has been handed out.
    pub closed spec fn cursor(&self) -> (int, int) {
        (self.turn.group as int, self.turn.index as int)
    }

    /// How many fetches are in flight.
    pub closed spec fn in_flight(&self) -> usize {
        self.turn.in_flight
    }

    /// The progress of the crawl.
    pub closed spec fn reporter(&self) -> Reporter {
        self.turn.reporter
    }

    /// The number of jobs of group `g` that have been handed out.
    pub open spec fn started(&self, g: int) -> int {
        started_in(self.sizes(), self.cursor(), g)
    }

    /// Every job has been handed out and has resolved.
    pub open spec fn all_resolved(&self) -> bool {
        self.cursor().0 == self.sizes().len() && self.in_flight() == 0
    }

    /// A fetcher for groups of the given sizes that lets `permits` fetches
    /// be in flight at once, and one where `permits` is 0. The reporter
    /// starts anew with every group announced.
    pub fn new(permits: usize, sizes: Vec<usize>) -> (fetcher: BoundedFetcher)
        ensures
            fetcher.capacity() == (if permits == 0 {
                1
            } else {
                permits
            }),
            fetcher.sizes() == sizes@,
            fetcher.done() == Seq::new(sizes.len() as nat, |g: int| 0usize),
            fetcher.cursor() == next_from(sizes@, 0, 0),
            fetcher.in_flight() == 0,
            fetcher.reporter() == announced(sizes@, sizes.len() as int),
    {
        let mut reporter = Reporter::new(sizes.len());
        let mut done: Vec<usize> = Vec::new();
        let mut g: usize = 0;
        while g < sizes.len()
            invariant
                g <= sizes.len(),
                done@ == Seq::new(g as nat, |i: int| 0usize),
                reporter == announced(sizes@, g as int),
                reporter.open_threads == 0,
            decreases sizes.len() - g,
        {
            reporter.add_urls(sizes[g]);
            if sizes[g] == 0 {
                reporter.report_finished_collection();
            }
            done.push(0);
            assert(done@ =~= Seq::new((g + 1) as nat, |i: int| 0usize));
            g += 1;
        }
        let mut group: usize = 0;
        while group < sizes.len() && sizes[group] == 0
            invariant
                group <= sizes.len(),
                next_from(sizes@, group as int, 0) == next_from(sizes@, 0, 0),
            decreases sizes.len() - group,
        {
            group += 1;
        }
        proof {
            let cursor = (group as int, 0int);
            lemma_next_from(sizes@, 0, 0);
            let v = in_flight_by_group(sizes@, done@, cursor);
            assert forall|i: int| 0 <= i < v.len() implies v[i] == 0 by {
                if i < group {
                    assert(sizes@[i] == 0);
                }
            }
            lemma_sum_of_zeros(v, sizes.len() as int);
        }
        BoundedFetcher {
            capacity: if permits == 0 {
                1
            } else {
                permits
            },
            sizes,
            done,
            turn: Turn { group, index: 0, in_flight: 0, reporter },
        }
    }

    /// The next job to start, as its group and its place in the group, if
    /// a job is left and a permit is free. The job then counts as in
    /// flight. While nothing is in flight and a job is left, a job is
    /// handed out; and never are more in flight than the capacity.
    pub fn next_fetch(&mut self) -> (job: Option<(usize, usize)>)
        ensures
            final(self).capacity() == old(self).capacity(),
            final(self).sizes() == old(self).sizes(),
            final(self).done() == old(self).done(),
            final(self).in_flight() <= final(self).capacity(),
            old(self).cursor().0 < old(self).sizes().len() && old(self).in_flight() < old(self).capacity() ==> {
                &&& job == Some((old(self).cursor().0 as usize, old(self).cursor().1 as usize))
                &&& final(self).cursor() == next_from(
                    old(self).sizes(),
                    old(self).cursor().0,
                    old(self).cursor().1 + 1,
                )
                &&& final(self).in_flight() == old(self).in_flight() + 1
                &&& final(self).reporter() == (Reporter {
                    open_threads: wrapped_sum(old(self).reporter().open_threads, 1),
                    ..old(self).reporter()
                })
            },
            !(old(self).cursor().0 < old(self).sizes().len() && old(self).in_flight() < old(self).capacity()) ==> job is None && final(self).cursor() == old(self).cursor() && final(self).in_flight() == old(self).in_flight() && final(self).reporter() == old(self).reporter(),
            old(self).in_flight() == 0 && old(self).cursor().0 < old(self).sizes().len()
                ==> job is Some,
    {
        proof {
            use_type_invariant(&*self);
        }
        if self.turn.group >= self.sizes.len() || self.turn.in_flight >= self.capacity {
            return None;
        }
        let job = (self.turn.group, self.turn.index);
        let ghost before = (self.turn.group as int, self.turn.index as int);
        let ghost old_v = in_flight_by_group(self.sizes@, self.done@, before);
        let mut group = self.turn.group;
        let mut index = self.turn.index + 1;
        if index >= self.sizes[group] {
            group += 1;
            index = 0;
            while group < self.sizes.len() && self.sizes[group] == 0
                invariant
                    before.0 < group <= self.sizes.len(),
                    next_from(self.sizes@, group as int, 0) == next_from(
                        self.sizes@,
                        before.0,
                        before.1 + 1,
                    ),
                decreases self.sizes.len() - group,
            {
                group += 1;
            }
        }
        proof {
            lemma_next_from(self.sizes@, before.0, before.1 + 1);
            let after = (group as int, index as int);
            assert(after == next_from(self.sizes@, before.0, before.1 + 1));
            let new_v = in_flight_by_group(self.sizes@, self.done@, after);
            assert forall|i: int| 0 <= i < old_v.len() && i != before.0 implies new_v[i]
                == old_v[i] by {}
            assert(new_v[before.0] == old_v[before.0] + 1);
            lemma_sum_update(old_v, new_v, before.0, 1, self.sizes.len() as int);
        }
        let mut reporter = self.turn.reporter;
        reporter.add_thread();
        self.turn = Turn { group, index, in_flight: self.turn.in_flight + 1, reporter };
        Some(job)
    }

    /// Counts a fetch of `group` as resolved, whether it gave a document or
    /// failed, and frees its permit. The fetch is counted only if one of
    /// the group is in flight. With the last fetch of a group the group is
    /// read.
    pub fn resolve(&mut self, group: usize) -> (counted: bool)
        ensures
            final(self).capacity() == old(self).capacity(),
            final(self).sizes() == old(self).sizes(),
            final(self).cursor() == old(self).cursor(),
            final(self).in_flight() <= final(self).capacity(),
            counted == (group < old(self).sizes().len() && old(self).done()[group as int] < old(self).started(group as int)),
            counted ==> {
                &&& final(self).done() == old(self).done().update(
                    group as int,
                    (old(self).done()[group as int] + 1) as usize,
                )
                &&& final(self).in_flight() == old(self).in_flight() - 1
                &&& final(self).reporter() == after_resolved(
                    old(self).reporter(),
                    old(self).done()[group as int] + 1 == old(self).sizes()[group as int],
                )
            },
            !counted ==> final(self).done() == old(self).done() && final(self).in_flight() == old(self).in_flight() && final(self).reporter() == old(self).reporter(),
    {
        proof {
            use_type_invariant(&*self);
        }
        if group >= self.sizes.len() {
            return false;
        }
        let started: usize = if group < self.turn.group {
            self.sizes[group]
        } else if group == self.turn.group {
            self.turn.index
        } else {
            0
        };
        if self.done[group] >= started {
            return false;
        }
        let ghost cursor = (self.turn.group as int, self.turn.index as int);
        let ghost old_v = in_flight_by_group(self.sizes@, self.done@, cursor);
        proof {
            assert forall|i: int| 0 <= i < old_v.len() implies old_v[i] >= 0 by {}
            lemma_sum_bounds(old_v, group as int, self.sizes.len() as int);
        }
        let count = self.done[group] + 1;
        let last = count == self.sizes[group];
        let mut reporter = self.turn.reporter;
        reporter.report_finished_url();
        reporter.report_finished_thread();
        if last {
            reporter.report_finished_collection();
        }
        let turn = Turn {
            group: self.turn.group,
            index: self.turn.index,
            in_flight: self.turn.in_flight - 1,
            reporter,
        };
        proof {
            let new_v = in_flight_by_group(self.sizes@, self.done@.update(group as int, count), cursor);
            assert forall|i: int| 0 <= i < old_v.len() && i != group implies new_v[i]
                == old_v[i] by {}
            lemma_sum_update(old_v, new_v, group as int, -1, self.sizes.len() as int);
        }
        set_count(&mut self.done, group, count);
        self.turn = turn;
        true
    }

    /// Whether every job has been handed out and has resolved. Every group
    /// is then resolved in full.
    pub fn is_done(&self) -> (r: bool)
        ensures
            r == self.all_resolved(),
            r ==> forall|g: int| 0 <= g < self.sizes().len() ==> self.done()[g] == self.sizes()[g],
    {
        proof {
            use_type_invariant(self);
            let v = in_flight_by_group(self.sizes@, self.done@, self.cursor());
            assert forall|i: int| 0 <= i < v.len() implies v[i] >= 0 by {}
            assert forall|g: int|
                self.all_resolved() && 0 <= g < self.sizes().len() implies self.done()[g]
                == self.sizes()[g] by {
                lemma_sum_bounds(v, g, self.sizes.len() as int);
                assert(v[g] == self.sizes@[g] - self.done@[g]);
            }
        }
        self.turn.group == self.sizes.len() && self.turn.in_flight == 0
    }

    /// The counts for one progress line, or nothing once the crawl has
    /// been stopped.
    pub fn report(&self) -> (r: Option<Progress>)
        ensures
            r == (if self.reporter().stop_flag {
                None
            } else {
                Some(self.reporter().progress())
            }),
    {
        self.turn.reporter.report()
    }

    /// Ends the reporting; the counts stay.
    pub fn stop(&mut self)
        ensures
            final(self).capacity() == old(self).capacity(),
            final(self).sizes() == old(self).sizes(),
            final(self).done() == old(self).done(),
            final(self).cursor() == old(self).cursor(),
            final(self).in_flight() == old(self).in_flight(),
            final(self).reporter() == (Reporter { stop_flag: true, ..old(self).reporter() }),
    {
        proof {
            use_type_invariant(&*self);
        }
        let mut reporter = self.turn.reporter;
        reporter.stop();
        self.turn = Turn {
            group: self.turn.group,
            index: self.turn.index,
            in_flight: self.turn.in_flight,
            reporter,
        };
    }

    /// The number of fetches in flight. It is never above the capacity,
    /// and it is the number of open workers that the reporter shows.
    pub fn fetches_in_flight(&self) -> (n: usize)
        ensures
            n == self.in_flight(),
            n <= self.capacity(),
            n == self.reporter().open_threads,
            self.capacity() >= 1,
    {
        proof {
            use_type_invariant(self);
        }
        self.turn.in_flight
    }
}

} // verus!

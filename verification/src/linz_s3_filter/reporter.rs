//! The progress counters of one search, and the flag that ends its
//! reporting.

use vstd::prelude::*;
use crate::linz_s3_filter::text::{decimal, decimal_text};

verus! {

/// The sum of two counters as a machine word holds it: past the largest
/// value it starts again at zero.
pub open spec fn wrapped_sum(a: usize, b: usize) -> usize {
    if a + b <= usize::MAX {
        (a + b) as usize
    } else {
        (a + b - usize::MAX - 1) as usize
    }
}

/// One less than `a`; below zero it starts again at the largest value.
pub open spec fn wrapped_pred(a: usize) -> usize {
    if a > 0 {
        (a - 1) as usize
    } else {
        usize::MAX
    }
}

fn add_wrapping(a: usize, b: usize) -> (r: usize)
    ensures
        r == wrapped_sum(a, b),
{
    if b <= usize::MAX - a {
        a + b
    } else {
        b - (usize::MAX - a) - 1
    }
}

/// The counts that one progress line shows.
#[derive(Clone, Copy, Debug, PartialEq, Eq, Structural)]
pub struct Progress {
    pub collections_read: usize,
    pub collections_total: usize,
    pub urls_read: usize,
    pub urls_total: usize,
    pub open_threads: usize,
}

/// The progress line of the given counts.
pub open spec fn progress_line(p: Progress) -> Seq<char> {
    "Reporting: "@ + decimal(p.collections_read as nat) + "/"@ + decimal(p.collections_total as nat)
        + " Collections read, "@ + decimal(p.urls_read as nat) + "/"@ + decimal(
        p.urls_total as nat,
    ) + " URLS read, Open threads:"@ + decimal(p.open_threads as nat)
}

impl Progress {
    /// The progress line of these counts.
    pub fn line(&self) -> (text: String)
        ensures
            text@ == progress_line(*self),
    {
        let mut text = "Reporting: ".to_owned();
        text.append(decimal_text(self.collections_read).as_str());
        text.append("/");
        text.append(decimal_text(self.collections_total).as_str());
        text.append(" Collections read, ");
        text.append(decimal_text(self.urls_read).as_str());
        text.append("/");
        text.append(decimal_text(self.urls_total).as_str());
        text.append(" URLS read, Open threads:");
        text.append(decimal_text(self.open_threads).as_str());
        text
    }
}

/// Progress of one search. A new search starts from `reset_all`; until the
/// next reset the counts of finished work only grow.
#[derive(Clone, Copy, Debug, PartialEq, Eq, Structural)]
pub struct Reporter {
    pub urls_read: usize,
    pub urls_total: usize,
    pub collections_read: usize,
    pub open_threads: usize,
    pub collections_total: usize,
    pub stop_flag: bool,
}

impl Reporter {
    /// The reporter at the start of a search over `collections_total`
    /// collections.
    pub open spec fn is_fresh(&self, collections_total: usize) -> bool {
        &&& self.urls_read == 0
        &&& self.urls_total == 0
        &&& self.collections_read == 0
        &&& self.open_threads == 0
        &&& self.collections_total == collections_total
        &&& !self.stop_flag
    }

    /// What a progress line shows of this reporter.
    pub open spec fn progress(&self) -> Progress {
        Progress {
            collections_read: self.collections_read,
            collections_total: self.collections_total,
            urls_read: self.urls_read,
            urls_total: self.urls_total,
            open_threads: self.open_threads,
        }
    }

    /// The reporter at the start of a search over `collections_total`
    /// collections.
    pub fn new(collections_total: usize) -> (r: Reporter)
        ensures
            r.is_fresh(collections_total),
    {
        Reporter {
            urls_read: 0,
            urls_total: 0,
            collections_read: 0,
            open_threads: 0,
            collections_total,
            stop_flag: false,
        }
    }

    /// The counts for one progress line, or nothing once the search has been
    /// stopped.
    pub fn report(&self) -> (r: Option<Progress>)
        ensures
            r == (if self.stop_flag {
                None
            } else {
                Some(self.progress())
            }),
    {
        if !self.stop_flag {
            Some(
                Progress {
                    collections_read: self.collections_read,
                    collections_total: self.collections_total,
                    urls_read: self.urls_read,
                    urls_total: self.urls_total,
                    open_threads: self.open_threads,
                },
            )
        } else {
            None
        }
    }

    /// Counts one more collection as read.
    pub fn report_finished_collection(&mut self)
        ensures
            final(self).collections_read == wrapped_sum(old(self).collections_read, 1),
            final(self).urls_read == old(self).urls_read,
            final(self).urls_total == old(self).urls_total,
            final(self).open_threads == old(self).open_threads,
            final(self).collections_total == old(self).collections_total,
            final(self).stop_flag == old(self).stop_flag,
    {
        self.collections_read = add_wrapping(self.collections_read, 1);
    }

    /// Sets the count of collections read to zero.
    pub fn reset_collection_read(&mut self)
        ensures
            final(self).collections_read == 0,
            final(self).urls_read == old(self).urls_read,
            final(self).urls_total == old(self).urls_total,
            final(self).open_threads == old(self).open_threads,
            final(self).collections_total == old(self).collections_total,
            final(self).stop_flag == old(self).stop_flag,
    {
        self.collections_read = 0;
    }

    /// Counts one more open worker.
    pub fn add_thread(&mut self)
        ensures
            final(self).open_threads == wrapped_sum(old(self).open_threads, 1),
            final(self).collections_read == old(self).collections_read,
            final(self).urls_read == old(self).urls_read,
            final(self).urls_total == old(self).urls_total,
            final(self).collections_total == old(self).collections_total,
            final(self).stop_flag == old(self).stop_flag,
    {
        self.open_threads = add_wrapping(self.open_threads, 1);
    }

    /// Counts one open worker less.
    pub fn report_finished_thread(&mut self)
        ensures
            final(self).open_threads == wrapped_pred(old(self).open_threads),
            final(self).collections_read == old(self).collections_read,
            final(self).urls_read == old(self).urls_read,
            final(self).urls_total == old(self).urls_total,
            final(self).collections_total == old(self).collections_total,
            final(self).stop_flag == old(self).stop_flag,
    {
        self.open_threads = if self.open_threads > 0 {
            self.open_threads - 1
        } else {
            usize::MAX
        };
    }

    /// Announces `count` more documents to read.
    pub fn add_urls(&mut self, count: usize)
        ensures
            final(self).urls_total == wrapped_sum(old(self).urls_total, count),
            final(self).collections_read == old(self).collections_read,
            final(self).urls_read == old(self).urls_read,
            final(self).open_threads == old(self).open_threads,
            final(self).collections_total == old(self).collections_total,
            final(self).stop_flag == old(self).stop_flag,
    {
        self.urls_total = add_wrapping(self.urls_total, count);
    }

    /// Counts one more document as read.
    pub fn report_finished_url(&mut self)
        ensures
            final(self).urls_read == wrapped_sum(old(self).urls_read, 1),
            final(self).collections_read == old(self).collections_read,
            final(self).urls_total == old(self).urls_total,
            final(self).open_threads == old(self).open_threads,
            final(self).collections_total == old(self).collections_total,
            final(self).stop_flag == old(self).stop_flag,
    {
        self.urls_read = add_wrapping(self.urls_read, 1);
    }

    /// Sets the count of documents read to zero.
    pub fn reset_urls_read(&mut self)
        ensures
            final(self).urls_read == 0,
            final(self).collections_read == old(self).collections_read,
            final(self).urls_total == old(self).urls_total,
            final(self).open_threads == old(self).open_threads,
            final(self).collections_total == old(self).collections_total,
            final(self).stop_flag == old(self).stop_flag,
    {
        self.urls_read = 0;
    }

    /// Sets the count of documents announced to zero.
    pub fn reset_urls_total(&mut self)
        ensures
            final(self).urls_total == 0,
            final(self).collections_read == old(self).collections_read,
            final(self).urls_read == old(self).urls_read,
            final(self).open_threads == old(self).open_threads,
            final(self).collections_total == old(self).collections_total,
            final(self).stop_flag == old(self).stop_flag,
    {
        self.urls_total = 0;
    }

    /// Starts a new search over `collections_total` collections: every count
    /// is zero again and the stop flag is cleared.
    pub fn reset_all(&mut self, collections_total: usize)
        ensures
            final(self).is_fresh(collections_total),
    {
        self.collections_total = collections_total;
        self.reset_collection_read();
        self.reset_urls_read();
        self.reset_urls_total();
        self.open_threads = 0;
        self.stop_flag = false;
    }

    /// Ends the reporting of the current search; the counts stay.
    pub fn stop(&mut self)
        ensures
            final(self).stop_flag,
            final(self).progress() == old(self).progress(),
    {
        self.stop_flag = true;
    }
}

/// Within one search the counts of finished work never go down, short of a
/// counter running over the largest machine word.
pub proof fn lemma_counts_grow(before: usize, added: usize)
    requires
        before + added <= usize::MAX,
    ensures
        wrapped_sum(before, added) == before + added,
        wrapped_sum(before, added) >= before,
{
}

} // verus!

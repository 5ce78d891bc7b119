//! One classified image, the flag decision on it, where a flagged image is
//! copied to, and the counters of a run.
use crate::labels::{decide, flagged, unsafe_labels, Classifications, HashableMetric};
use crate::naming::{flat_destination, mirror_destination, candidate, first_free, DestinationResolver};
use crate::paths::{file_name_of, joined_of, stripped_of};
use vstd::prelude::*;

verus! {

/// An image that was classified: its path and its scores (in millionths).
#[derive(Debug)]
pub struct FileResult {
    pub path: String,
    pub classifications: Classifications,
}

impl FileResult {
    /// A copy of this result, equal to it.
    pub fn duplicate(&self) -> (r: FileResult)
        ensures
            r == *self,
    {
        FileResult { path: self.path.clone(), classifications: self.classifications }
    }

    /// Whether the image is flagged at `threshold` (in millionths): its
    /// largest score among Hentai, Porn and Sexy, 0 where none of them is
    /// recorded, is strictly above the threshold.
    pub fn is_nsfw(&self, threshold: i64) -> (r: bool)
        ensures
            r == flagged(self.classifications, threshold as int, unsafe_labels()),
    {
        let labels = HashableMetric::unsafe_set();
        decide(&self.classifications, threshold, &labels)
    }
}

/// The settings of a run that decide what is flagged and where it goes.
#[derive(Debug)]
pub struct TriageOptions {
    /// Flag threshold, in millionths; not clamped.
    pub threshold: i64,
    /// Flatten policy when set, mirror policy otherwise.
    pub flatten: bool,
    pub source_folder: String,
    pub destination: String,
}

/// Where the image of `result` is copied to: None where it is not flagged
/// (and nothing is claimed); else its destination under the run's policy,
/// None where that policy has no place for its path (the path is not under
/// the source folder, or has no file name).
pub fn destination_for(
    result: &FileResult,
    options: &TriageOptions,
    resolver: &mut DestinationResolver,
) -> (r: Option<String>)
    ensures
        !flagged(result.classifications, options.threshold as int, unsafe_labels()) ==> r is None
            && final(resolver).names() == old(resolver).names(),
        flagged(result.classifications, options.threshold as int, unsafe_labels()) && !options.flatten
            ==> final(resolver).names() == old(resolver).names() && match stripped_of(
            result.path@,
            options.source_folder@,
        ) {
            Some(rel) => r matches Some(d) && d@ == joined_of(options.destination@, rel),
            None => r is None,
        },
        flagged(result.classifications, options.threshold as int, unsafe_labels()) && options.flatten
            ==> match r {
            None => file_name_of(result.path@) is None && final(resolver).names() == old(resolver).names(),
            Some(d) => file_name_of(result.path@) matches Some(n) && exists|k: nat|
                first_free(old(resolver).names(), n, k) && d@ == joined_of(options.destination@, #[trigger] candidate(n, k))
                    && final(resolver).names() == old(resolver).names().push(candidate(n, k)),
        },
{
    if !result.is_nsfw(options.threshold) {
        None
    } else if options.flatten {
        flat_destination(resolver, options.destination.as_str(), result.path.as_str())
    } else {
        mirror_destination(options.destination.as_str(), options.source_folder.as_str(), result.path.as_str())
    }
}

/// How many of `results` are flagged at `threshold`.
pub open spec fn flagged_count(results: Seq<FileResult>, threshold: int) -> nat
    decreases results.len(),
{
    if results.len() == 0 {
        0
    } else {
        flagged_count(results.drop_last(), threshold) + if flagged(
            results.last().classifications,
            threshold,
            unsafe_labels(),
        ) {
            1nat
        } else {
            0nat
        }
    }
}

/// The counters of a run.
#[derive(Debug, Clone, Copy, PartialEq, Eq, Structural)]
pub struct RunSummary {
    /// Candidate images found.
    pub scanned: u64,
    /// Images classified (each has one report row).
    pub classified: u64,
    /// Classified images that were flagged.
    pub flagged: u64,
}

/// The counters of a run that found `scanned` candidates and classified
/// `results`, at `threshold`.
pub fn summarize(scanned: u64, results: &Vec<FileResult>, threshold: i64) -> (r: RunSummary)
    ensures
        r.scanned == scanned,
        r.classified == results@.len(),
        r.flagged == flagged_count(results@, threshold as int),
{
    let mut n: u64 = 0;
    let mut i: usize = 0;
    while i < results.len()
        invariant
            i <= results@.len(),
            n == flagged_count(results@.subrange(0, i as int), threshold as int),
            n <= i,
        decreases results@.len() - i,
    {
        proof {
            let next = results@.subrange(0, i + 1);
            assert(next.drop_last() =~= results@.subrange(0, i as int));
        }
        if results[i].is_nsfw(threshold) {
            n = n + 1;
        }
        i += 1;
    }
    assert(results@.subrange(0, results@.len() as int) =~= results@);
    RunSummary { scanned, classified: results.len() as u64, flagged: n }
}

} // verus!

//! Compaction: from the samples of a history to the timeline of version
//! changes.

use vstd::prelude::*;
use crate::sampler::{Dated, Sample};
use crate::text::{optional_text, text_eq};

verus! {

/// One change of version: the version that the library took, and the time of
/// the first commit that shows it.
#[derive(Debug, Clone, PartialEq, Eq)]
pub struct TimelineEntry {
    /// The version from here on; `None` where the lock file does not hold the library.
    pub version: Option<String>,
    /// The time of the change, in seconds since the Unix epoch.
    pub timestamp: i64,
}

impl View for TimelineEntry {
    type V = Dated;

    open spec fn view(&self) -> Dated {
        Dated { version: optional_text(self.version), timestamp: self.timestamp }
    }
}

/// What a sequence of samples stands for, one by one.
pub open spec fn samples_view(samples: Seq<Sample>) -> Seq<Dated> {
    Seq::new(samples.len(), |i: int| samples[i]@)
}

/// What a sequence of timeline entries stands for, one by one.
pub open spec fn entries_view(entries: Seq<TimelineEntry>) -> Seq<Dated> {
    Seq::new(entries.len(), |i: int| entries[i]@)
}

/// The changes in a sequence that runs from the oldest sample to the newest:
/// the first sample, and every later one whose version differs from that of
/// the sample just before it. A lack of version is a version like any other.
pub open spec fn changes(oldest_first: Seq<Dated>) -> Seq<Dated>
    decreases oldest_first.len(),
{
    if oldest_first.len() == 0 {
        Seq::empty()
    } else {
        let before = changes(oldest_first.drop_last());
        let last = oldest_first.last();
        if oldest_first.len() == 1 || oldest_first[oldest_first.len() - 2].version
            != last.version {
            before.push(last)
        } else {
            before
        }
    }
}

/// The timeline of samples that come newest first, as a walk through history
/// hands them out: the changes of the reversed sequence, oldest first.
pub open spec fn timeline_of(newest_first: Seq<Dated>) -> Seq<Dated> {
    changes(newest_first.reverse())
}

/// No entry repeats the version of the entry before it.
pub open spec fn no_repeats(entries: Seq<Dated>) -> bool {
    forall|i: int, j: int|
        0 <= i && j == i + 1 && j < entries.len() ==> (#[trigger] entries[i]).version != (
        #[trigger] entries[j]).version
}

/// Times never decrease along the sequence.
pub open spec fn is_oldest_first(entries: Seq<Dated>) -> bool {
    forall|i: int, j: int|
        0 <= i <= j < entries.len() ==> (#[trigger] entries[i]).timestamp <= (
        #[trigger] entries[j]).timestamp
}

/// Times never increase along the sequence.
pub open spec fn is_newest_first(samples: Seq<Dated>) -> bool {
    forall|i: int, j: int|
        0 <= i <= j < samples.len() ==> (#[trigger] samples[i]).timestamp >= (
        #[trigger] samples[j]).timestamp
}

/// Dropping the last sample of a sequence that runs oldest first leaves one
/// that runs oldest first.
proof fn lemma_shorter_oldest_first(oldest_first: Seq<Dated>)
    requires
        oldest_first.len() > 0,
        is_oldest_first(oldest_first),
    ensures
        is_oldest_first(oldest_first.drop_last()),
{
    let shorter = oldest_first.drop_last();
    assert forall|i: int, j: int| 0 <= i <= j < shorter.len() implies (
    #[trigger] shorter[i]).timestamp <= (#[trigger] shorter[j]).timestamp by {
        assert(shorter[i] == oldest_first[i] && shorter[j] == oldest_first[j]);
    }
}

/// The changes of a sequence that is not empty end with the version of its
/// last sample, and none of them is later than that sample where the
/// sequence runs oldest first.
proof fn lemma_changes_last(oldest_first: Seq<Dated>)
    requires
        oldest_first.len() > 0,
    ensures
        changes(oldest_first).len() > 0,
        changes(oldest_first).last().version == oldest_first.last().version,
        is_oldest_first(oldest_first) ==> forall|k: int|
            0 <= k < changes(oldest_first).len() ==> (#[trigger] changes(oldest_first)[k]).timestamp
                <= oldest_first.last().timestamp,
    decreases oldest_first.len(),
{
    let all = changes(oldest_first);
    let shorter = oldest_first.drop_last();
    let before = changes(shorter);
    let last = oldest_first.last();
    if oldest_first.len() == 1 {
        assert(before.len() == 0);
        assert(all =~= seq![last]);
    } else {
        lemma_changes_last(shorter);
        let previous = oldest_first[oldest_first.len() - 2];
        assert(shorter.last() == previous);
        if is_oldest_first(oldest_first) {
            lemma_shorter_oldest_first(oldest_first);
            assert(previous.timestamp <= last.timestamp);
            assert forall|k: int| 0 <= k < all.len() implies (#[trigger] all[k]).timestamp
                <= last.timestamp by {
                if k < before.len() {
                    assert(all[k] == before[k]);
                }
            }
        }
    }
}

/// Law: in the changes of any sequence no two consecutive entries have the
/// same version, the lack of a version counting as one.
pub proof fn lemma_changes_no_repeats(oldest_first: Seq<Dated>)
    ensures
        no_repeats(changes(oldest_first)),
    decreases oldest_first.len(),
{
    let all = changes(oldest_first);
    if oldest_first.len() == 0 {
    } else if oldest_first.len() == 1 {
        assert(changes(oldest_first.drop_last()).len() == 0);
    } else {
        let shorter = oldest_first.drop_last();
        let before = changes(shorter);
        let last = oldest_first.last();
        lemma_changes_no_repeats(shorter);
        lemma_changes_last(shorter);
        assert(shorter.last() == oldest_first[oldest_first.len() - 2]);
        assert forall|i: int, j: int| 0 <= i && j == i + 1 && j < all.len() implies (
        #[trigger] all[i]).version != (#[trigger] all[j]).version by {
            if j < before.len() {
                assert(all[j] == before[j] && all[i] == before[i]);
            } else {
                assert(all[j] == last);
                assert(all[i] == before.last());
            }
        }
    }
}

/// Law: where the samples run oldest first, so do their changes.
pub proof fn lemma_changes_oldest_first(oldest_first: Seq<Dated>)
    requires
        is_oldest_first(oldest_first),
    ensures
        is_oldest_first(changes(oldest_first)),
    decreases oldest_first.len(),
{
    let all = changes(oldest_first);
    if oldest_first.len() == 0 {
    } else if oldest_first.len() == 1 {
        assert(changes(oldest_first.drop_last()).len() == 0);
    } else {
        let shorter = oldest_first.drop_last();
        let before = changes(shorter);
        let last = oldest_first.last();
        lemma_shorter_oldest_first(oldest_first);
        lemma_changes_oldest_first(shorter);
        lemma_changes_last(shorter);
        assert(shorter.last() == oldest_first[oldest_first.len() - 2]);
        assert(oldest_first[oldest_first.len() - 2].timestamp <= last.timestamp);
        assert forall|i: int, j: int| 0 <= i <= j < all.len() implies (#[trigger] all[i]).timestamp
            <= (#[trigger] all[j]).timestamp by {
            if j < before.len() {
                assert(all[i] == before[i] && all[j] == before[j]);
            } else if i < before.len() {
                assert(all[i] == before[i]);
                assert(all[j] == last);
            }
        }
    }
}

/// A sequence without repeats has every one of its samples as a change.
pub proof fn lemma_changes_keeps_distinct(oldest_first: Seq<Dated>)
    requires
        no_repeats(oldest_first),
    ensures
        changes(oldest_first) == oldest_first,
    decreases oldest_first.len(),
{
    if oldest_first.len() == 0 {
    } else {
        let shorter = oldest_first.drop_last();
        assert(no_repeats(shorter)) by {
            assert forall|i: int, j: int| 0 <= i && j == i + 1 && j < shorter.len() implies (
            #[trigger] shorter[i]).version != (#[trigger] shorter[j]).version by {
                assert(shorter[i] == oldest_first[i] && shorter[j] == oldest_first[j]);
            }
        }
        lemma_changes_keeps_distinct(shorter);
        if oldest_first.len() > 1 {
            assert(oldest_first[oldest_first.len() - 2].version != oldest_first[oldest_first.len()
                - 1].version);
        }
        assert(shorter.push(oldest_first.last()) =~= oldest_first);
    }
}

/// The edge cases: no sample gives an empty timeline, and a single sample is
/// the single entry of its timeline, whether it has a version or not.
pub proof fn lemma_timeline_edges(sample: Dated)
    ensures
        timeline_of(Seq::empty()) == Seq::<Dated>::empty(),
        timeline_of(seq![sample]) == seq![sample],
{
    let none = Seq::<Dated>::empty();
    assert(none.reverse() =~= none);
    let one = seq![sample];
    assert(one.reverse() =~= one);
    assert(changes(one.drop_last()) =~= none);
    assert(changes(one) =~= one);
}

/// Law: no two consecutive entries of a timeline have the same version.
pub proof fn lemma_timeline_no_repeats(newest_first: Seq<Dated>)
    ensures
        no_repeats(timeline_of(newest_first)),
{
    lemma_changes_no_repeats(newest_first.reverse());
}

/// Law: the times of a timeline never decrease, provided that the samples
/// came newest first, as a walk in descending time hands them out.
pub proof fn lemma_timeline_oldest_first(newest_first: Seq<Dated>)
    requires
        is_newest_first(newest_first),
    ensures
        is_oldest_first(timeline_of(newest_first)),
{
    let reversed = newest_first.reverse();
    assert(is_oldest_first(reversed)) by {
        let n = newest_first.len() as int;
        assert forall|i: int, j: int| 0 <= i <= j < reversed.len() implies (
        #[trigger] reversed[i]).timestamp <= (#[trigger] reversed[j]).timestamp by {
            assert(reversed[i] == newest_first[n - 1 - i]);
            assert(reversed[j] == newest_first[n - 1 - j]);
        }
    }
    lemma_changes_oldest_first(reversed);
}

/// Law: two runs over the same samples give the same timeline.
pub proof fn lemma_two_runs_agree(
    samples: Seq<Sample>,
    first: Seq<TimelineEntry>,
    second: Seq<TimelineEntry>,
)
    requires
        entries_view(first) == timeline_of(samples_view(samples)),
        entries_view(second) == timeline_of(samples_view(samples)),
    ensures
        entries_view(first) == entries_view(second),
{
}

/// Law: compacting is idempotent. A timeline, handed back newest first as if
/// its entries were samples, compacts to itself.
pub proof fn lemma_timeline_idempotent(newest_first: Seq<Dated>)
    ensures
        timeline_of(timeline_of(newest_first).reverse()) == timeline_of(newest_first),
{
    let timeline = timeline_of(newest_first);
    assert(timeline.reverse().reverse() =~= timeline);
    lemma_timeline_no_repeats(newest_first);
    lemma_changes_keeps_distinct(timeline);
}

/// Whether two versions are the same, the lack of a version being equal to
/// itself only.
pub fn same_version(a: &Option<String>, b: &Option<String>) -> (same: bool)
    ensures
        same == (optional_text(*a) == optional_text(*b)),
{
    match (a, b) {
        (Some(x), Some(y)) => text_eq(x.as_str(), y.as_str()),
        (None, None) => true,
        _ => false,
    }
}

/// Collapses the samples of a history, which come newest first, into the
/// timeline of version changes, oldest first.
pub fn compact(samples: &Vec<Sample>) -> (timeline: Vec<TimelineEntry>)
    ensures
        entries_view(timeline@) == timeline_of(samples_view(samples@)),
        no_repeats(entries_view(timeline@)),
        is_newest_first(samples_view(samples@)) ==> is_oldest_first(entries_view(timeline@)),
{
    let n = samples.len();
    let ghost oldest_first = samples_view(samples@).reverse();
    let mut timeline: Vec<TimelineEntry> = Vec::new();
    let mut i: usize = n;
    proof {
        assert(oldest_first.take(0) =~= Seq::<Dated>::empty());
    }
    while i > 0
        invariant
            n == samples@.len(),
            i <= n,
            oldest_first == samples_view(samples@).reverse(),
            entries_view(timeline@) == changes(oldest_first.take(n - i)),
        decreases i,
    {
        i -= 1;
        let sample = &samples[i];
        let changed = if i + 1 == n {
            true
        } else {
            !same_version(&samples[i + 1].version, &sample.version)
        };
        let ghost seen = oldest_first.take(n - i);
        proof {
            assert(seen.drop_last() =~= oldest_first.take(n - i - 1));
            assert(seen.last() == samples@[i as int]@);
            if i + 1 < n {
                assert(seen[seen.len() - 2] == samples@[i + 1]@);
            }
        }
        if changed {
            let version = match &sample.version {
                Some(v) => Some(v.clone()),
                None => None,
            };
            let ghost before = entries_view(timeline@);
            timeline.push(TimelineEntry { version, timestamp: sample.timestamp });
            proof {
                assert(entries_view(timeline@) =~= before.push(seen.last()));
            }
        }
    }
    proof {
        assert(oldest_first.take(n as int) =~= oldest_first);
        lemma_timeline_no_repeats(samples_view(samples@));
        if is_newest_first(samples_view(samples@)) {
            lemma_timeline_oldest_first(samples_view(samples@));
        }
    }
    timeline
}

} // verus!

//! The history filter: which commits of a walk changed the lock file, and the
//! timeline that their samples give.

use vstd::prelude::*;
use crate::sampler::{sample_view, sampled, search_in_file, Dated, Sample, SampleError};
use crate::timeline::{
    compact, entries_view, is_newest_first, is_oldest_first, lemma_timeline_no_repeats,
    lemma_timeline_oldest_first, no_repeats, samples_view, timeline_of, TimelineEntry,
};

verus! {

/// Whether a commit is one that introduced a state of the lock file. A commit
/// without a parent always is. Any other commit is one exactly if the
/// difference between its first parent's tree and its own, taken at the lock
/// file's path alone, holds at least one change. `first_parent_changes` is
/// `None` for a commit without a parent, else the number of those changes.
pub open spec fn qualifies(first_parent_changes: Option<usize>) -> bool {
    match first_parent_changes {
        None => true,
        Some(changes) => changes > 0,
    }
}

/// The positions of the qualifying commits of a walk, in the walk's order.
pub open spec fn qualifying(walk: Seq<Option<usize>>) -> Seq<int>
    decreases walk.len(),
{
    if walk.len() == 0 {
        Seq::empty()
    } else {
        let before = qualifying(walk.drop_last());
        if qualifies(walk.last()) {
            before.push(walk.len() - 1)
        } else {
            before
        }
    }
}

/// Positions as mathematical integers.
pub open spec fn positions(picked: Seq<usize>) -> Seq<int> {
    Seq::new(picked.len(), |k: int| picked[k] as int)
}

/// Law: `qualifying` lists positions of the walk in rising order, each of a
/// commit that qualifies, and leaves no qualifying commit out.
pub proof fn lemma_qualifying_is_exact(walk: Seq<Option<usize>>)
    ensures
        forall|k: int|
            0 <= k < qualifying(walk).len() ==> 0 <= (#[trigger] qualifying(walk)[k]) < walk.len()
                && qualifies(walk[qualifying(walk)[k]]),
        forall|j: int, k: int|
            0 <= j < k < qualifying(walk).len() ==> (#[trigger] qualifying(walk)[j]) < (
            #[trigger] qualifying(walk)[k]),
        forall|i: int|
            0 <= i < walk.len() && qualifies(#[trigger] walk[i]) ==> qualifying(walk).contains(i),
    decreases walk.len(),
{
    let all = qualifying(walk);
    if walk.len() > 0 {
        let shorter = walk.drop_last();
        let before = qualifying(shorter);
        let at = walk.len() - 1;
        lemma_qualifying_is_exact(shorter);
        assert forall|k: int| 0 <= k < all.len() implies 0 <= (#[trigger] all[k]) < walk.len()
            && qualifies(walk[all[k]]) by {
            if k < before.len() {
                assert(all[k] == before[k]);
                assert(walk[before[k]] == shorter[before[k]]);
            }
        }
        assert forall|j: int, k: int| 0 <= j < k < all.len() implies (#[trigger] all[j]) < (
        #[trigger] all[k]) by {
            assert(all[j] == before[j]);
            if k < before.len() {
                assert(all[k] == before[k]);
            }
        }
        assert forall|i: int| 0 <= i < walk.len() && qualifies(#[trigger] walk[i]) implies all.contains(
            i,
        ) by {
            if i < at {
                assert(shorter[i] == walk[i]);
                let k = choose|k: int| 0 <= k < before.len() && before[k] == i;
                assert(all[k] == i);
            } else {
                assert(all[all.len() - 1] == i);
            }
        }
    }
}

/// Law: a history of one commit, which then has no parent, has that commit
/// as its one qualifying commit.
pub proof fn lemma_single_root_qualifies()
    ensures
        qualifying(seq![None]) == seq![0int],
{
    let walk: Seq<Option<usize>> = seq![None];
    assert(qualifying(walk.drop_last()).len() == 0);
    assert(qualifying(walk) =~= seq![0int]);
}

/// Law: a commit without a parent is always among the qualifying commits.
pub proof fn lemma_root_commit_is_kept(walk: Seq<Option<usize>>, i: int)
    requires
        0 <= i < walk.len(),
        walk[i] is None,
    ensures
        qualifying(walk).contains(i),
{
    lemma_qualifying_is_exact(walk);
}

/// Law: a commit that leaves the lock file as its first parent had it is
/// never among the qualifying commits.
pub proof fn lemma_unchanged_commit_is_left_out(walk: Seq<Option<usize>>, i: int)
    requires
        0 <= i < walk.len(),
        walk[i] == Some(0usize),
    ensures
        !qualifying(walk).contains(i),
{
    lemma_qualifying_is_exact(walk);
    if qualifying(walk).contains(i) {
        let k = choose|k: int| 0 <= k < qualifying(walk).len() && qualifying(walk)[k] == i;
        assert(qualifies(walk[qualifying(walk)[k]]));
    }
}

/// Whether a commit qualifies, by the number of changes against its first
/// parent at the lock file's path (`None`: the commit has no parent).
pub fn is_qualifying(first_parent_changes: Option<usize>) -> (keep: bool)
    ensures
        keep == qualifies(first_parent_changes),
{
    match first_parent_changes {
        None => true,
        Some(changes) => changes > 0,
    }
}

/// Filters a walk through history down to the commits that changed the lock
/// file. `walk` holds, for every commit in the order of the walk, the number
/// of changes against its first parent at the lock file's path, or `None`
/// for a commit without a parent. The result holds the positions of the
/// qualifying commits, in the same order.
pub fn get_commits_for_file(walk: &Vec<Option<usize>>) -> (picked: Vec<usize>)
    ensures
        positions(picked@) == qualifying(walk@),
{
    let mut picked: Vec<usize> = Vec::new();
    let mut i: usize = 0;
    proof {
        assert(walk@.take(0) =~= Seq::<Option<usize>>::empty());
        assert(positions(picked@) =~= Seq::<int>::empty());
    }
    while i < walk.len()
        invariant
            i <= walk@.len(),
            positions(picked@) == qualifying(walk@.take(i as int)),
        decreases walk@.len() - i,
    {
        let ghost seen = walk@.take(i + 1);
        let ghost before = positions(picked@);
        proof {
            assert(seen.drop_last() =~= walk@.take(i as int));
            assert(seen.last() == walk@[i as int]);
        }
        if is_qualifying(walk[i]) {
            picked.push(i);
            proof {
                assert(positions(picked@) =~= before.push(i as int));
            }
        }
        i += 1;
    }
    proof {
        assert(walk@.take(i as int) =~= walk@);
    }
    picked
}

/// What a walk records of one commit.
#[derive(Debug, Clone, PartialEq, Eq)]
pub struct CommitRecord {
    /// The number of changes at the lock file's path between the tree of the
    /// first parent and this commit's tree; `None` for a commit without a parent.
    pub first_parent_changes: Option<usize>,
    /// The content found at the lock file's path in this commit's tree, if any.
    pub blob: Option<Vec<u8>>,
    /// The commit's time, in seconds since the Unix epoch.
    pub timestamp: i64,
}

/// A [`CommitRecord`] as mathematical values.
pub struct CommitModel {
    pub first_parent_changes: Option<usize>,
    pub blob: Option<Seq<u8>>,
    pub timestamp: i64,
}

impl View for CommitRecord {
    type V = CommitModel;

    open spec fn view(&self) -> CommitModel {
        CommitModel {
            first_parent_changes: self.first_parent_changes,
            blob: match self.blob {
                Some(bytes) => Some(bytes@),
                None => None,
            },
            timestamp: self.timestamp,
        }
    }
}

/// What a history stands for, commit by commit.
pub open spec fn history_view(history: Seq<CommitRecord>) -> Seq<CommitModel> {
    Seq::new(history.len(), |i: int| history[i]@)
}

/// For every commit of a history, the changes against its first parent.
pub open spec fn changes_of(history: Seq<CommitModel>) -> Seq<Option<usize>> {
    Seq::new(history.len(), |i: int| history[i].first_parent_changes)
}

/// A list of samples after one more outcome: a sample is added at the end, a
/// failure leaves the list as it was.
pub open spec fn with_outcome(samples: Seq<Dated>, outcome: Result<Dated, SampleError>) -> Seq<
    Dated,
> {
    match outcome {
        Ok(sample) => samples.push(sample),
        Err(_) => samples,
    }
}

/// The samples of the commits at the `picked` positions of a history: each
/// commit is sampled on its own, and one that yields no sample is passed over.
pub open spec fn samples_of(
    history: Seq<CommitModel>,
    picked: Seq<int>,
    file_name: Seq<char>,
    library: Seq<char>,
) -> Seq<Dated>
    decreases picked.len(),
{
    if picked.len() == 0 {
        Seq::empty()
    } else {
        let commit = history[picked.last()];
        with_outcome(
            samples_of(history, picked.drop_last(), file_name, library),
            sampled(commit.blob, file_name, library, commit.timestamp),
        )
    }
}

/// The timeline of `library` over a history that is given newest first:
/// filter the commits, sample those that qualify, compact the samples.
pub open spec fn history_timeline(
    history: Seq<CommitModel>,
    file_name: Seq<char>,
    library: Seq<char>,
) -> Seq<Dated> {
    timeline_of(samples_of(history, qualifying(changes_of(history)), file_name, library))
}

/// Law: in a history of a single commit, which then has no parent, that
/// commit is the one that is sampled.
pub proof fn lemma_single_commit_is_sampled(
    commit: CommitModel,
    file_name: Seq<char>,
    library: Seq<char>,
)
    requires
        commit.first_parent_changes is None,
    ensures
        samples_of(seq![commit], qualifying(changes_of(seq![commit])), file_name, library)
            == with_outcome(
            Seq::empty(),
            sampled(commit.blob, file_name, library, commit.timestamp),
        ),
{
    let history = seq![commit];
    assert(changes_of(history) =~= seq![None]);
    lemma_single_root_qualifies();
    let picked = seq![0int];
    assert(picked.drop_last() =~= Seq::<int>::empty());
    assert(samples_of(history, picked.drop_last(), file_name, library) =~= Seq::<Dated>::empty());
}

/// Law: a commit that yields no sample is passed over, and the samples of
/// the commits before and after it stand as if it had not been visited.
pub proof fn lemma_failed_commit_is_passed_over(
    history: Seq<CommitModel>,
    before: Seq<int>,
    at: int,
    after: Seq<int>,
    file_name: Seq<char>,
    library: Seq<char>,
)
    requires
        sampled(history[at].blob, file_name, library, history[at].timestamp) is Err,
    ensures
        samples_of(history, before.push(at) + after, file_name, library) == samples_of(
            history,
            before + after,
            file_name,
            library,
        ),
    decreases after.len(),
{
    let with = before.push(at) + after;
    let without = before + after;
    if after.len() == 0 {
        assert(with =~= before.push(at));
        assert(without =~= before);
        assert(with.drop_last() =~= before);
    } else {
        let shorter = after.drop_last();
        lemma_failed_commit_is_passed_over(history, before, at, shorter, file_name, library);
        assert(with.drop_last() =~= before.push(at) + shorter);
        assert(without.drop_last() =~= before + shorter);
        assert(with.last() == after.last());
        assert(without.last() == after.last());
    }
}

/// The commits of a history come in descending time, as a walk sorted by
/// time hands them out: times never increase along the history.
pub open spec fn is_descending(history: Seq<CommitModel>) -> bool {
    forall|i: int, j: int|
        0 <= i <= j < history.len() ==> (#[trigger] history[i]).timestamp >= (
        #[trigger] history[j]).timestamp
}

/// Positions of a history, each after the one before it.
pub open spec fn is_rising(picked: Seq<int>, bound: int) -> bool {
    &&& forall|k: int| 0 <= k < picked.len() ==> 0 <= (#[trigger] picked[k]) < bound
    &&& forall|j: int, k: int|
        0 <= j < k < picked.len() ==> (#[trigger] picked[j]) < (#[trigger] picked[k])
}

/// The samples of rising positions of a history in descending time come
/// newest first, and none of them is older than the commit at the last position.
proof fn lemma_samples_newest_first(
    history: Seq<CommitModel>,
    picked: Seq<int>,
    file_name: Seq<char>,
    library: Seq<char>,
)
    requires
        is_descending(history),
        is_rising(picked, history.len() as int),
    ensures
        is_newest_first(samples_of(history, picked, file_name, library)),
        picked.len() > 0 ==> forall|k: int|
            0 <= k < samples_of(history, picked, file_name, library).len() ==> (
            #[trigger] samples_of(history, picked, file_name, library)[k]).timestamp
                >= history[picked.last()].timestamp,
    decreases picked.len(),
{
    if picked.len() > 0 {
        let all = samples_of(history, picked, file_name, library);
        let earlier = picked.drop_last();
        let before = samples_of(history, earlier, file_name, library);
        let commit = history[picked.last()];
        assert(is_rising(earlier, history.len() as int)) by {
            assert forall|k: int| 0 <= k < earlier.len() implies 0 <= (#[trigger] earlier[k])
                < history.len() by {
                assert(earlier[k] == picked[k]);
            }
            assert forall|j: int, k: int| 0 <= j < k < earlier.len() implies (
            #[trigger] earlier[j]) < (#[trigger] earlier[k]) by {
                assert(earlier[j] == picked[j] && earlier[k] == picked[k]);
            }
        }
        lemma_samples_newest_first(history, earlier, file_name, library);
        if earlier.len() > 0 {
            assert(earlier.last() == picked[picked.len() - 2]);
            assert(picked[picked.len() - 2] < picked[picked.len() - 1]);
            assert(history[earlier.last()].timestamp >= commit.timestamp);
        }
        assert forall|k: int| 0 <= k < all.len() implies (#[trigger] all[k]).timestamp
            >= commit.timestamp by {
            if k < before.len() {
                assert(all[k] == before[k]);
            }
        }
        assert forall|i: int, j: int| 0 <= i <= j < all.len() implies (#[trigger] all[i]).timestamp
            >= (#[trigger] all[j]).timestamp by {
            if j < before.len() {
                assert(all[i] == before[i] && all[j] == before[j]);
            } else if i < before.len() {
                assert(all[i] == before[i]);
            }
        }
    }
}

/// Law: no two consecutive entries of the timeline of a history have the same
/// version.
pub proof fn lemma_history_timeline_no_repeats(
    history: Seq<CommitModel>,
    file_name: Seq<char>,
    library: Seq<char>,
)
    ensures
        no_repeats(history_timeline(history, file_name, library)),
{
    lemma_timeline_no_repeats(
        samples_of(history, qualifying(changes_of(history)), file_name, library),
    );
}

/// Law: the times of the timeline of a history never decrease, provided that
/// the history comes in descending time.
pub proof fn lemma_history_timeline_oldest_first(
    history: Seq<CommitModel>,
    file_name: Seq<char>,
    library: Seq<char>,
)
    requires
        is_descending(history),
    ensures
        is_oldest_first(history_timeline(history, file_name, library)),
{
    let picked = qualifying(changes_of(history));
    lemma_qualifying_is_exact(changes_of(history));
    assert(is_rising(picked, history.len() as int));
    lemma_samples_newest_first(history, picked, file_name, library);
    lemma_timeline_oldest_first(samples_of(history, picked, file_name, library));
}

/// Takes the outcome of sampling one commit into the list of samples: a
/// sample is added at the end, a failure is dropped and the list stays as it is.
pub fn record_outcome(samples: &mut Vec<Sample>, outcome: Result<Sample, SampleError>)
    ensures
        samples_view(final(samples)@) == with_outcome(
            samples_view(old(samples)@),
            sample_view(outcome),
        ),
{
    let ghost before = samples_view(samples@);
    match outcome {
        Ok(sample) => {
            samples.push(sample);
            proof {
                assert(samples_view(samples@) =~= before.push(sample@));
            }
        },
        Err(_) => {},
    }
}

/// The timeline of `library` over a whole history. `history` lists the
/// commits newest first, as a walk in descending time visits them;
/// `file_name` is the bare name of the lock file.
pub fn library_timeline(history: &Vec<CommitRecord>, file_name: &str, library: &str) -> (timeline:
    Vec<TimelineEntry>)
    ensures
        entries_view(timeline@) == history_timeline(history_view(history@), file_name@, library@),
        no_repeats(entries_view(timeline@)),
        is_descending(history_view(history@)) ==> is_oldest_first(entries_view(timeline@)),
{
    let ghost commits = history_view(history@);
    let mut walk: Vec<Option<usize>> = Vec::new();
    let mut i: usize = 0;
    while i < history.len()
        invariant
            i <= history@.len(),
            commits == history_view(history@),
            walk@.len() == i,
            forall|k: int| 0 <= k < i ==> walk@[k] == commits[k].first_parent_changes,
        decreases history@.len() - i,
    {
        walk.push(history[i].first_parent_changes);
        i += 1;
    }
    proof {
        assert(walk@ =~= changes_of(commits));
    }
    let picked = get_commits_for_file(&walk);
    proof {
        lemma_qualifying_is_exact(walk@);
    }
    let ghost chosen = positions(picked@);
    let mut samples: Vec<Sample> = Vec::new();
    let mut k: usize = 0;
    proof {
        assert(chosen.take(0) =~= Seq::<int>::empty());
        assert(samples_view(samples@) =~= Seq::<Dated>::empty());
    }
    while k < picked.len()
        invariant
            k <= picked@.len(),
            commits == history_view(history@),
            chosen == positions(picked@),
            forall|j: int| 0 <= j < chosen.len() ==> 0 <= (#[trigger] chosen[j]) < history@.len(),
            samples_view(samples@) == samples_of(
                commits,
                chosen.take(k as int),
                file_name@,
                library@,
            ),
        decreases picked@.len() - k,
    {
        let at = picked[k];
        proof {
            assert(chosen[k as int] == at);
            let seen = chosen.take(k + 1);
            assert(seen.drop_last() =~= chosen.take(k as int));
            assert(seen.last() == at);
        }
        let commit = &history[at];
        let outcome = match &commit.blob {
            Some(bytes) => search_in_file(Some(bytes.as_slice()), file_name, library, commit.timestamp),
            None => search_in_file(None, file_name, library, commit.timestamp),
        };
        record_outcome(&mut samples, outcome);
        k += 1;
    }
    proof {
        assert(chosen.take(k as int) =~= chosen);
        if is_descending(commits) {
            lemma_history_timeline_oldest_first(commits, file_name@, library@);
        }
    }
    compact(&samples)
}

} // verus!

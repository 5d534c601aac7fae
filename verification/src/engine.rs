//! The per-file synchronization decision procedure and the run semantics
//! built from it.
//!
//! For every candidate file, in traversal order: normalize its root-relative
//! path; skip it when the index already holds the key; otherwise insert the
//! key first and only then attempt the read and the upload, so that a second
//! path normalizing to the same key within one run is never uploaded twice.
//! Per-file failures are contained: they are recorded as warnings and the
//! run continues. The cost of the early insertion is that a failed upload is
//! not retried within the same run.

use vstd::prelude::*;
use crate::index::RemoteIndex;
use crate::path_codec::{join_rec, normalize, segments_of, serialize};

verus! {

/// Why a file was skipped with a warning rather than uploaded.
#[derive(Clone, Copy, Debug, PartialEq, Eq, Structural)]
pub enum WarnReason {
    /// The file's contents could not be opened or read.
    ReadFailed,
    /// The put request against the remote store failed.
    UploadFailed,
}

/// The per-file result of one synchronization decision.
#[derive(Clone, Copy, Debug, PartialEq, Eq, Structural)]
pub enum UploadOutcome {
    /// The file was uploaded under its canonical key.
    Uploaded,
    /// A key with the same segment sequence was already indexed.
    SkippedAlreadyExists,
    /// The file was attempted but skipped; the run went on.
    SkippedWithWarning(WarnReason),
}

/// The mathematical shape of a candidate file: its root-relative path and
/// the result each I/O step against it would have.
pub ghost struct CandidateView {
    pub rel_path: Seq<char>,
    pub readable: bool,
    pub uploadable: bool,
}

/// A regular file yielded by the walk, together with the outcome its read
/// and its upload will have. The two flags stand for the I/O layer's answer:
/// a test harness sets them directly, a production driver learns them by
/// attempting the operations through `decide_upload` and `classify_attempt`.
pub struct CandidateFile {
    pub rel_path: String,
    pub readable: bool,
    pub uploadable: bool,
}

impl View for CandidateFile {
    type V = CandidateView;

    open spec fn view(&self) -> CandidateView {
        CandidateView { rel_path: self.rel_path@, readable: self.readable, uploadable: self.uploadable }
    }
}

/// The views of a sequence of candidate files.
pub open spec fn candidate_views(v: Seq<CandidateFile>) -> Seq<CandidateView> {
    v.map_values(|c: CandidateFile| c@)
}

/// The dedup key of a candidate: its normalized relative path.
pub open spec fn key_of(c: CandidateView) -> Seq<Seq<char>> {
    segments_of(c.rel_path)
}

/// The outcome the decision procedure records for one candidate against a
/// given index.
pub open spec fn outcome_of(index: Set<Seq<Seq<char>>>, c: CandidateView) -> UploadOutcome {
    if index.contains(key_of(c)) {
        UploadOutcome::SkippedAlreadyExists
    } else if !c.readable {
        UploadOutcome::SkippedWithWarning(WarnReason::ReadFailed)
    } else if !c.uploadable {
        UploadOutcome::SkippedWithWarning(WarnReason::UploadFailed)
    } else {
        UploadOutcome::Uploaded
    }
}

/// The index after one candidate: its key is inserted as soon as it is not
/// found, before the upload is attempted.
pub open spec fn index_after(index: Set<Seq<Seq<char>>>, c: CandidateView) -> Set<Seq<Seq<char>>> {
    index.insert(key_of(c))
}

/// The outcome of every candidate of a run, in traversal order.
pub open spec fn run_outcomes(index: Set<Seq<Seq<char>>>, cs: Seq<CandidateView>) -> Seq<
    UploadOutcome,
>
    decreases cs.len(),
{
    if cs.len() == 0 {
        Seq::empty()
    } else {
        seq![outcome_of(index, cs[0])] + run_outcomes(index_after(index, cs[0]), cs.drop_first())
    }
}

/// The index at the end of a run.
pub open spec fn run_index(index: Set<Seq<Seq<char>>>, cs: Seq<CandidateView>) -> Set<
    Seq<Seq<char>>,
>
    decreases cs.len(),
{
    if cs.len() == 0 {
        index
    } else {
        run_index(index_after(index, cs[0]), cs.drop_first())
    }
}

/// How many outcomes of a run are uploads.
pub open spec fn count_uploaded(s: Seq<UploadOutcome>) -> int
    decreases s.len(),
{
    if s.len() == 0 {
        0
    } else {
        count_uploaded(s.drop_last()) + (if s.last() is Uploaded {
            1int
        } else {
            0int
        })
    }
}

/// How many outcomes of a run are skips of already indexed keys.
pub open spec fn count_skipped(s: Seq<UploadOutcome>) -> int
    decreases s.len(),
{
    if s.len() == 0 {
        0
    } else {
        count_skipped(s.drop_last()) + (if s.last() is SkippedAlreadyExists {
            1int
        } else {
            0int
        })
    }
}

/// How many outcomes of a run are warnings.
pub open spec fn count_warned(s: Seq<UploadOutcome>) -> int
    decreases s.len(),
{
    if s.len() == 0 {
        0
    } else {
        count_warned(s.drop_last()) + (if s.last() is SkippedWithWarning {
            1int
        } else {
            0int
        })
    }
}

/// Steps 1 to 3 of the per-file procedure: normalize the relative path,
/// skip when the key is indexed, otherwise index it at once and hand back
/// the canonical serialized key to upload under.
pub fn decide_upload(index: &mut RemoteIndex, rel_path: &str) -> (r: Option<String>)
    requires
        old(index).wf(),
    ensures
        final(index).wf(),
        final(index)@ == old(index)@.insert(segments_of(rel_path@)),
        r is Some <==> !old(index)@.contains(segments_of(rel_path@)),
        r matches Some(k) ==> k@ == join_rec(segments_of(rel_path@)),
{
    let key = normalize(rel_path);
    if index.contains(&key) {
        proof {
            assert(old(index)@.insert(segments_of(rel_path@)) =~= old(index)@);
        }
        None
    } else {
        let canonical = serialize(&key);
        index.insert(key);
        Some(canonical)
    }
}

/// Steps 4 to 6: the outcome recorded once the read and the upload have
/// been attempted for a file whose key was newly indexed.
pub fn classify_attempt(readable: bool, uploadable: bool) -> (o: UploadOutcome)
    ensures
        o == (if !readable {
            UploadOutcome::SkippedWithWarning(WarnReason::ReadFailed)
        } else if !uploadable {
            UploadOutcome::SkippedWithWarning(WarnReason::UploadFailed)
        } else {
            UploadOutcome::Uploaded
        }),
{
    if !readable {
        UploadOutcome::SkippedWithWarning(WarnReason::ReadFailed)
    } else if !uploadable {
        UploadOutcome::SkippedWithWarning(WarnReason::UploadFailed)
    } else {
        UploadOutcome::Uploaded
    }
}

/// The whole per-file decision procedure for one candidate.
pub fn sync_entry(index: &mut RemoteIndex, entry: &CandidateFile) -> (o: UploadOutcome)
    requires
        old(index).wf(),
    ensures
        final(index).wf(),
        final(index)@ == index_after(old(index)@, entry@),
        o == outcome_of(old(index)@, entry@),
{
    match decide_upload(index, entry.rel_path.as_str()) {
        Option::None => {
            proof {
                assert(old(index)@.insert(key_of(entry@)) =~= old(index)@);
            }
            UploadOutcome::SkippedAlreadyExists
        },
        Option::Some(_canonical_key) => classify_attempt(entry.readable, entry.uploadable),
    }
}

/// The aggregate of one run, for operator visibility only: it carries no
/// control-flow significance.
pub struct SyncReport {
    /// One outcome per candidate, in traversal order.
    pub outcomes: Vec<UploadOutcome>,
    /// How many files were uploaded.
    pub uploaded: usize,
    /// How many files were skipped as already present.
    pub skipped: usize,
    /// How many files were skipped with a warning.
    pub warned: usize,
}

/// Runs the decision procedure over every candidate, in traversal order.
/// Per-file failures never abort the run: every candidate gets an outcome.
pub fn sync_entries(index: &mut RemoteIndex, entries: &Vec<CandidateFile>) -> (r: SyncReport)
    requires
        old(index).wf(),
    ensures
        final(index).wf(),
        final(index)@ == run_index(old(index)@, candidate_views(entries@)),
        r.outcomes@ == run_outcomes(old(index)@, candidate_views(entries@)),
        r.uploaded == count_uploaded(r.outcomes@),
        r.skipped == count_skipped(r.outcomes@),
        r.warned == count_warned(r.outcomes@),
{
    let ghost cs = candidate_views(entries@);
    let n = entries.len();
    let mut outcomes: Vec<UploadOutcome> = Vec::new();
    let mut uploaded: usize = 0;
    let mut skipped: usize = 0;
    let mut warned: usize = 0;
    let mut i: usize = 0;
    proof {
        assert(cs.skip(0) =~= cs);
    }
    while i < n
        invariant
            n == entries@.len(),
            i <= n,
            cs == candidate_views(entries@),
            index.wf(),
            outcomes@.len() == i,
            outcomes@ + run_outcomes(index@, cs.skip(i as int)) == run_outcomes(old(index)@, cs),
            run_index(index@, cs.skip(i as int)) == run_index(old(index)@, cs),
            uploaded == count_uploaded(outcomes@),
            skipped == count_skipped(outcomes@),
            warned == count_warned(outcomes@),
            uploaded <= i && skipped <= i && warned <= i,
        decreases n - i,
    {
        let ghost rest = cs.skip(i as int);
        proof {
            assert(rest.len() > 0);
            assert(rest[0] == cs[i as int]);
            assert(rest.drop_first() =~= cs.skip(i + 1));
        }
        let o = sync_entry(index, &entries[i]);
        let ghost prev = outcomes@;
        outcomes.push(o);
        proof {
            assert(outcomes@.drop_last() =~= prev);
            assert(outcomes@.last() == o);
            assert(outcomes@ + run_outcomes(index@, cs.skip(i + 1)) =~= run_outcomes(
                old(index)@,
                cs,
            ));
        }
        match o {
            UploadOutcome::Uploaded => {
                uploaded += 1;
            },
            UploadOutcome::SkippedAlreadyExists => {
                skipped += 1;
            },
            UploadOutcome::SkippedWithWarning(_) => {
                warned += 1;
            },
        }
        i += 1;
    }
    proof {
        assert(cs.skip(n as int) =~= Seq::<CandidateView>::empty());
        assert(outcomes@ + run_outcomes(index@, cs.skip(n as int)) =~= outcomes@);
    }
    SyncReport { outcomes, uploaded, skipped, warned }
}

/// A run records exactly one outcome per candidate: no per-file failure can
/// shorten or abort it.
pub proof fn lemma_run_length(index: Set<Seq<Seq<char>>>, cs: Seq<CandidateView>)
    ensures
        run_outcomes(index, cs).len() == cs.len(),
    decreases cs.len(),
{
    if cs.len() > 0 {
        lemma_run_length(index_after(index, cs[0]), cs.drop_first());
    }
}

/// The index never shrinks within a run.
pub proof fn lemma_run_index_superset(index: Set<Seq<Seq<char>>>, cs: Seq<CandidateView>)
    ensures
        index.subset_of(run_index(index, cs)),
    decreases cs.len(),
{
    if cs.len() > 0 {
        lemma_run_index_superset(index_after(index, cs[0]), cs.drop_first());
    }
}

/// After a run, the index holds the key of every candidate the run saw,
/// whether it was skipped, warned about, or uploaded.
pub proof fn lemma_run_index_contains(index: Set<Seq<Seq<char>>>, cs: Seq<CandidateView>, j: int)
    requires
        0 <= j < cs.len(),
    ensures
        run_index(index, cs).contains(key_of(cs[j])),
    decreases j,
{
    if j == 0 {
        lemma_run_index_superset(index_after(index, cs[0]), cs.drop_first());
    } else {
        lemma_run_index_contains(index_after(index, cs[0]), cs.drop_first(), j - 1);
        assert(cs.drop_first()[j - 1] == cs[j]);
    }
}

/// The outcome of the candidate at position `j` is decided against the
/// index as it stands after the candidates before `j`.
pub proof fn lemma_run_outcome_at(index: Set<Seq<Seq<char>>>, cs: Seq<CandidateView>, j: int)
    requires
        0 <= j < cs.len(),
    ensures
        run_outcomes(index, cs).len() == cs.len(),
        run_outcomes(index, cs)[j] == outcome_of(run_index(index, cs.take(j)), cs[j]),
    decreases j,
{
    lemma_run_length(index, cs);
    if j == 0 {
        assert(cs.take(0) =~= Seq::<CandidateView>::empty());
        assert(run_outcomes(index, cs)[0] == outcome_of(index, cs[0]));
    } else {
        let ia = index_after(index, cs[0]);
        lemma_run_outcome_at(ia, cs.drop_first(), j - 1);
        lemma_run_length(ia, cs.drop_first());
        assert(run_outcomes(index, cs)[j] == run_outcomes(ia, cs.drop_first())[j - 1]);
        assert(cs.drop_first()[j - 1] == cs[j]);
        assert(cs.take(j)[0] == cs[0]);
        assert(cs.take(j).drop_first() =~= cs.drop_first().take(j - 1));
        assert(run_index(index, cs.take(j)) == run_index(ia, cs.drop_first().take(j - 1)));
    }
}

/// At most one upload per key within a run: of two candidates whose paths
/// normalize to the same key, the later one is always skipped as already
/// existing, whatever became of the earlier one.
pub proof fn lemma_same_key_uploaded_once(
    index: Set<Seq<Seq<char>>>,
    cs: Seq<CandidateView>,
    j1: int,
    j2: int,
)
    requires
        0 <= j1 < j2 < cs.len(),
        key_of(cs[j1]) == key_of(cs[j2]),
    ensures
        run_outcomes(index, cs).len() == cs.len(),
        run_outcomes(index, cs)[j2] is SkippedAlreadyExists,
{
    lemma_run_outcome_at(index, cs, j2);
    assert(cs.take(j2)[j1] == cs[j1]);
    lemma_run_index_contains(index, cs.take(j2), j1);
}

/// Failure containment: a file whose contents cannot be read is recorded
/// as a warning, and the run still gives every other candidate its
/// outcome — nothing aborts.
pub proof fn lemma_read_failure_contained(
    index: Set<Seq<Seq<char>>>,
    cs: Seq<CandidateView>,
    j: int,
)
    requires
        0 <= j < cs.len(),
        !run_index(index, cs.take(j)).contains(key_of(cs[j])),
        !cs[j].readable,
    ensures
        run_outcomes(index, cs).len() == cs.len(),
        run_outcomes(index, cs)[j] == UploadOutcome::SkippedWithWarning(WarnReason::ReadFailed),
{
    lemma_run_outcome_at(index, cs, j);
}

/// A sequence of outcomes without an upload counts zero uploads.
proof fn lemma_count_uploaded_zero(s: Seq<UploadOutcome>)
    requires
        forall|j: int| 0 <= j < s.len() ==> !((#[trigger] s[j]) is Uploaded),
    ensures
        count_uploaded(s) == 0,
    decreases s.len(),
{
    if s.len() > 0 {
        lemma_count_uploaded_zero(s.drop_last());
    }
}

/// Against an index that already holds every candidate's key, a run skips
/// everything and changes nothing.
pub proof fn lemma_all_present_skips(index: Set<Seq<Seq<char>>>, cs: Seq<CandidateView>)
    requires
        forall|j: int| 0 <= j < cs.len() ==> index.contains(key_of(#[trigger] cs[j])),
    ensures
        run_outcomes(index, cs).len() == cs.len(),
        forall|j: int|
            0 <= j < cs.len() ==> (#[trigger] run_outcomes(index, cs)[j])
                is SkippedAlreadyExists,
        count_uploaded(run_outcomes(index, cs)) == 0,
        run_index(index, cs) == index,
    decreases cs.len(),
{
    lemma_run_length(index, cs);
    if cs.len() == 0 {
        lemma_count_uploaded_zero(run_outcomes(index, cs));
    } else {
        assert(index.contains(key_of(cs[0])));
        assert(index_after(index, cs[0]) =~= index);
        assert(forall|j: int|
            0 <= j < cs.drop_first().len() ==> index.contains(
                key_of(#[trigger] cs.drop_first()[j]),
            ));
        lemma_all_present_skips(index, cs.drop_first());
        assert forall|j: int| 0 <= j < cs.len() implies (#[trigger] run_outcomes(index, cs)[j])
            is SkippedAlreadyExists by {
            if j > 0 {
                assert(run_outcomes(index, cs)[j] == run_outcomes(index, cs.drop_first())[j - 1]);
            }
        }
        lemma_count_uploaded_zero(run_outcomes(index, cs));
    }
}

/// Idempotence: a second full run over the same candidates, against the
/// index a first failure-free run left behind (which then matches the
/// remote store), uploads nothing and leaves the index as it was.
pub proof fn lemma_sync_idempotent(index: Set<Seq<Seq<char>>>, cs: Seq<CandidateView>)
    requires
        forall|j: int|
            0 <= j < cs.len() ==> ((#[trigger] cs[j]).readable && cs[j].uploadable),
    ensures
        count_uploaded(run_outcomes(run_index(index, cs), cs)) == 0,
        run_index(run_index(index, cs), cs) == run_index(index, cs),
{
    let after = run_index(index, cs);
    assert forall|j: int| 0 <= j < cs.len() implies after.contains(key_of(#[trigger] cs[j])) by {
        lemma_run_index_contains(index, cs, j);
    }
    lemma_all_present_skips(after, cs);
}

} // verus!

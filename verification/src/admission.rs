//! The admission loop: candidates are sampled and filtered until the quota
//! of admissible draws is met.

use crate::corpus::{select_corpus, selected, Corpus};
use crate::draw::{ball_sum, is_ascending, is_valid_draw, MegaSena};
use crate::generator::generate_mega_sena;
use crate::overlap::{blocked, draws, is_blocked};
use crate::sum_range::{
    admits_sum, estimate, estimate_sum_range, is_void, AdmissibleRange, BASELINE_MIN_SUM,
};
use vstd::prelude::*;

verus! {

/// How many numbers a candidate may share with a past draw before it is
/// too similar: with this many or more it is rejected.
pub const OVERLAP_THRESHOLD: u8 = 4;

/// How many admissible draws one run collects.
pub const DESIRED_GAMES: u8 = 10;

/// The constants of one generation run.
#[derive(Debug, Clone, Copy, PartialEq, Eq, Structural)]
pub struct GenerationConfig {
    /// A candidate sharing this many numbers with a past draw is rejected.
    pub overlap_threshold: u8,
    /// How many admissible draws to collect.
    pub quota: u8,
    /// Where the lower bound of the sum range starts.
    pub baseline_min_sum: i64,
    /// Which records of the history the overlap filter compares with.
    pub comparison: Corpus,
}

impl GenerationConfig {
    /// The reference values: threshold four, quota ten, baseline 346, and
    /// every record of the history compared with.
    pub fn reference() -> (r: Self)
        ensures
            r.overlap_threshold == OVERLAP_THRESHOLD,
            r.quota == DESIRED_GAMES,
            r.baseline_min_sum == BASELINE_MIN_SUM,
            r.comparison == Corpus::AllRecords,
    {
        GenerationConfig {
            overlap_threshold: OVERLAP_THRESHOLD,
            quota: DESIRED_GAMES,
            baseline_min_sum: BASELINE_MIN_SUM,
            comparison: Corpus::AllRecords,
        }
    }

    /// The records that a run with these constants compares candidates
    /// with.
    pub open spec fn compared(&self, history: Seq<MegaSena>) -> Seq<Seq<Option<int>>> {
        draws(selected(history, self.comparison))
    }

    /// The sum range of a run with these constants.
    pub open spec fn range_of(&self, history: Seq<MegaSena>) -> (int, int) {
        estimate(history, self.baseline_min_sum as int)
    }
}

/// What the filters say of one candidate.
#[derive(Debug, Clone, Copy, PartialEq, Eq, Structural)]
pub enum Verdict {
    /// Both filters passed.
    Accepted,
    /// Too many numbers shared with one past draw.
    RejectedByOverlap,
    /// The sum does not lie strictly inside the admissible range.
    RejectedBySum,
}

/// The verdict on a candidate: the overlap filter is asked first, the sum
/// range second.
pub open spec fn verdict_on(
    candidate: Seq<Option<int>>,
    history: Seq<Seq<Option<int>>>,
    threshold: int,
    range: (int, int),
) -> Verdict {
    if blocked(candidate, history, threshold) {
        Verdict::RejectedByOverlap
    } else if !admits_sum(range, ball_sum(candidate)) {
        Verdict::RejectedBySum
    } else {
        Verdict::Accepted
    }
}

/// A candidate is admissible when no past draw blocks it and its sum lies
/// strictly inside the range.
pub open spec fn admissible(
    candidate: Seq<Option<int>>,
    history: Seq<Seq<Option<int>>>,
    threshold: int,
    range: (int, int),
) -> bool {
    !blocked(candidate, history, threshold) && admits_sum(range, ball_sum(candidate))
}

/// Every draw of the batch is admissible.
pub open spec fn all_admissible(
    batch: Seq<MegaSena>,
    history: Seq<Seq<Option<int>>>,
    threshold: int,
    range: (int, int),
) -> bool {
    forall|i: int| 0 <= i < batch.len() ==> admissible(#[trigger] batch[i]@, history, threshold, range)
}

/// Every draw of the batch is playable: six different numbers between one
/// and sixty.
pub open spec fn all_playable(batch: Seq<MegaSena>) -> bool {
    forall|i: int| 0 <= i < batch.len() ==> is_valid_draw((#[trigger] batch[i])@)
}

/// Puts one candidate through the filters.
pub fn evaluate(
    candidate: &MegaSena,
    history: &Vec<MegaSena>,
    threshold: u8,
    range: &AdmissibleRange,
) -> (verdict: Verdict)
    ensures
        verdict == verdict_on(candidate@, draws(history@), threshold as int, range@),
        verdict == Verdict::Accepted <==> admissible(
            candidate@,
            draws(history@),
            threshold as int,
            range@,
        ),
{
    if is_blocked(candidate, history, threshold) {
        Verdict::RejectedByOverlap
    } else if !range.admits(candidate.sum()) {
        Verdict::RejectedBySum
    } else {
        Verdict::Accepted
    }
}

/// Where a run stands between two candidates.
#[derive(Debug, Clone, Copy, PartialEq, Eq, Structural)]
pub enum AdmissionState {
    /// The batch is not full: the next candidate is awaited.
    Sampling,
    /// The batch is full: the run is over.
    QuotaMet,
}

/// One generation run: the history it filters against, the records of it
/// that candidates are compared with, the range derived from the history
/// once, and the batch of draws accepted so far.
pub struct AdmissionLoop<'a> {
    history: &'a Vec<MegaSena>,
    corpus: Vec<MegaSena>,
    config: GenerationConfig,
    range: AdmissibleRange,
    batch: Vec<MegaSena>,
}

impl<'a> AdmissionLoop<'a> {
    /// The history that the run filters against.
    pub closed spec fn history(&self) -> Seq<MegaSena> {
        self.history@
    }

    /// The constants of the run.
    pub closed spec fn config(&self) -> GenerationConfig {
        self.config
    }

    /// The admissible range of the run.
    pub closed spec fn range(&self) -> (int, int) {
        self.range@
    }

    /// The records that the run compares candidates with.
    pub closed spec fn corpus(&self) -> Seq<MegaSena> {
        self.corpus@
    }

    /// The draws accepted so far, oldest first.
    pub closed spec fn batch(&self) -> Seq<MegaSena> {
        self.batch@
    }

    /// How many draws are still wanted.
    pub open spec fn remaining(&self) -> int {
        self.config().quota - self.batch().len()
    }

    /// What holds of a run at all times: the range is the one its history
    /// gives, the records compared with are those that its constants select,
    /// the batch is no larger than the quota, and every draw in it is
    /// playable and admissible.
    pub open spec fn wf(&self) -> bool {
        &&& self.range() == self.config().range_of(self.history())
        &&& self.corpus() == selected(self.history(), self.config().comparison)
        &&& self.batch().len() <= self.config().quota
        &&& all_playable(self.batch())
        &&& all_admissible(
            self.batch(),
            self.config().compared(self.history()),
            self.config().overlap_threshold as int,
            self.range(),
        )
    }

    /// Starts a run on a history: derives the sum range, selects the
    /// records to compare with, and opens an empty batch.
    pub fn start(history: &'a Vec<MegaSena>, config: GenerationConfig) -> (run: Self)
        ensures
            run.wf(),
            run.history() == history@,
            run.config() == config,
            run.batch() == Seq::<MegaSena>::empty(),
    {
        let range = estimate_sum_range(history, config.baseline_min_sum);
        let corpus = select_corpus(history, config.comparison);
        AdmissionLoop { history, corpus, config, range, batch: Vec::new() }
    }

    /// The admissible range of the run.
    pub fn sum_range(&self) -> (r: AdmissibleRange)
        ensures
            r@ == self.range(),
    {
        self.range
    }

    /// How many draws are still wanted.
    pub fn games_remaining(&self) -> (r: u8)
        requires
            self.wf(),
        ensures
            r == self.remaining(),
    {
        self.config.quota - (self.batch.len() as u8)
    }

    /// Where the run stands.
    pub fn state(&self) -> (r: AdmissionState)
        requires
            self.wf(),
        ensures
            r == AdmissionState::QuotaMet <==> self.remaining() == 0,
            r == AdmissionState::Sampling <==> self.remaining() > 0,
    {
        if self.batch.len() >= self.config.quota as usize {
            AdmissionState::QuotaMet
        } else {
            AdmissionState::Sampling
        }
    }

    /// Filters one candidate, which must be a playable draw. An accepted
    /// candidate joins the batch, so that one draw fewer remains wanted; a
    /// rejected one is dropped and nothing changes.
    pub fn offer(&mut self, candidate: MegaSena) -> (verdict: Verdict)
        requires
            old(self).wf(),
            old(self).remaining() > 0,
            is_valid_draw(candidate@),
        ensures
            final(self).wf(),
            final(self).history() == old(self).history(),
            final(self).config() == old(self).config(),
            final(self).range() == old(self).range(),
            verdict == verdict_on(
                candidate@,
                old(self).config().compared(old(self).history()),
                old(self).config().overlap_threshold as int,
                old(self).range(),
            ),
            verdict == Verdict::Accepted ==> final(self).batch() == old(self).batch().push(
                candidate,
            ),
            verdict != Verdict::Accepted ==> final(self).batch() == old(self).batch(),
    {
        let verdict = evaluate(
            &candidate,
            &self.corpus,
            self.config.overlap_threshold,
            &self.range,
        );
        if let Verdict::Accepted = verdict {
            self.batch.push(candidate);
        }
        verdict
    }

    /// Hands out the batch once the quota is met.
    pub fn into_batch(self) -> (batch: Vec<MegaSena>)
        requires
            self.wf(),
            self.remaining() == 0,
        ensures
            batch@ == self.batch(),
            batch@.len() == self.config().quota,
            all_playable(batch@),
            all_admissible(
                batch@,
                self.config().compared(self.history()),
                self.config().overlap_threshold as int,
                self.range(),
            ),
    {
        self.batch
    }
}

/// Why a run ended without a full batch.
#[derive(Debug, Clone, Copy, PartialEq, Eq, Structural)]
pub enum GenerationError {
    /// No sum lies strictly inside the admissible range, so that no
    /// candidate could ever be accepted. An empty history gives such a range.
    EmptySumRange,
    /// The allowed number of candidates was sampled and the batch is still
    /// not full.
    AttemptsExhausted,
}

/// Every draw of the batch is a playable draw in ascending order, marked as
/// generated.
pub open spec fn all_generated(batch: Seq<MegaSena>) -> bool {
    forall|i: int|
        0 <= i < batch.len() ==> {
            &&& is_valid_draw((#[trigger] batch[i])@)
            &&& is_ascending(batch[i]@)
            &&& batch[i].generated_by_rust
        }
}

/// Runs the admission loop: samples candidates and filters them against the
/// history until `config.quota` of them are accepted, and hands out the
/// batch. Every draw of the batch passes the overlap filter against the
/// records that `config.comparison` selects, and has its sum strictly inside
/// the range that the history gives.
///
/// Nothing guarantees that the filters can be met, so the run gives up
/// after `max_attempts` candidates. It samples nothing at all where the
/// quota is zero, or where the sum range admits no sum.
pub fn generate_batch(history: &Vec<MegaSena>, config: GenerationConfig, max_attempts: u64) -> (r:
    Result<Vec<MegaSena>, GenerationError>)
    ensures
        match r {
            Ok(batch) => {
                &&& batch@.len() == config.quota
                &&& all_generated(batch@)
                &&& all_admissible(
                    batch@,
                    config.compared(history@),
                    config.overlap_threshold as int,
                    config.range_of(history@),
                )
            },
            Err(GenerationError::EmptySumRange) => config.quota > 0 && is_void(
                config.range_of(history@),
            ),
            Err(GenerationError::AttemptsExhausted) => config.quota > 0 && !is_void(
                config.range_of(history@),
            ),
        },
        config.quota == 0 ==> r is Ok,
        config.quota > 0 && is_void(config.range_of(history@)) ==> r == Err::<
            Vec<MegaSena>,
            GenerationError,
        >(GenerationError::EmptySumRange),
        config.quota > max_attempts ==> r is Err,
{
    let mut run = AdmissionLoop::start(history, config);
    if config.quota == 0 {
        return Ok(run.into_batch());
    }
    if run.sum_range().is_empty() {
        return Err(GenerationError::EmptySumRange);
    }
    let mut attempts: u64 = 0;
    while attempts < max_attempts
        invariant
            run.wf(),
            run.history() == history@,
            run.config() == config,
            run.remaining() > 0,
            run.batch().len() <= attempts <= max_attempts,
            all_generated(run.batch()),
            !is_void(run.range()),
        decreases max_attempts - attempts,
    {
        let candidate = generate_mega_sena();
        run.offer(candidate);
        attempts += 1;
        if let AdmissionState::QuotaMet = run.state() {
            return Ok(run.into_batch());
        }
    }
    Err(GenerationError::AttemptsExhausted)
}

} // verus!

//! Election of the running controller thread among look-alikes.
//!
//! A freed object keeps its vtables and a plausible deadline until its memory is
//! reused, so several addresses can look alike. Only the object that a live
//! thread owns keeps scheduling discovery, so movement of its fields tells it
//! from abandoned copies.

use vstd::prelude::*;
use vstd::string::*;

use crate::text::{decimal, hex, hex_padded, push_decimal, push_hex, push_hex_padded};

verus! {

/// How long an election watches, in milliseconds.
pub const LIVE_ELECTION_TIMEOUT: u64 = 1500;

/// How long an election pauses between looks, in milliseconds.
pub const LIVE_ELECTION_INTERVAL: u64 = 125;

/// One observation of a candidate's scheduler fields.
///
/// The deadline is kept as bits: it is only compared for change, and a field that
/// holds the same NaN twice has not moved.
#[derive(Clone, Copy, Debug, PartialEq, Eq, Structural)]
pub struct SchedulerSample {
    /// Bits of the discovery deadline.
    pub deadline_bits: u64,
    /// Value of the discovery counter.
    pub counter: u32,
}

/// Whether a candidate moved between two observations.
pub open spec fn moved(
    before: Seq<SchedulerSample>,
    after: Seq<SchedulerSample>,
    index: int,
) -> bool {
    0 <= index < before.len() && before[index] != after[index]
}

/// Whether a candidate is the only one that moved.
pub open spec fn moved_alone(
    before: Seq<SchedulerSample>,
    after: Seq<SchedulerSample>,
    index: int,
) -> bool {
    &&& before.len() == after.len()
    &&& moved(before, after, index)
    &&& forall|other: int| #[trigger] moved(before, after, other) ==> other == index
}

/// Picks the only candidate whose scheduler fields moved between two observations
/// of the same candidates.
///
/// Nothing is picked unless exactly one candidate moved: no movement, or movement
/// in several candidates, does not prove which object may be written to.
pub fn select_progressing_candidate(
    before: &[SchedulerSample],
    after: &[SchedulerSample],
) -> (selected: Option<usize>)
    ensures
        match selected {
            Some(index) => moved_alone(before@, after@, index as int),
            None => forall|index: int| !moved_alone(before@, after@, index),
        },
{
    if before.len() != after.len() {
        return None;
    }
    let mut progressing: Option<usize> = None;
    let mut index: usize = 0;
    while index < before.len()
        invariant
            index <= before.len(),
            before.len() == after.len(),
            match progressing {
                Some(found) => {
                    &&& found < index
                    &&& moved(before@, after@, found as int)
                    &&& forall|other: int|
                        other < index && #[trigger] moved(before@, after@, other) ==> other == found
                },
                None => forall|other: int| other < index ==> !#[trigger] moved(
                    before@,
                    after@,
                    other,
                ),
            },
        decreases before.len() - index,
    {
        if before[index] != after[index] {
            assert(moved(before@, after@, index as int));
            if let Some(found) = progressing {
                assert(moved(before@, after@, found as int));
                return None;
            }
            progressing = Some(index);
        }
        index = index + 1;
    }
    progressing
}

/// Collects the observation of every candidate. One that could not be read spoils
/// the whole observation.
pub fn sample_candidates(readings: &Vec<Option<SchedulerSample>>) -> (samples: Option<
    Vec<SchedulerSample>,
>)
    ensures
        match samples {
            Some(list) => {
                &&& list@.len() == readings@.len()
                &&& forall|index: int|
                    0 <= index < readings@.len() ==> #[trigger] readings@[index] == Some(
                        list@[index],
                    )
            },
            None => exists|index: int|
                0 <= index < readings@.len() && (#[trigger] readings@[index]) is None,
        },
{
    let mut list: Vec<SchedulerSample> = Vec::new();
    let mut index: usize = 0;
    while index < readings.len()
        invariant
            index <= readings.len(),
            list@.len() == index,
            forall|before: int|
                0 <= before < index ==> #[trigger] readings@[before] == Some(list@[before]),
        decreases readings.len() - index,
    {
        match readings[index] {
            Some(sample) => {
                list.push(sample);
            },
            None => {
                assert(readings@[index as int] is None);
                return None;
            },
        }
        index = index + 1;
    }
    Some(list)
}

/// What an election does next.
#[derive(Clone, Copy, Debug, PartialEq, Eq, Structural)]
pub enum ElectionStep {
    /// Pause for [`LIVE_ELECTION_INTERVAL`] and observe the candidates.
    Observe,
    /// The candidate at this address is the live one.
    Elected(usize),
    /// A candidate could not be read. That never counts as standing still.
    Unreadable,
    /// The time is up and the candidates are still ambiguous.
    Ambiguous,
}

/// An election between several candidates.
pub struct Election {
    candidates: Vec<usize>,
    before: Vec<SchedulerSample>,
    last: Vec<SchedulerSample>,
}

impl Election {
    /// The candidates.
    pub closed spec fn candidates(&self) -> Seq<usize> {
        self.candidates@
    }

    /// The first observation.
    pub closed spec fn first_samples(&self) -> Seq<SchedulerSample> {
        self.before@
    }

    /// The latest observation.
    pub closed spec fn last_samples(&self) -> Seq<SchedulerSample> {
        self.last@
    }

    /// There is one sample for each candidate.
    pub closed spec fn wf(&self) -> bool {
        self.before@.len() == self.candidates@.len()
    }

    /// Begins with the first observation; `None` where a candidate was unreadable.
    ///
    /// The process is then notified of a device change, so that the live thread
    /// has a reason to reschedule.
    pub fn begin(candidates: Vec<usize>, samples: Option<Vec<SchedulerSample>>) -> (begun: Result<
        Election,
        ElectionStep,
    >)
        requires
            samples matches Some(read) ==> read@.len() == candidates@.len(),
        ensures
            match begun {
                Ok(election) => {
                    &&& samples is Some
                    &&& election.wf()
                    &&& election.candidates() == candidates@
                    &&& election.first_samples() == samples->0@
                    &&& election.last_samples() == samples->0@
                },
                Err(step) => samples is None && step == ElectionStep::Unreadable,
            },
    {
        match samples {
            Some(before) => {
                let mut last: Vec<SchedulerSample> = Vec::new();
                let mut index: usize = 0;
                while index < before.len()
                    invariant
                        index <= before.len(),
                        last@ == before@.take(index as int),
                    decreases before.len() - index,
                {
                    last.push(before[index]);
                    assert(before@.take(index + 1) =~= before@.take(index as int).push(
                        before@[index as int],
                    ));
                    index = index + 1;
                }
                assert(before@.take(before@.len() as int) =~= before@);
                Ok(Election { candidates, before, last })
            },
            None => Err(ElectionStep::Unreadable),
        }
    }

    /// Whether to look again, that many milliseconds after the notification.
    pub fn poll(&self, elapsed: u64) -> (step: ElectionStep)
        ensures
            step == if elapsed < LIVE_ELECTION_TIMEOUT {
                ElectionStep::Observe
            } else {
                ElectionStep::Ambiguous
            },
    {
        if elapsed < LIVE_ELECTION_TIMEOUT {
            ElectionStep::Observe
        } else {
            ElectionStep::Ambiguous
        }
    }

    /// Takes a later observation; `None` where a candidate was unreadable.
    ///
    /// Observations are always compared with the first one, so that slow movement
    /// is seen too.
    pub fn observe(&mut self, samples: Option<Vec<SchedulerSample>>) -> (decided: Option<
        ElectionStep,
    >)
        requires
            old(self).wf(),
        ensures
            final(self).wf(),
            final(self).candidates() == old(self).candidates(),
            final(self).first_samples() == old(self).first_samples(),
            match (samples, decided) {
                (None, step) => {
                    &&& step == Some(ElectionStep::Unreadable)
                    &&& final(self).last_samples() == old(self).last_samples()
                },
                (Some(read), Some(step)) => {
                    &&& final(self).last_samples() == read@
                    &&& exists|index: int| #[trigger]
                        moved_alone(old(self).first_samples(), read@, index) && step
                            == ElectionStep::Elected(old(self).candidates()[index])
                },
                (Some(read), None) => {
                    &&& final(self).last_samples() == read@
                    &&& forall|index: int| !moved_alone(old(self).first_samples(), read@, index)
                },
            },
    {
        match samples {
            Some(after) => {
                let selected = select_progressing_candidate(&self.before, &after);
                self.last = after;
                match selected {
                    Some(index) => {
                        assert(moved_alone(self.before@, self.last@, index as int));
                        Some(ElectionStep::Elected(self.candidates[index]))
                    },
                    None => None,
                }
            },
            None => Some(ElectionStep::Unreadable),
        }
    }

    /// Why no candidate could be elected.
    pub fn ambiguous_candidates(&self) -> (text: String)
        requires
            self.wf(),
        ensures
            text@ == ambiguity_text(self.candidates(), self.first_samples(), self.last_samples()),
    {
        ambiguous_candidates(&self.candidates, &self.before, &self.last)
    }
}

/// How one candidate's fields changed, in words.
pub open spec fn movement_text(
    candidates: Seq<usize>,
    before: Seq<SchedulerSample>,
    after: Seq<SchedulerSample>,
    index: int,
) -> Seq<char> {
    let address = "0x"@ + hex(candidates[index] as nat);
    if index < before.len() && index < after.len() {
        let first = before[index];
        let second = after[index];
        address + ": deadline 0x"@ + hex_padded(first.deadline_bits as nat, 16) + "->0x"@
            + hex_padded(second.deadline_bits as nat, 16) + " counter "@ + decimal(
            first.counter as nat,
        ) + "->"@ + decimal(second.counter as nat) + if first != second {
            " MOVED"@
        } else {
            " still"@
        }
    } else {
        address + ": unsampled"@
    }
}

/// How the first `count` candidates' fields changed, in words.
pub open spec fn movements_text(
    candidates: Seq<usize>,
    before: Seq<SchedulerSample>,
    after: Seq<SchedulerSample>,
    count: int,
) -> Seq<char>
    decreases count,
{
    if count <= 0 {
        Seq::empty()
    } else if count == 1 {
        movement_text(candidates, before, after, 0)
    } else {
        movements_text(candidates, before, after, count - 1) + "; "@ + movement_text(
            candidates,
            before,
            after,
            count - 1,
        )
    }
}

/// Why an election stayed undecided, in words.
pub open spec fn ambiguity_text(
    candidates: Seq<usize>,
    before: Seq<SchedulerSample>,
    after: Seq<SchedulerSample>,
) -> Seq<char> {
    "runtime RTTI resolved, but "@ + decimal(candidates.len())
        + " live CHIDIOThread candidates were ambiguous and none could be elected by observing discovery scheduling ["@
        + movements_text(candidates, before, after, candidates.len() as int) + "]"@
}

/// Why an election was abandoned, in words.
pub open spec fn unreadable_text(count: nat) -> Seq<char> {
    "runtime RTTI resolved, but a CHIDIOThread candidate among "@ + decimal(count)
        + " became unreadable during the discovery-scheduling election"@
}

fn push_movement(
    text: &mut String,
    candidates: &[usize],
    before: &[SchedulerSample],
    after: &[SchedulerSample],
    index: usize,
)
    requires
        index < candidates@.len(),
    ensures
        final(text)@ == old(text)@ + movement_text(candidates@, before@, after@, index as int),
{
    text.append("0x");
    push_hex(text, candidates[index] as u64);
    if index < before.len() && index < after.len() {
        let first = before[index];
        let second = after[index];
        text.append(": deadline 0x");
        push_hex_padded(text, first.deadline_bits, 16);
        text.append("->0x");
        push_hex_padded(text, second.deadline_bits, 16);
        text.append(" counter ");
        push_decimal(text, first.counter as u64);
        text.append("->");
        push_decimal(text, second.counter as u64);
        if first != second {
            text.append(" MOVED");
        } else {
            text.append(" still");
        }
    } else {
        text.append(": unsampled");
    }
    assert(text@ =~= old(text)@ + movement_text(candidates@, before@, after@, index as int));
}

/// Describes how each candidate's fields changed.
pub fn describe_candidate_movement(
    candidates: &[usize],
    before: &[SchedulerSample],
    after: &[SchedulerSample],
) -> (text: String)
    ensures
        text@ == movements_text(candidates@, before@, after@, candidates@.len() as int),
{
    let mut text = String::new();
    let mut index: usize = 0;
    while index < candidates.len()
        invariant
            index <= candidates.len(),
            text@ == movements_text(candidates@, before@, after@, index as int),
        decreases candidates.len() - index,
    {
        if index > 0 {
            text.append("; ");
        }
        push_movement(&mut text, candidates, before, after, index);
        assert(text@ =~= movements_text(candidates@, before@, after@, index + 1));
        index = index + 1;
    }
    text
}

/// Says why an election stayed undecided.
///
/// All candidates still points at timing; several that moved need another field
/// to tell them apart.
pub fn ambiguous_candidates(
    candidates: &[usize],
    before: &[SchedulerSample],
    after: &[SchedulerSample],
) -> (text: String)
    ensures
        text@ == ambiguity_text(candidates@, before@, after@),
{
    let mut text = String::new();
    text.append("runtime RTTI resolved, but ");
    push_decimal(&mut text, candidates.len() as u64);
    text.append(
        " live CHIDIOThread candidates were ambiguous and none could be elected by observing discovery scheduling [",
    );
    let movement = describe_candidate_movement(candidates, before, after);
    text.append(movement.as_str());
    text.append("]");
    assert(text@ =~= ambiguity_text(candidates@, before@, after@));
    text
}

/// Says why an election was abandoned.
pub fn unreadable_candidates(count: usize) -> (text: String)
    ensures
        text@ == unreadable_text(count as nat),
{
    let mut text = String::new();
    text.append("runtime RTTI resolved, but a CHIDIOThread candidate among ");
    push_decimal(&mut text, count as u64);
    text.append(" became unreadable during the discovery-scheduling election");
    assert(text@ =~= unreadable_text(count as nat));
    text
}

/// At most one candidate can be elected, whatever was observed.
pub proof fn law_an_election_is_unambiguous(
    before: Seq<SchedulerSample>,
    after: Seq<SchedulerSample>,
    first: int,
    second: int,
)
    requires
        moved_alone(before, after, first),
        moved_alone(before, after, second),
    ensures
        first == second,
{
}

/// A candidate moved exactly where its deadline or its counter changed.
pub proof fn law_any_change_is_movement(
    before: Seq<SchedulerSample>,
    after: Seq<SchedulerSample>,
    index: int,
)
    requires
        before.len() == after.len(),
    ensures
        moved(before, after, index) <==> 0 <= index < before.len() && (before[index].deadline_bits
            != after[index].deadline_bits || before[index].counter != after[index].counter),
{
}

/// The candidate that alone changed is elected; where none or several changed, or where
/// the observations are not of the same candidates, none is.
pub proof fn law_exactly_the_lone_mover_is_elected(
    before: Seq<SchedulerSample>,
    after: Seq<SchedulerSample>,
    index: int,
    other: int,
)
    ensures
        moved_alone(before, after, index) <==> {
            &&& before.len() == after.len()
            &&& 0 <= index < before.len()
            &&& before[index] != after[index]
            &&& before.update(index, after[index]) == after
        },
        0 <= other < before.len() && other != index && before.len() == after.len()
            && before[other] != after[other] ==> !moved_alone(before, after, index),
{
    if moved_alone(before, after, index) {
        assert forall|at: int| 0 <= at < before.len() implies before.update(index, after[index])[at]
            == after[at] by {
            assert(at != index ==> !moved(before, after, at));
        }
        assert(before.update(index, after[index]) =~= after);
    }
    if before.len() == after.len() && 0 <= index < before.len() && before.update(
        index,
        after[index],
    ) == after {
        assert forall|at: int| #[trigger] moved(before, after, at) implies at == index by {
            assert(before.update(index, after[index])[at] == after[at]);
        }
    }
    if 0 <= other < before.len() && before.len() == after.len() && before[other] != after[other] {
        assert(moved(before, after, other));
    }
}

/// A candidate that stands still, listed before or behind the others, changes nothing.
pub proof fn law_a_quiet_candidate_changes_nothing(
    before: Seq<SchedulerSample>,
    after: Seq<SchedulerSample>,
    still: SchedulerSample,
    index: int,
)
    requires
        before.len() == after.len(),
    ensures
        0 <= index < before.len() ==> moved_alone(before.push(still), after.push(still), index)
            == moved_alone(before, after, index),
        moved_alone(seq![still] + before, seq![still] + after, index + 1) == moved_alone(
            before,
            after,
            index,
        ),
{
    let more = before.push(still);
    let later = after.push(still);
    law_exactly_the_lone_mover_is_elected(before, after, index, index);
    if 0 <= index < before.len() {
        law_exactly_the_lone_mover_is_elected(more, later, index, index);
        assert(more.update(index, later[index]) =~= before.update(index, after[index]).push(still));
        assert(later.drop_last() =~= after);
        assert(before.update(index, after[index]).push(still).drop_last() =~= before.update(
            index,
            after[index],
        ));
    }
    let front = seq![still] + before;
    let back = seq![still] + after;
    law_exactly_the_lone_mover_is_elected(front, back, index + 1, index + 1);
    if 0 <= index < before.len() {
        assert(front.update(index + 1, back[index + 1]) =~= seq![still] + before.update(
            index,
            after[index],
        ));
        assert(back.skip(1) =~= after);
        assert((seq![still] + before.update(index, after[index])).skip(1) =~= before.update(
            index,
            after[index],
        ));
    }
}

/// A report begins with the candidate's address and ends by telling whether it moved; one
/// that was not seen both times is said to be unsampled.
pub proof fn law_a_report_tells_who_moved(
    candidates: Seq<usize>,
    before: Seq<SchedulerSample>,
    after: Seq<SchedulerSample>,
    index: int,
)
    requires
        0 <= index < candidates.len(),
    ensures
        ({
            let text = movement_text(candidates, before, after, index);
            let address = "0x"@ + hex(candidates[index] as nat);
            let seen = index < before.len() && index < after.len();
            &&& text.take(address.len() as int) == address
            &&& text.len() >= address.len() + 6
            &&& seen && before[index] != after[index] <==> text.skip(text.len() - 6) == " MOVED"@
            &&& seen && before[index] == after[index] <==> text.skip(text.len() - 6) == " still"@
            &&& !seen <==> text.skip(text.len() - 6) == "ampled"@
        }),
{
    reveal_strlit(" MOVED");
    reveal_strlit(" still");
    reveal_strlit(": unsampled");
    reveal_strlit("ampled");
    let text = movement_text(candidates, before, after, index);
    let address = "0x"@ + hex(candidates[index] as nat);
    assert(text.take(address.len() as int) =~= address);
    let end = text.skip(text.len() - 6);
    let moved_word = " MOVED"@;
    let still_word = " still"@;
    let unseen_word = "ampled"@;
    assert(moved_word[1] == 'M' && still_word[1] == 's' && unseen_word[1] == 'm');
    if index < before.len() && index < after.len() {
        if before[index] != after[index] {
            assert(end =~= moved_word);
        } else {
            assert(end =~= still_word);
        }
    } else {
        assert(end =~= unseen_word);
    }
}

/// A report of several candidates tells of each in turn, behind a semicolon.
pub proof fn law_a_report_tells_of_every_candidate(
    candidates: Seq<usize>,
    before: Seq<SchedulerSample>,
    after: Seq<SchedulerSample>,
    count: int,
)
    requires
        0 <= count < candidates.len(),
    ensures
        ({
            let fewer = movements_text(candidates, before, after, count);
            let more = movements_text(candidates, before, after, count + 1);
            let last = movement_text(candidates, before, after, count);
            &&& count == 0 ==> fewer.len() == 0 && more == last
            &&& count > 0 ==> more.len() == fewer.len() + 2 + last.len()
            &&& count > 0 ==> more.take(fewer.len() as int) == fewer
            &&& more.skip(more.len() - last.len()) == last
        }),
{
    reveal_strlit("; ");
    let fewer = movements_text(candidates, before, after, count);
    let more = movements_text(candidates, before, after, count + 1);
    let last = movement_text(candidates, before, after, count);
    if count > 0 {
        assert(more.take(fewer.len() as int) =~= fewer);
    }
    assert(more.skip(more.len() - last.len()) =~= last);
}

} // verus!

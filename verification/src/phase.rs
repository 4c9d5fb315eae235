//! Which phase a transaction may move to, when it may receive new placement
//! epochs, and which epoch states are settled.

use vstd::prelude::*;

use crate::vocabulary::{EpochState, TransactionPhase};

verus! {

/// The legal moves of a saga: forward one step at a time, back to planning
/// from committing for a replan, aside to blocked from anywhere still in
/// flight, and from blocked back to planning. What has reached asynchronous
/// preservation goes back through blocked only.
pub open spec fn legal_phase_move(from: TransactionPhase, to: TransactionPhase) -> bool {
    ||| from is Planning && to is Committing
    ||| from is Committing && to is AsyncPreservation
    ||| from is AsyncPreservation && to is Completed
    ||| (from is Committing || from is Blocked) && to is Planning
    ||| to is Blocked && !(from is Blocked) && !(from is Completed)
}

/// Position of a phase in the saga's declared order.
pub open spec fn phase_rank(phase: TransactionPhase) -> nat {
    match phase {
        TransactionPhase::Planning => 0,
        TransactionPhase::Committing => 1,
        TransactionPhase::AsyncPreservation => 2,
        TransactionPhase::Blocked => 3,
        TransactionPhase::Completed => 4,
    }
}

/// A phase in which a new placement epoch belongs.
pub open spec fn is_working_phase(phase: TransactionPhase) -> bool {
    phase is Planning || phase is Committing
}

impl TransactionPhase {
    /// Whether a transaction at this phase may move to `to`.
    pub fn can_transition_to(self, to: TransactionPhase) -> (legal: bool)
        ensures
            legal == legal_phase_move(self, to),
    {
        match (self, to) {
            (TransactionPhase::Planning, TransactionPhase::Committing) => true,
            (TransactionPhase::Committing, TransactionPhase::AsyncPreservation) => true,
            (TransactionPhase::AsyncPreservation, TransactionPhase::Completed) => true,
            (TransactionPhase::Committing, TransactionPhase::Planning) => true,
            (TransactionPhase::Blocked, TransactionPhase::Planning) => true,
            (from, TransactionPhase::Blocked) => {
                from != TransactionPhase::Completed && from != TransactionPhase::Blocked
            },
            _ => false,
        }
    }

    /// Whether a transaction at this phase may receive a new epoch.
    pub fn may_receive_new_epochs(self) -> (may: bool)
        ensures
            may == is_working_phase(self),
    {
        match self {
            TransactionPhase::Planning => true,
            TransactionPhase::Committing => true,
            TransactionPhase::AsyncPreservation => false,
            TransactionPhase::Blocked => false,
            TransactionPhase::Completed => false,
        }
    }

    /// The phase declared after this one.
    pub fn successor(self) -> (next: Option<TransactionPhase>)
        ensures
            match next {
                Some(phase) => phase_rank(phase) == phase_rank(self) + 1,
                None => phase_rank(self) == 4,
            },
    {
        match self {
            TransactionPhase::Planning => Some(TransactionPhase::Committing),
            TransactionPhase::Committing => Some(TransactionPhase::AsyncPreservation),
            TransactionPhase::AsyncPreservation => Some(TransactionPhase::Blocked),
            TransactionPhase::Blocked => Some(TransactionPhase::Completed),
            TransactionPhase::Completed => None,
        }
    }

    /// Position of the phase in declaration order.
    pub fn declaration_index(self) -> (index: usize)
        ensures
            index == phase_rank(self),
    {
        match self {
            TransactionPhase::Planning => 0,
            TransactionPhase::Committing => 1,
            TransactionPhase::AsyncPreservation => 2,
            TransactionPhase::Blocked => 3,
            TransactionPhase::Completed => 4,
        }
    }

    /// Every phase once, in declaration order, found by walking
    /// [`TransactionPhase::successor`] from the first one.
    pub fn all() -> (phases: Vec<TransactionPhase>)
        ensures
            phases@.len() == 5,
            forall|phase: TransactionPhase| phases@[phase_rank(phase) as int] == phase,
    {
        let mut phases: Vec<TransactionPhase> = Vec::new();
        let mut current = TransactionPhase::Planning;
        phases.push(current);
        loop
            invariant
                phases@.len() == phase_rank(current) + 1,
                forall|i: int|
                    0 <= i < phases@.len() ==> phase_rank(#[trigger] phases@[i]) == i,
            ensures
                phases@.len() == 5,
                forall|i: int|
                    0 <= i < phases@.len() ==> phase_rank(#[trigger] phases@[i]) == i,
            decreases 4 - phase_rank(current),
        {
            match current.successor() {
                Some(next) => {
                    phases.push(next);
                    current = next;
                },
                None => {
                    break ;
                },
            }
        }
        proof {
            assert forall|phase: TransactionPhase| phases@[phase_rank(phase) as int] == phase by {
                assert(phase_rank(phases@[phase_rank(phase) as int]) == phase_rank(phase));
            }
        }
        phases
    }
}

/// The epoch states nothing more is owed to.
pub open spec fn is_settled(state: EpochState) -> bool {
    state is Completed || state is Quarantined || state is Blocked
}

impl EpochState {
    /// Whether the epoch has reached a state it never leaves.
    pub fn is_terminal(self) -> (terminal: bool)
        ensures
            terminal == is_settled(self),
    {
        match self {
            EpochState::Completed => true,
            EpochState::Quarantined => true,
            EpochState::Blocked => true,
            _ => false,
        }
    }
}

/// The moves an epoch may make, listed edge by edge. The placement domain owns
/// this table; the journal only consults it.
pub struct EpochMoves {
    pub edges: Vec<(EpochState, EpochState)>,
}

impl EpochMoves {
    /// The table lists the move.
    pub open spec fn lists(&self, from: EpochState, to: EpochState) -> bool {
        self.edges@.contains((from, to))
    }

    /// Whether the table lists the move.
    pub fn allows(&self, from: EpochState, to: EpochState) -> (legal: bool)
        ensures
            legal == self.lists(from, to),
    {
        let mut i: usize = 0;
        while i < self.edges.len()
            invariant
                i <= self.edges@.len(),
                forall|j: int| 0 <= j < i ==> self.edges@[j] != (from, to),
            decreases self.edges@.len() - i,
        {
            let edge = self.edges[i];
            if edge.0 == from && edge.1 == to {
                assert(self.edges@[i as int] == (from, to));
                return true;
            }
            i += 1;
        }
        false
    }
}

/// A completed saga never moves again.
pub proof fn law_completed_is_final(to: TransactionPhase)
    ensures
        !legal_phase_move(TransactionPhase::Completed, to),
{
}

/// No phase moves to itself.
pub proof fn law_no_phase_moves_to_itself(phase: TransactionPhase)
    ensures
        !legal_phase_move(phase, phase),
{
}

/// A saga reaches completion from asynchronous preservation only, that from
/// committing only, and that from planning only: no step can be skipped.
pub proof fn law_completion_skips_no_step(from: TransactionPhase)
    ensures
        legal_phase_move(from, TransactionPhase::Completed) ==> from is AsyncPreservation,
        legal_phase_move(from, TransactionPhase::AsyncPreservation) ==> from is Committing,
        legal_phase_move(from, TransactionPhase::Committing) ==> from is Planning,
{
}

/// Planning is reached from committing and from blocked only: past the commit a
/// saga goes back through blocked.
pub proof fn law_planning_is_reached_from_committing_or_blocked(from: TransactionPhase)
    ensures
        legal_phase_move(from, TransactionPhase::Planning) <==> from is Committing
            || from is Blocked,
{
}

/// Whatever is still in flight can be blocked, and what is blocked resumes at
/// planning only.
pub proof fn law_blocking_is_always_open_and_resumes_at_planning(phase: TransactionPhase)
    ensures
        !(phase is Completed) && !(phase is Blocked) ==> legal_phase_move(
            phase,
            TransactionPhase::Blocked,
        ),
        legal_phase_move(TransactionPhase::Blocked, phase) <==> phase is Planning,
{
}

} // verus!

//! Tournament stages of a World Cup fixture.

use vstd::prelude::*;

use crate::scoring::TournamentPhase;

verus! {

/// The stage a fixture belongs to, from the group stage up to the final.
#[derive(Debug, Clone, Copy, PartialEq, Eq, Structural)]
pub enum Stage {
    Group,
    RoundOf32,
    RoundOf16,
    QuarterFinal,
    SemiFinal,
    ThirdPlace,
    Final,
}

/// The scoring phase a stage is scored in. The third-place play-off is scored
/// like the final.
pub open spec fn phase_of(stage: Stage) -> TournamentPhase {
    match stage {
        Stage::Group => TournamentPhase::Group,
        Stage::RoundOf32 => TournamentPhase::R32,
        Stage::RoundOf16 => TournamentPhase::R16,
        Stage::QuarterFinal => TournamentPhase::QF,
        Stage::SemiFinal => TournamentPhase::SF,
        Stage::ThirdPlace => TournamentPhase::Finals,
        Stage::Final => TournamentPhase::Finals,
    }
}

/// Position of a stage in the tournament, `0` for the group stage.
pub open spec fn stage_rank(stage: Stage) -> int {
    match stage {
        Stage::Group => 0,
        Stage::RoundOf32 => 1,
        Stage::RoundOf16 => 2,
        Stage::QuarterFinal => 3,
        Stage::SemiFinal => 4,
        Stage::ThirdPlace => 5,
        Stage::Final => 6,
    }
}

impl Stage {
    pub fn to_tournament_phase(self) -> (phase: TournamentPhase)
        ensures
            phase == phase_of(self),
    {
        match self {
            Stage::Group => TournamentPhase::Group,
            Stage::RoundOf32 => TournamentPhase::R32,
            Stage::RoundOf16 => TournamentPhase::R16,
            Stage::QuarterFinal => TournamentPhase::QF,
            Stage::SemiFinal => TournamentPhase::SF,
            Stage::ThirdPlace => TournamentPhase::Finals,
            Stage::Final => TournamentPhase::Finals,
        }
    }

    /// Every stage after the group stage is a knockout stage.
    pub fn is_knockout(self) -> (ko: bool)
        ensures
            ko == (self != Stage::Group),
    {
        match self {
            Stage::Group => false,
            _ => true,
        }
    }
}

/// Sort key of a stage: the group stage first, the final last.
pub fn stage_order(s: Stage) -> (order: u8)
    ensures
        order as int == stage_rank(s),
{
    match s {
        Stage::Group => 0,
        Stage::RoundOf32 => 1,
        Stage::RoundOf16 => 2,
        Stage::QuarterFinal => 3,
        Stage::SemiFinal => 4,
        Stage::ThirdPlace => 5,
        Stage::Final => 6,
    }
}

} // verus!

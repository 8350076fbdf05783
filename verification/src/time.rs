//! Time management: turning the "go" parameters into search limits.

use vstd::prelude::*;

use crate::search::SearchLimits;
use crate::types::Color;

verus! {

/// The parameters of a UCI "go" command.
pub struct GoParams {
    pub wtime: Option<u64>,
    pub btime: Option<u64>,
    pub winc: Option<u64>,
    pub binc: Option<u64>,
    pub movestogo: Option<u32>,
    pub depth: Option<i32>,
    pub nodes: Option<u64>,
    pub movetime: Option<u64>,
    pub infinite: bool,
    pub ponder: bool,
}

impl Default for GoParams {
    fn default() -> (p: GoParams)
        ensures
            p.wtime is None && p.btime is None && p.winc is None && p.binc is None,
            p.movestogo is None && p.depth is None && p.nodes is None && p.movetime is None,
            !p.infinite && !p.ponder,
    {
        GoParams {
            wtime: None,
            btime: None,
            winc: None,
            binc: None,
            movestogo: None,
            depth: None,
            nodes: None,
            movetime: None,
            infinite: false,
            ponder: false,
        }
    }
}

/// Milliseconds kept in reserve.
pub const SAFETY_MARGIN: u64 = 50;

/// The clock and increment of `side`.
pub open spec fn clock_of(params: GoParams, side: Color) -> (u64, u64) {
    match side {
        Color::White => (params.wtime.unwrap_or(0), params.winc.unwrap_or(0)),
        Color::Black => (params.btime.unwrap_or(0), params.binc.unwrap_or(0)),
    }
}

/// The search is bounded by the command itself (infinite, depth, movetime
/// or nodes), so the clock is not consulted.
pub open spec fn explicit_limit(params: GoParams) -> bool {
    params.infinite || params.depth is Some || params.movetime is Some || params.nodes is Some
}

/// The time to spend: a `movestogo`-th (30 by default) of the clock plus
/// three quarters of the increment, at most the clock less the safety
/// margin.
pub open spec fn allotted(time: u64, inc: u64, movestogo: Option<u32>) -> int {
    let allocated = (time as int) / (movestogo.unwrap_or(30) as int) + inc * 3 / 4;
    if allocated > time - SAFETY_MARGIN {
        time - SAFETY_MARGIN
    } else {
        allocated
    }
}

/// The time allotted from a clock of `time` ms with increment `inc` keeps
/// the safety margin in reserve: it is at most the clock less the margin,
/// whatever `movestogo` is, and never more than the clock's share (a
/// `movestogo`-th of the clock plus three quarters of the increment); when
/// the share leaves the margin free, it is the share itself.
pub proof fn lemma_allotted_keeps_margin(time: u64, inc: u64, movestogo: Option<u32>)
    requires
        time >= SAFETY_MARGIN,
        movestogo != Some(0u32),
    ensures
        0 <= allotted(time, inc, movestogo),
        allotted(time, inc, movestogo) + SAFETY_MARGIN <= time,
        allotted(time, inc, movestogo) <= (time as int) / (movestogo.unwrap_or(30) as int) + inc * 3 / 4,
        (time as int) / (movestogo.unwrap_or(30) as int) + inc * 3 / 4 + SAFETY_MARGIN <= time ==> allotted(
            time,
            inc,
            movestogo,
        ) == (time as int) / (movestogo.unwrap_or(30) as int) + inc * 3 / 4,
{
    let m = movestogo.unwrap_or(30) as int;
    assert(m >= 1);
    assert((time as int) / m >= 0) by (nonlinear_arith)
        requires
            m >= 1,
            time >= 0,
    ;
}

/// Whether `allocate_time` can work on `params`: a zero `movestogo`, an
/// overflowing sum, or a clock below the safety margin would stop it.
pub open spec fn allocation_ok(params: GoParams, side: Color) -> bool {
    let (time, inc) = clock_of(params, side);
    explicit_limit(params) || time == 0 || {
        &&& params.movestogo != Some(0u32)
        &&& inc * 3 <= u64::MAX
        &&& (time as int) / (params.movestogo.unwrap_or(30) as int) + inc * 3 / 4 <= u64::MAX
        &&& time >= SAFETY_MARGIN
    }
}

/// Whether `allocate_time` can work on `params` (see `allocation_ok`).
pub fn can_allocate(params: &GoParams, side: Color) -> (b: bool)
    ensures
        b == allocation_ok(*params, side),
{
    if params.infinite || params.depth.is_some() || params.movetime.is_some() || params.nodes.is_some() {
        return true;
    }
    let (time, inc) = match side {
        Color::White => (params.wtime.unwrap_or(0), params.winc.unwrap_or(0)),
        Color::Black => (params.btime.unwrap_or(0), params.binc.unwrap_or(0)),
    };
    if time == 0 {
        return true;
    }
    let moves_to_go = params.movestogo.unwrap_or(30);
    if moves_to_go == 0 || inc > u64::MAX / 3 {
        return false;
    }
    let part = time / moves_to_go as u64;
    let inc_part = inc * 3 / 4;
    part <= u64::MAX - inc_part && time >= SAFETY_MARGIN
}

/// The search limits of a "go" command for `side`: the command's own
/// limits where it sets one, else a share of the clock (see `allotted`).
pub fn allocate_time(params: &GoParams, side: Color) -> (limits: SearchLimits)
    requires
        allocation_ok(*params, side),
    ensures
        limits.depth == params.depth,
        limits.nodes == params.nodes,
        limits.infinite == params.infinite,
        limits.ponder == params.ponder,
        limits.movetime == if explicit_limit(*params) || clock_of(*params, side).0 == 0 {
            params.movetime
        } else {
            Some(allotted(clock_of(*params, side).0, clock_of(*params, side).1, params.movestogo) as u64)
        },
        !explicit_limit(*params) && clock_of(*params, side).0 > 0 ==> limits.movetime is Some
            && limits.movetime->0 + SAFETY_MARGIN <= clock_of(*params, side).0,
{
    proof {
        let (time, inc) = clock_of(*params, side);
        if !explicit_limit(*params) && time > 0 {
            lemma_allotted_keeps_margin(time, inc, params.movestogo);
        }
    }
    let mut limits = SearchLimits {
        depth: params.depth,
        movetime: params.movetime,
        nodes: params.nodes,
        infinite: params.infinite,
        ponder: params.ponder,
    };
    if limits.infinite || limits.depth.is_some() || limits.movetime.is_some() || limits.nodes.is_some() {
        return limits;
    }
    let (time, inc) = match side {
        Color::White => (params.wtime.unwrap_or(0), params.winc.unwrap_or(0)),
        Color::Black => (params.btime.unwrap_or(0), params.binc.unwrap_or(0)),
    };
    if time > 0 {
        let moves_to_go = params.movestogo.unwrap_or(30);
        // Allocate 1/moves_to_go of our time + a fraction of the increment.
        let allocated = time / moves_to_go as u64 + (inc * 3 / 4);
        // Don't spend more than we have, keep a safety margin.
        let limit = if allocated > time - SAFETY_MARGIN {
            time.saturating_sub(SAFETY_MARGIN)
        } else {
            allocated
        };
        limits.movetime = Some(limit);
    }
    limits
}

} // verus!

//! The three quarter-turn generators of the pocket cube, each a pure
//! function from a corner slot to a (new slot, orientation delta) pair,
//! and move inversion derived by applying a generator three times.

use vstd::prelude::*;
use crate::enums::CornerPos;
use crate::enums::CornerTwist;

verus! {

/// The image of one corner slot under a move: the slot it goes to and the
/// orientation delta composed onto the cubie moving there.
pub struct CubicPerm {
    pub pos: CornerPos,
    pub rot: CornerTwist,
}

impl CubicPerm {
    pub fn new(pos: CornerPos, rot: CornerTwist) -> (r: Self)
        ensures
            r.pos == pos,
            r.rot == rot,
    {
        Self { pos, rot }
    }
}

/// One of the three quarter-turn generators, or the identity move.
#[derive(Copy, Clone, PartialEq, Eq, Structural, Debug)]
pub enum CubeMove {
    Up,
    Front,
    Right,
    Identity,
}

/// Clockwise turn of the up face: a 4-cycle of the four upper slots with
/// no orientation change.
pub open spec fn spec_move_up(pos: CornerPos) -> CubicPerm {
    match pos {
        CornerPos::FUR => CubicPerm { pos: CornerPos::FUL, rot: CornerTwist::Rot0 },
        CornerPos::FUL => CubicPerm { pos: CornerPos::BUL, rot: CornerTwist::Rot0 },
        CornerPos::BUL => CubicPerm { pos: CornerPos::BUR, rot: CornerTwist::Rot0 },
        CornerPos::BUR => CubicPerm { pos: CornerPos::FUR, rot: CornerTwist::Rot0 },
        _ => CubicPerm { pos, rot: CornerTwist::Rot0 },
    }
}

/// Clockwise turn of the front face: a 4-cycle of the four front slots
/// with alternating orientation deltas.
pub open spec fn spec_move_front(pos: CornerPos) -> CubicPerm {
    match pos {
        CornerPos::FUR => CubicPerm { pos: CornerPos::FDR, rot: CornerTwist::Rot1 },
        CornerPos::FDR => CubicPerm { pos: CornerPos::FDL, rot: CornerTwist::Rot2 },
        CornerPos::FDL => CubicPerm { pos: CornerPos::FUL, rot: CornerTwist::Rot1 },
        CornerPos::FUL => CubicPerm { pos: CornerPos::FUR, rot: CornerTwist::Rot2 },
        _ => CubicPerm { pos, rot: CornerTwist::Rot0 },
    }
}

/// Clockwise turn of the right face: a 4-cycle of the four right slots
/// with alternating orientation deltas.
pub open spec fn spec_move_right(pos: CornerPos) -> CubicPerm {
    match pos {
        CornerPos::FUR => CubicPerm { pos: CornerPos::BUR, rot: CornerTwist::Rot2 },
        CornerPos::BUR => CubicPerm { pos: CornerPos::BDR, rot: CornerTwist::Rot1 },
        CornerPos::BDR => CubicPerm { pos: CornerPos::FDR, rot: CornerTwist::Rot2 },
        CornerPos::FDR => CubicPerm { pos: CornerPos::FUR, rot: CornerTwist::Rot1 },
        _ => CubicPerm { pos, rot: CornerTwist::Rot0 },
    }
}

/// The slot image and orientation delta of `pos` under move `m`.
pub open spec fn spec_move(m: CubeMove, pos: CornerPos) -> CubicPerm {
    match m {
        CubeMove::Up => spec_move_up(pos),
        CubeMove::Front => spec_move_front(pos),
        CubeMove::Right => spec_move_right(pos),
        CubeMove::Identity => CubicPerm { pos, rot: CornerTwist::Rot0 },
    }
}

/// The inverse of `m` at `pos`, derived by composing three forward
/// applications: a quarter turn has order 4, so inverse = forward cubed.
pub open spec fn spec_move_inv(m: CubeMove, pos: CornerPos) -> CubicPerm {
    let p1 = spec_move(m, pos);
    let p2 = spec_move(m, p1.pos);
    let p3 = spec_move(m, p2.pos);
    CubicPerm { pos: p3.pos, rot: p1.rot.spec_permutate(p2.rot).spec_permutate(p3.rot) }
}

/// The identity move: every slot stays in place with no orientation
/// change.
pub fn move_id(pos: CornerPos) -> (r: CubicPerm)
    ensures
        r == spec_move(CubeMove::Identity, pos),
{
    CubicPerm::new(pos, CornerTwist::Rot0)
}

/// Clockwise turn of the up face.
pub fn move_up(pos: CornerPos) -> (r: CubicPerm)
    ensures
        r == spec_move_up(pos),
{
    match pos {
        CornerPos::FUR => CubicPerm::new(CornerPos::FUL, CornerTwist::Rot0),
        CornerPos::FUL => CubicPerm::new(CornerPos::BUL, CornerTwist::Rot0),
        CornerPos::BUL => CubicPerm::new(CornerPos::BUR, CornerTwist::Rot0),
        CornerPos::BUR => CubicPerm::new(CornerPos::FUR, CornerTwist::Rot0),
        _ => move_id(pos),
    }
}

/// Clockwise turn of the front face.
pub fn move_front(pos: CornerPos) -> (r: CubicPerm)
    ensures
        r == spec_move_front(pos),
{
    match pos {
        CornerPos::FUR => CubicPerm::new(CornerPos::FDR, CornerTwist::Rot1),
        CornerPos::FDR => CubicPerm::new(CornerPos::FDL, CornerTwist::Rot2),
        CornerPos::FDL => CubicPerm::new(CornerPos::FUL, CornerTwist::Rot1),
        CornerPos::FUL => CubicPerm::new(CornerPos::FUR, CornerTwist::Rot2),
        _ => move_id(pos),
    }
}

/// Clockwise turn of the right face.
pub fn move_right(pos: CornerPos) -> (r: CubicPerm)
    ensures
        r == spec_move_right(pos),
{
    match pos {
        CornerPos::FUR => CubicPerm::new(CornerPos::BUR, CornerTwist::Rot2),
        CornerPos::BUR => CubicPerm::new(CornerPos::BDR, CornerTwist::Rot1),
        CornerPos::BDR => CubicPerm::new(CornerPos::FDR, CornerTwist::Rot2),
        CornerPos::FDR => CubicPerm::new(CornerPos::FUR, CornerTwist::Rot1),
        _ => move_id(pos),
    }
}

/// The image of `pos` under the move `m`.
pub fn move_apply(m: CubeMove, pos: CornerPos) -> (r: CubicPerm)
    ensures
        r == spec_move(m, pos),
{
    match m {
        CubeMove::Up => move_up(pos),
        CubeMove::Front => move_front(pos),
        CubeMove::Right => move_right(pos),
        CubeMove::Identity => move_id(pos),
    }
}

/// The inverse of `m` at `pos`: the same generator applied three times,
/// with the three orientation deltas composed.
pub fn move_inv(m: CubeMove, pos: CornerPos) -> (r: CubicPerm)
    ensures
        r == spec_move_inv(m, pos),
{
    let perm_1 = move_apply(m, pos);
    let perm_2 = move_apply(m, perm_1.pos);
    let perm_3 = move_apply(m, perm_2.pos);
    CubicPerm::new(perm_3.pos, perm_1.rot.permutate(&perm_2.rot).permutate(&perm_3.rot))
}

/// Every move maps distinct slots to distinct slots.
pub proof fn lemma_move_injective(m: CubeMove, p: CornerPos, q: CornerPos)
    requires
        spec_move(m, p).pos == spec_move(m, q).pos,
    ensures
        p == q,
{
}

/// Every move fixes the gauge slot BDL and leaves its orientation alone.
pub proof fn lemma_move_fixes_bdl(m: CubeMove)
    ensures
        spec_move(m, CornerPos::BDL).pos == CornerPos::BDL,
        spec_move(m, CornerPos::BDL).rot == CornerTwist::Rot0,
{
}

/// A quarter turn has order 4: four applications return any slot to
/// itself, and the four orientation deltas along the way cancel modulo 3.
pub proof fn lemma_move_order_four(m: CubeMove, pos: CornerPos)
    ensures
        ({
            let p1 = spec_move(m, pos);
            let p2 = spec_move(m, p1.pos);
            let p3 = spec_move(m, p2.pos);
            let p4 = spec_move(m, p3.pos);
            p4.pos == pos && (p1.rot.as_int() + p2.rot.as_int() + p3.rot.as_int()
                + p4.rot.as_int()) % 3 == 0
        }),
{
}

/// A move followed by its derived inverse returns any slot to itself and
/// cancels the orientation delta modulo 3.
pub proof fn lemma_move_then_inverse(m: CubeMove, pos: CornerPos)
    ensures
        ({
            let fwd = spec_move(m, pos);
            let inv = spec_move_inv(m, fwd.pos);
            inv.pos == pos && (fwd.rot.as_int() + inv.rot.as_int()) % 3 == 0
        }),
{
}

} // verus!

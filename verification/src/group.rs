//! The cube model: eight corner cubies with positions and orientations,
//! the gauge-fixing well-formedness invariant, move application, and the
//! bijective conversion between states and composite identifiers.

use vstd::prelude::*;
use vstd::pervasive::VecAdditionalExecFns;
use vstd::seq_lib::commutative_foldr;
use vstd::seq_lib::lemma_fold_right_permutation;
use crate::enums::CornerPos;
use crate::enums::CornerTwist;
use crate::enums::CubeRealSide;
use crate::moves::CubeMove;
use crate::moves::move_apply;
use crate::moves::spec_move;
use crate::perm::index_arr_to_id;
use crate::perm::index_arr_to_permutation;
use crate::perm::id_to_index_arr;
use crate::perm::permutation_to_index_arr;
use crate::perm::smushed_to_array;
use crate::perm::lemma_fact_7;
use crate::perm::lemma_pow3_6;
use crate::perm::lemma_id_to_index_arr_props;
use crate::perm::lemma_index_arr_to_id_bound;
use crate::perm::lemma_base3_eval_bound;
use crate::perm::lemma_base3_eval_nonneg;
use crate::perm::lemma_smushed_round_trip;
use crate::perm::lemma_unrank_multiset;
use crate::perm::lemma_unrank_rank;
use crate::perm::lemma_rank_unrank;
use crate::perm::spec_base3_eval;
use crate::perm::spec_id_to_index_arr;
use crate::perm::spec_index_arr_to_id;
use crate::perm::spec_pow3;
use crate::perm::spec_rank;
use crate::perm::spec_smushed_to_array;
use crate::perm::spec_unrank;
use crate::types::PermId;
use crate::types::PosId;
use crate::types::RotId;

verus! {

/// One corner piece: three face colors (its immutable identity), the
/// slot it came from, the slot it currently occupies, and its current
/// orientation.
#[derive(Copy, Clone, Debug)]
pub struct Cubic {
    pub sides: [CubeRealSide; 3],
    pub orig_pos: CornerPos,
    pub curr_pos: CornerPos,
    pub rot: CornerTwist,
}

impl Cubic {
    pub fn new(pos: CornerPos, sides: [CubeRealSide; 3]) -> (r: Self)
        ensures
            r.sides == sides,
            r.orig_pos == pos,
            r.curr_pos == pos,
            r.rot == CornerTwist::Rot0,
    {
        Self { sides, orig_pos: pos, curr_pos: pos, rot: CornerTwist::Rot0 }
    }

    /// Composes a further twist onto this cubie's orientation.
    pub fn rotate(&mut self, rot: CornerTwist)
        ensures
            *final(self) == (Cubic { rot: old(self).rot.spec_permutate(rot), ..*old(self) }),
    {
        self.rot = self.rot.permutate(&rot);
    }

    pub fn set_pos(&mut self, pos: CornerPos)
        ensures
            *final(self) == (Cubic { curr_pos: pos, ..*old(self) }),
    {
        self.curr_pos = pos;
    }

    pub fn get_pos(&self) -> (r: CornerPos)
        ensures
            r == self.curr_pos,
    {
        self.curr_pos
    }

    pub fn set_rot(&mut self, rot: CornerTwist)
        ensures
            *final(self) == (Cubic { rot, ..*old(self) }),
    {
        self.rot = rot;
    }

    pub fn get_rot(&self) -> (r: CornerTwist)
        ensures
            r == self.rot,
    {
        self.rot
    }

    /// The three face colors in the order determined by the current
    /// orientation: twisting rotates the color triple cyclically.
    pub fn get_sides_rotated(&self) -> (r: [CubeRealSide; 3])
        ensures
            r == self.spec_sides_rotated(),
    {
        match self.rot {
            CornerTwist::Rot0 => [self.sides[0], self.sides[1], self.sides[2]],
            CornerTwist::Rot1 => [self.sides[2], self.sides[0], self.sides[1]],
            CornerTwist::Rot2 => [self.sides[1], self.sides[2], self.sides[0]],
        }
    }

    pub open spec fn spec_sides_rotated(self) -> [CubeRealSide; 3] {
        match self.rot {
            CornerTwist::Rot0 => [self.sides[0], self.sides[1], self.sides[2]],
            CornerTwist::Rot1 => [self.sides[2], self.sides[0], self.sides[1]],
            CornerTwist::Rot2 => [self.sides[1], self.sides[2], self.sides[0]],
        }
    }
}

/// The default (solved) arrangement: cubie `i` sits in slot `i` with no
/// twist, carrying the face colors of its home corner.
pub open spec fn spec_default_cubics() -> Seq<Cubic> {
    seq![
        Cubic {
            sides: [CubeRealSide::U, CubeRealSide::F, CubeRealSide::R],
            orig_pos: CornerPos::FUR,
            curr_pos: CornerPos::FUR,
            rot: CornerTwist::Rot0,
        },
        Cubic {
            sides: [CubeRealSide::U, CubeRealSide::L, CubeRealSide::F],
            orig_pos: CornerPos::FUL,
            curr_pos: CornerPos::FUL,
            rot: CornerTwist::Rot0,
        },
        Cubic {
            sides: [CubeRealSide::D, CubeRealSide::R, CubeRealSide::F],
            orig_pos: CornerPos::FDR,
            curr_pos: CornerPos::FDR,
            rot: CornerTwist::Rot0,
        },
        Cubic {
            sides: [CubeRealSide::D, CubeRealSide::F, CubeRealSide::L],
            orig_pos: CornerPos::FDL,
            curr_pos: CornerPos::FDL,
            rot: CornerTwist::Rot0,
        },
        Cubic {
            sides: [CubeRealSide::U, CubeRealSide::R, CubeRealSide::B],
            orig_pos: CornerPos::BUR,
            curr_pos: CornerPos::BUR,
            rot: CornerTwist::Rot0,
        },
        Cubic {
            sides: [CubeRealSide::U, CubeRealSide::B, CubeRealSide::L],
            orig_pos: CornerPos::BUL,
            curr_pos: CornerPos::BUL,
            rot: CornerTwist::Rot0,
        },
        Cubic {
            sides: [CubeRealSide::D, CubeRealSide::B, CubeRealSide::R],
            orig_pos: CornerPos::BDR,
            curr_pos: CornerPos::BDR,
            rot: CornerTwist::Rot0,
        },
        Cubic {
            sides: [CubeRealSide::D, CubeRealSide::L, CubeRealSide::B],
            orig_pos: CornerPos::BDL,
            curr_pos: CornerPos::BDL,
            rot: CornerTwist::Rot0,
        },
    ]
}

/// The current slots of the seven free cubies, as slot indices.
pub open spec fn spec_positions(s: Seq<Cubic>) -> Seq<u32> {
    Seq::new(7, |i: int| s[i].curr_pos.as_int() as u32)
}

/// The seven free slot indices in default order.
pub open spec fn spec_default_positions() -> Seq<u32> {
    seq![0u32, 1u32, 2u32, 3u32, 4u32, 5u32, 6u32]
}

/// Sum of the orientation values of the first `k` cubies.
pub open spec fn spec_rot_sum(s: Seq<Cubic>, k: int) -> int
    decreases k,
{
    if k <= 0 {
        0
    } else {
        spec_rot_sum(s, k - 1) + s[k - 1].rot.as_int()
    }
}

/// Well-formedness of an eight-cubie arrangement under the gauge-fixing
/// convention: cubie `i` keeps its identity, the eighth cubie is pinned
/// to slot BDL with no twist, the other seven occupy the remaining seven
/// slots in some order, and the orientations of the seven free cubies sum
/// to 0 modulo 3.
pub open spec fn wf_cubics(s: Seq<Cubic>) -> bool {
    &&& s.len() == 8
    &&& forall|i: int|
        0 <= i < 8 ==> (#[trigger] s[i]).orig_pos == spec_default_cubics()[i].orig_pos
    &&& forall|i: int| 0 <= i < 8 ==> (#[trigger] s[i]).sides == spec_default_cubics()[i].sides
    &&& s[7].curr_pos == CornerPos::BDL
    &&& s[7].rot == CornerTwist::Rot0
    &&& spec_positions(s).to_multiset() == spec_default_positions().to_multiset()
    &&& spec_rot_sum(s, 7) % 3 == 0
}

/// A pocket cube state: eight cubies, plus a stored copy of the default
/// arrangement used as the reference for ranking and unranking.
#[derive(Debug)]
pub struct PocketCube {
    pub cubics: Vec<Cubic>,
    pub default_cubics: Vec<Cubic>,
}

impl Clone for PocketCube {
    fn clone(&self) -> (r: Self)
        ensures
            r.cubics@ == self.cubics@,
            r.default_cubics@ == self.default_cubics@,
    {
        let mut cubics: Vec<Cubic> = Vec::new();
        let mut i: usize = 0;
        while i < self.cubics.len()
            invariant
                i <= self.cubics@.len(),
                cubics@ =~= self.cubics@.take(i as int),
            decreases self.cubics@.len() - i,
        {
            cubics.push(self.cubics[i]);
            i = i + 1;
        }
        let mut default_cubics: Vec<Cubic> = Vec::new();
        let mut j: usize = 0;
        while j < self.default_cubics.len()
            invariant
                j <= self.default_cubics@.len(),
                default_cubics@ =~= self.default_cubics@.take(j as int),
            decreases self.default_cubics@.len() - j,
        {
            default_cubics.push(self.default_cubics[j]);
            j = j + 1;
        }
        proof {
            assert(cubics@ =~= self.cubics@);
            assert(default_cubics@ =~= self.default_cubics@);
        }
        Self { cubics, default_cubics }
    }
}

/// Builds the eight default cubies in order.
fn make_default_cubics() -> (r: Vec<Cubic>)
    ensures
        r@ == spec_default_cubics(),
{
    let mut v: Vec<Cubic> = Vec::new();
    v.push(Cubic::new(CornerPos::FUR, [CubeRealSide::U, CubeRealSide::F, CubeRealSide::R]));
    v.push(Cubic::new(CornerPos::FUL, [CubeRealSide::U, CubeRealSide::L, CubeRealSide::F]));
    v.push(Cubic::new(CornerPos::FDR, [CubeRealSide::D, CubeRealSide::R, CubeRealSide::F]));
    v.push(Cubic::new(CornerPos::FDL, [CubeRealSide::D, CubeRealSide::F, CubeRealSide::L]));
    v.push(Cubic::new(CornerPos::BUR, [CubeRealSide::U, CubeRealSide::R, CubeRealSide::B]));
    v.push(Cubic::new(CornerPos::BUL, [CubeRealSide::U, CubeRealSide::B, CubeRealSide::L]));
    v.push(Cubic::new(CornerPos::BDR, [CubeRealSide::D, CubeRealSide::B, CubeRealSide::R]));
    v.push(Cubic::new(CornerPos::BDL, [CubeRealSide::D, CubeRealSide::L, CubeRealSide::B]));
    proof {
        assert(v@ =~= spec_default_cubics());
    }
    v
}

/// The default arrangement is well-formed.
pub proof fn lemma_default_wf()
    ensures
        wf_cubics(spec_default_cubics()),
{
    let s = spec_default_cubics();
    assert(spec_positions(s) =~= spec_default_positions());
    assert(spec_rot_sum(s, 7) == 0) by {
        reveal_with_fuel(spec_rot_sum, 8);
    }
}

impl PocketCube {
    pub open spec fn wf(self) -> bool {
        &&& wf_cubics(self.cubics@)
        &&& self.default_cubics@ == spec_default_cubics()
    }

    /// A freshly constructed cube in the solved arrangement, whose
    /// composite identifier is 0.
    pub fn new() -> (r: Self)
        ensures
            r.wf(),
            r.cubics@ == spec_default_cubics(),
            r.default_cubics@ == spec_default_cubics(),
            r.spec_composite_id() == 0,
    {
        proof {
            lemma_default_wf();
            lemma_solved_composite_zero();
        }
        Self { cubics: make_default_cubics(), default_cubics: make_default_cubics() }
    }

    /// Restores the solved arrangement.
    pub fn reset_cubics(&mut self)
        ensures
            final(self).cubics@ == spec_default_cubics(),
            final(self).default_cubics@ == old(self).default_cubics@,
            old(self).default_cubics@ == spec_default_cubics() ==> final(self).wf(),
    {
        proof {
            lemma_default_wf();
        }
        self.cubics = make_default_cubics();
    }

    /// The first seven of the given cubies.
    fn reduce_cubics_7(&self, arr: &Vec<Cubic>) -> (r: Vec<Cubic>)
        requires
            arr@.len() >= 7,
        ensures
            r@ == arr@.take(7),
    {
        let mut v: Vec<Cubic> = Vec::new();
        v.push(arr[0]);
        v.push(arr[1]);
        v.push(arr[2]);
        v.push(arr[3]);
        v.push(arr[4]);
        v.push(arr[5]);
        v.push(arr[6]);
        proof {
            assert(v@ =~= arr@.take(7));
        }
        v
    }

    /// The first six of the given cubies.
    fn reduce_cubics_6(&self, arr: &Vec<Cubic>) -> (r: Vec<Cubic>)
        requires
            arr@.len() >= 6,
        ensures
            r@ == arr@.take(6),
    {
        let mut v: Vec<Cubic> = Vec::new();
        v.push(arr[0]);
        v.push(arr[1]);
        v.push(arr[2]);
        v.push(arr[3]);
        v.push(arr[4]);
        v.push(arr[5]);
        proof {
            assert(v@ =~= arr@.take(6));
        }
        v
    }

    /// The seven free cubies of the current arrangement.
    pub fn get_cubics(&self) -> (r: Vec<Cubic>)
        requires
            self.cubics@.len() >= 7,
        ensures
            r@ == self.cubics@.take(7),
    {
        self.reduce_cubics_7(&self.cubics)
    }

    /// The seven free cubies of the default arrangement.
    pub fn get_default_cubics(&self) -> (r: Vec<Cubic>)
        requires
            self.default_cubics@.len() >= 7,
        ensures
            r@ == self.default_cubics@.take(7),
    {
        self.reduce_cubics_7(&self.default_cubics)
    }

    /// The rank of the current arrangement of the seven free cubies.
    pub open spec fn spec_pos_id(self) -> int {
        spec_state_pos_id(self.cubics@)
    }

    /// The six free orientations packed as a base-3 number.
    pub open spec fn spec_rot_id(self) -> int {
        spec_state_rot_id(self.cubics@)
    }

    /// The composite identifier of the current state.
    pub open spec fn spec_composite_id(self) -> int {
        spec_state_composite_id(self.cubics@)
    }

    /// Decodes a composite identifier into this cube's arrangement; the
    /// inverse of [`PocketCube::get_perm_id`].
    pub fn apply_id(&mut self, id: PermId)
        requires
            old(self).wf(),
            id.wf(),
        ensures
            final(self).wf(),
            final(self).cubics@ == spec_cubics_of_id(id.spec_id()),
            final(self).default_cubics@ == old(self).default_cubics@,
            final(self).spec_composite_id() == id.spec_id(),
    {
        proof {
            id.lemma_wf();
            lemma_fact_7();
            lemma_pow3_6();
            lemma_composite_round_trip(id.spec_id());
        }
        let ghost target = spec_cubics_of_id(id.spec_id());
        let ghost orig = self.cubics@;
        let ghost defs = self.default_cubics@;
        let pos_id = id.get_pos_id().get_id();
        let pos_indexes = id_to_index_arr(pos_id, 7);
        let mut defaults_pos: Vec<u32> = Vec::new();
        defaults_pos.push(0);
        defaults_pos.push(1);
        defaults_pos.push(2);
        defaults_pos.push(3);
        defaults_pos.push(4);
        defaults_pos.push(5);
        defaults_pos.push(6);
        proof {
            assert(defaults_pos@ =~= spec_default_positions());
        }
        let pos_perm = index_arr_to_permutation(&defaults_pos, &pos_indexes);
        proof {
            broadcast use vstd::seq_lib::group_to_multiset_ensures;
            broadcast use vstd::multiset::group_multiset_axioms;

            lemma_unrank_multiset(spec_default_positions(), pos_indexes@);
            assert forall|i: int| 0 <= i < 7 implies (#[trigger] pos_perm@[i]) < 7 by {
                let d = spec_default_positions();
                assert(pos_perm@.contains(pos_perm@[i]));
                assert(pos_perm@.to_multiset().count(pos_perm@[i]) > 0);
                assert(d.to_multiset().count(pos_perm@[i]) > 0);
                assert(d.contains(pos_perm@[i]));
                let w = choose|w: int| 0 <= w < d.len() && d[w] == pos_perm@[i];
                assert(d[w] < 7);
            }
        }
        let rot_id = id.get_rot_id().get_id();
        let rot_ids = smushed_to_array(rot_id, 6);
        let mut rot_sum: u32 = 0;
        let mut i: usize = 0;
        while i < 6
            invariant
                i <= 6,
                rot_ids@.len() == 6,
                forall|j: int| 0 <= j < 6 ==> (#[trigger] rot_ids@[j]) < 3,
                rot_sum == spec_digit_sum(rot_ids@, i as int),
                rot_sum <= 2 * i,
            decreases 6 - i,
        {
            rot_sum = rot_sum + rot_ids[i];
            i = i + 1;
        }
        let last_rot: CornerTwist = CornerTwist::from_u32((3 - rot_sum % 3) % 3);
        let mut i: usize = 0;
        while i < 7
            invariant
                i <= 7,
                self.cubics@.len() == 8,
                orig.len() == 8,
                pos_perm@.len() == 7,
                forall|k: int| 0 <= k < 7 ==> (#[trigger] pos_perm@[k]) < 7,
                self.default_cubics@ == defs,
                forall|k: int|
                    0 <= k < i ==> self.cubics@[k] == (Cubic {
                        curr_pos: CornerPos::spec_from_int(pos_perm@[k] as int),
                        ..(#[trigger] orig[k])
                    }),
                forall|k: int| i <= k < 8 ==> self.cubics@[k] == orig[k],
            decreases 7 - i,
        {
            let mut c = self.cubics[i];
            c.set_pos(CornerPos::from_u32(pos_perm[i]));
            self.cubics.set(i, c);
            i = i + 1;
        }
        let ghost mid = self.cubics@;
        let mut i: usize = 0;
        while i < 6
            invariant
                i <= 6,
                self.cubics@.len() == 8,
                mid.len() == 8,
                rot_ids@.len() == 6,
                forall|j: int| 0 <= j < 6 ==> (#[trigger] rot_ids@[j]) < 3,
                self.default_cubics@ == defs,
                forall|k: int|
                    0 <= k < i ==> self.cubics@[k] == (Cubic {
                        rot: CornerTwist::spec_from_int(rot_ids@[k] as int),
                        ..(#[trigger] mid[k])
                    }),
                forall|k: int| i <= k < 8 ==> self.cubics@[k] == mid[k],
            decreases 6 - i,
        {
            let mut c = self.cubics[i];
            c.set_rot(CornerTwist::from_u32(rot_ids[i]));
            self.cubics.set(i, c);
            i = i + 1;
        }
        let mut c = self.cubics[6];
        c.set_rot(last_rot);
        self.cubics.set(6, c);
        proof {
            assert(self.cubics@ =~= target) by {
                assert forall|k: int| 0 <= k < 8 implies self.cubics@[k] == target[k] by {
                    if k < 6 {
                        assert(self.cubics@[k] == (Cubic {
                            rot: CornerTwist::spec_from_int(rot_ids@[k] as int),
                            ..mid[k]
                        }));
                        assert(mid[k] == (Cubic {
                            curr_pos: CornerPos::spec_from_int(pos_perm@[k] as int),
                            ..orig[k]
                        }));
                    } else if k == 6 {
                        assert(mid[6] == (Cubic {
                            curr_pos: CornerPos::spec_from_int(pos_perm@[6] as int),
                            ..orig[6]
                        }));
                    } else {
                        assert(self.cubics@[7] == orig[7]);
                        assert(orig[7].curr_pos == CornerPos::BDL);
                        assert(orig[7].rot == CornerTwist::Rot0);
                    }
                }
            }
        }
    }

    /// Ranks the current arrangement of the seven free cubies against
    /// the default arrangement.
    pub fn get_pos_id(&self) -> (r: PosId)
        requires
            self.wf(),
        ensures
            r.wf(),
            r.spec_id() == self.spec_pos_id(),
    {
        proof {
            lemma_fact_7();
        }
        let mut cur: Vec<u32> = Vec::new();
        let mut i: usize = 0;
        while i < 7
            invariant
                i <= 7,
                self.cubics@.len() == 8,
                cur@.len() == i,
                forall|k: int| 0 <= k < i ==> cur@[k] == spec_positions(self.cubics@)[k],
            decreases 7 - i,
        {
            cur.push(self.cubics[i].get_pos().to_u32());
            proof {
                self.cubics@[i as int].curr_pos.lemma_as_int();
            }
            i = i + 1;
        }
        let mut def: Vec<u32> = Vec::new();
        def.push(0);
        def.push(1);
        def.push(2);
        def.push(3);
        def.push(4);
        def.push(5);
        def.push(6);
        proof {
            assert(cur@ =~= spec_positions(self.cubics@));
            assert(def@ =~= spec_default_positions());
            assert(spec_default_positions().no_duplicates());
            lemma_unrank_rank(spec_default_positions(), spec_positions(self.cubics@));
        }
        let index_arr = permutation_to_index_arr(&cur, &def);
        proof {
            lemma_index_arr_to_id_bound(index_arr@);
        }
        let id = index_arr_to_id(&index_arr);
        PosId::new(id)
    }

    /// Packs the orientations of the first six cubies as a base-3
    /// number.
    pub fn get_rot_id(&self) -> (r: RotId)
        requires
            self.wf(),
        ensures
            r.wf(),
            r.spec_id() == self.spec_rot_id(),
    {
        proof {
            lemma_pow3_6();
        }
        let six = self.reduce_cubics_6(&self.cubics);
        let ghost rs = spec_rots6(self.cubics@);
        proof {
            assert forall|j: int| 0 <= j < 6 implies (#[trigger] rs[j]) < 3 by {
                assert(rs[j] == self.cubics@[j].rot.as_int() as u32);
            }
            lemma_base3_eval_bound(rs);
            assert(rs.skip(0) =~= rs);
            assert(0 * spec_pow3(6) == 0) by (nonlinear_arith);
        }
        let mut sum: u32 = 0;
        let mut i: usize = 0;
        while i < 6
            invariant
                i <= 6,
                six@.len() == 6,
                self.cubics@.len() == 8,
                six@ == self.cubics@.take(6),
                rs == spec_rots6(self.cubics@),
                forall|j: int| 0 <= j < 6 ==> (#[trigger] rs[j]) < 3,
                spec_base3_eval(rs) < spec_pow3(6),
                spec_pow3(6) == 729,
                spec_base3_eval(rs) == sum * spec_pow3((6 - i) as nat) + spec_base3_eval(
                    rs.skip(i as int),
                ),
            decreases 6 - i,
        {
            let rot: u32 = six[i].get_rot().to_u32();
            proof {
                crate::perm::lemma_pow3_pos((6 - i - 1) as nat);
                let rest = rs.skip(i as int);
                assert(rest.drop_first() =~= rs.skip(i as int + 1));
                assert(rest[0] == rs[i as int]);
                assert(rot == rs[i as int]);
                lemma_base3_eval_nonneg(rs.skip(i as int + 1));
                lemma_base3_eval_nonneg(rest);
                assert(spec_base3_eval(rest) == rs[i as int] * spec_pow3((6 - i - 1) as nat)
                    + spec_base3_eval(rs.skip(i as int + 1)));
                assert(spec_pow3((6 - i) as nat) == 3 * spec_pow3((6 - i - 1) as nat));
                assert((sum * 3 + rs[i as int]) * spec_pow3((6 - i - 1) as nat) == sum * spec_pow3(
                    (6 - i) as nat,
                ) + rs[i as int] * spec_pow3((6 - i - 1) as nat)) by (nonlinear_arith)
                    requires spec_pow3((6 - i) as nat) == 3 * spec_pow3((6 - i - 1) as nat);
                assert((sum * 3 + rs[i as int]) * spec_pow3((6 - i - 1) as nat) <= spec_base3_eval(
                    rs,
                )) by (nonlinear_arith)
                    requires
                        (sum * 3 + rs[i as int]) * spec_pow3((6 - i - 1) as nat) == sum * spec_pow3(
                            (6 - i) as nat,
                        ) + rs[i as int] * spec_pow3((6 - i - 1) as nat),
                        spec_base3_eval(rs) == sum * spec_pow3((6 - i) as nat) + spec_base3_eval(
                            rs.skip(i as int),
                        ),
                        spec_base3_eval(rs.skip(i as int)) == rs[i as int] * spec_pow3(
                            (6 - i - 1) as nat,
                        ) + spec_base3_eval(rs.skip(i as int + 1)),
                        spec_base3_eval(rs.skip(i as int + 1)) >= 0;
                assert(sum * 3 + rs[i as int] <= (sum * 3 + rs[i as int]) * spec_pow3(
                    (6 - i - 1) as nat,
                )) by (nonlinear_arith)
                    requires
                        spec_pow3((6 - i - 1) as nat) >= 1,
                        sum >= 0,
                        rs[i as int] >= 0,
                ;
            }
            sum = sum * 3;
            sum = sum + rot;
            i = i + 1;
        }
        proof {
            assert(rs.skip(6) =~= Seq::<u32>::empty());
            assert(spec_pow3(0) == 1);
            assert(sum * 1 == sum) by (nonlinear_arith);
        }
        RotId::new(sum)
    }

    /// The composite identifier of the current state:
    /// `5040 * rot + pos`.
    pub fn get_perm_id(&self) -> (r: PermId)
        requires
            self.wf(),
        ensures
            r.wf(),
            r.spec_id() == self.spec_composite_id(),
    {
        PermId::new(&self.get_pos_id(), &self.get_rot_id())
    }

    /// Applies the move `m` to every cubie: each cubie's slot is mapped
    /// through the move's slot permutation and its orientation is
    /// composed with the move's delta for that slot.
    pub fn do_move(&mut self, m: CubeMove)
        ensures
            final(self).cubics@ == spec_state_moved(old(self).cubics@, m),
            final(self).default_cubics@ == old(self).default_cubics@,
            old(self).wf() ==> final(self).wf(),
    {
        let ghost orig = self.cubics@;
        let ghost defs = self.default_cubics@;
        let n = self.cubics.len();
        let mut i: usize = 0;
        while i < n
            invariant
                i <= n,
                n == self.cubics@.len(),
                orig.len() == n,
                self.default_cubics@ == defs,
                forall|k: int|
                    0 <= k < i ==> self.cubics@[k] == spec_cubic_moved(#[trigger] orig[k], m),
                forall|k: int| i <= k < n ==> self.cubics@[k] == orig[k],
            decreases n - i,
        {
            let mut c = self.cubics[i];
            let perm = move_apply(m, c.get_pos());
            c.set_pos(perm.pos);
            c.rotate(perm.rot);
            self.cubics.set(i, c);
            i = i + 1;
        }
        proof {
            assert(self.cubics@ =~= spec_state_moved(orig, m));
            if old(self).wf() {
                lemma_move_preserves_wf(orig, m);
            }
        }
    }

    /// Applies the derived inverse of move `m`: the same generator is
    /// applied three times, since a quarter turn has order 4.
    pub fn do_move_inv(&mut self, m: CubeMove)
        ensures
            final(self).cubics@ == spec_state_moved_inv(old(self).cubics@, m),
            final(self).default_cubics@ == old(self).default_cubics@,
            old(self).wf() ==> final(self).wf(),
    {
        let ghost orig = self.cubics@;
        self.do_move(m);
        self.do_move(m);
        self.do_move(m);
        proof {
            let t = spec_state_moved(spec_state_moved(spec_state_moved(orig, m), m), m);
            assert forall|i: int| 0 <= i < orig.len() implies t[i] == spec_state_moved_inv(
                orig,
                m,
            )[i] by {
                lemma_cubic_inv_is_three_forward(orig[i], m);
            }
            assert(t =~= spec_state_moved_inv(orig, m));
        }
    }

    /// The three composite identifiers reached from the current state by
    /// one application of each generator, in the order right, up, front.
    pub fn get_branches(&self) -> (r: [PermId; 3])
        requires
            self.wf(),
        ensures
            r[0].wf() && r[0].spec_id() == spec_state_composite_id(
                spec_state_moved(self.cubics@, CubeMove::Right),
            ),
            r[1].wf() && r[1].spec_id() == spec_state_composite_id(
                spec_state_moved(self.cubics@, CubeMove::Up),
            ),
            r[2].wf() && r[2].spec_id() == spec_state_composite_id(
                spec_state_moved(self.cubics@, CubeMove::Front),
            ),
    {
        let mut cube1 = self.clone();
        let mut cube2 = self.clone();
        let mut cube3 = self.clone();
        proof {
            assert(cube1.wf());
            assert(cube2.wf());
            assert(cube3.wf());
        }
        cube1.do_move(CubeMove::Right);
        cube2.do_move(CubeMove::Up);
        cube3.do_move(CubeMove::Front);
        [cube1.get_perm_id(), cube2.get_perm_id(), cube3.get_perm_id()]
    }

    /// The three face colors currently shown at slot `pos`, in
    /// orientation order.
    pub fn get_sides(&self, pos: CornerPos) -> (r: [CubeRealSide; 3])
        requires
            self.wf(),
        ensures
            r@ == spec_sides_at(self.cubics@, pos),
    {
        proof {
            lemma_slot_occupied(self.cubics@, pos);
            lemma_wf_positions_distinct(self.cubics@);
        }
        let mut i: usize = 0;
        while i < 8
            invariant
                i <= 8,
                self.wf(),
                forall|k: int| 0 <= k < i ==> (#[trigger] self.cubics@[k]).curr_pos != pos,
            decreases 8 - i,
        {
            let c = self.cubics[i];
            if c.get_pos() == pos {
                proof {
                    lemma_slot_occupied(self.cubics@, pos);
                    lemma_wf_positions_distinct(self.cubics@);
                    assert(spec_cubie_index_at(self.cubics@, pos) == i);
                }
                return c.get_sides_rotated();
            }
            i = i + 1;
        }
        proof {
            let w = spec_cubie_index_at(self.cubics@, pos);
            assert(self.cubics@[w].curr_pos != pos);
            assert(false);
        }
        [CubeRealSide::U, CubeRealSide::U, CubeRealSide::U]
    }

    /// The 24 sticker colors of the current state, face by face in the
    /// order up, left, front, right, back, down.
    pub fn to_facelets(&self) -> (r: [CubeRealSide; 24])
        requires
            self.wf(),
        ensures
            r@ == spec_facelets(self.cubics@),
    {
        let fur = self.get_sides(CornerPos::FUR);
        let ful = self.get_sides(CornerPos::FUL);
        let fdr = self.get_sides(CornerPos::FDR);
        let fdl = self.get_sides(CornerPos::FDL);
        let bur = self.get_sides(CornerPos::BUR);
        let bul = self.get_sides(CornerPos::BUL);
        let bdr = self.get_sides(CornerPos::BDR);
        let bdl = self.get_sides(CornerPos::BDL);
        let r: [CubeRealSide; 24] = [
            bul[0], bur[0], ful[0], fur[0],
            bul[2], ful[1], bdl[1], fdl[2],
            ful[2], fur[1], fdl[1], fdr[2],
            fur[2], bur[1], fdr[1], bdr[2],
            bur[2], bul[1], bdr[1], bdl[2],
            fdl[0], fdr[0], bdl[0], bdr[0],
        ];
        proof {
            assert(r@ =~= spec_facelets(self.cubics@));
        }
        r
    }
}

/// The image of one cubie under the derived inverse of move `m`.
pub open spec fn spec_cubic_moved_inv(c: Cubic, m: CubeMove) -> Cubic {
    let p = crate::moves::spec_move_inv(m, c.curr_pos);
    Cubic { curr_pos: p.pos, rot: c.rot.spec_permutate(p.rot), ..c }
}

/// The image of a whole arrangement under the derived inverse of `m`.
pub open spec fn spec_state_moved_inv(s: Seq<Cubic>, m: CubeMove) -> Seq<Cubic> {
    s.map_values(|c: Cubic| spec_cubic_moved_inv(c, m))
}

/// Modulo-3 flattening of one composition step: composing a twist whose
/// value is already reduced with a further delta below 3.
proof fn lemma_mod3_chain(x: int, y: int)
    requires
        0 <= y < 3,
    ensures
        ((x % 3) + y) % 3 == (x + y) % 3,
{
    vstd::arithmetic::div_mod::lemma_add_mod_noop(x, y, 3);
}

/// Four applications of a move return any cubie to its original slot
/// and orientation.
#[verifier::rlimit(50)]
proof fn lemma_cubic_move_order_four(c: Cubic, m: CubeMove)
    ensures
        spec_cubic_moved(spec_cubic_moved(spec_cubic_moved(spec_cubic_moved(c, m), m), m), m)
            == c,
{
    crate::moves::lemma_move_order_four(m, c.curr_pos);
    let a = c.rot.as_int();
    let p1 = spec_move(m, c.curr_pos);
    let p2 = spec_move(m, p1.pos);
    let p3 = spec_move(m, p2.pos);
    let p4 = spec_move(m, p3.pos);
    let d1 = p1.rot.as_int();
    let d2 = p2.rot.as_int();
    let d3 = p3.rot.as_int();
    let d4 = p4.rot.as_int();
    c.rot.lemma_as_int();
    p1.rot.lemma_as_int();
    p2.rot.lemma_as_int();
    p3.rot.lemma_as_int();
    p4.rot.lemma_as_int();
    let c1 = spec_cubic_moved(c, m);
    let c2 = spec_cubic_moved(c1, m);
    let c3 = spec_cubic_moved(c2, m);
    let c4 = spec_cubic_moved(c3, m);
    c1.rot.lemma_as_int();
    c2.rot.lemma_as_int();
    c3.rot.lemma_as_int();
    assert(c1.rot.as_int() == (a + d1) % 3);
    lemma_mod3_chain(a + d1, d2);
    assert(c2.rot.as_int() == (a + d1 + d2) % 3);
    lemma_mod3_chain(a + d1 + d2, d3);
    assert(c3.rot.as_int() == (a + d1 + d2 + d3) % 3);
    lemma_mod3_chain(a + d1 + d2 + d3, d4);
    assert(c4.rot.as_int() == (a + d1 + d2 + d3 + d4) % 3);
    vstd::arithmetic::div_mod::lemma_add_mod_noop_right(a, d1 + d2 + d3 + d4, 3);
    assert((a + (d1 + d2 + d3 + d4) % 3) % 3 == (a + d1 + d2 + d3 + d4) % 3);
    assert(c4.rot.as_int() == a % 3);
    assert(c4.rot.as_int() == a);
    assert(c4.rot == c.rot);
    assert(c4.curr_pos == c.curr_pos);
}

/// A move followed by its derived inverse returns any cubie to its
/// original slot and orientation.
proof fn lemma_cubic_move_then_inverse(c: Cubic, m: CubeMove)
    ensures
        spec_cubic_moved_inv(spec_cubic_moved(c, m), m) == c,
{
    crate::moves::lemma_move_then_inverse(m, c.curr_pos);
    let a = c.rot.as_int();
    let fwd = spec_move(m, c.curr_pos);
    let inv = crate::moves::spec_move_inv(m, fwd.pos);
    let d = fwd.rot.as_int();
    let di = inv.rot.as_int();
    c.rot.lemma_as_int();
    fwd.rot.lemma_as_int();
    inv.rot.lemma_as_int();
    let c1 = spec_cubic_moved(c, m);
    let c2 = spec_cubic_moved_inv(c1, m);
    c1.rot.lemma_as_int();
    assert(c1.rot.as_int() == (a + d) % 3);
    lemma_mod3_chain(a + d, di);
    assert(c2.rot.as_int() == (a + d + di) % 3);
    vstd::arithmetic::div_mod::lemma_add_mod_noop_right(a, d + di, 3);
    assert(c2.rot.as_int() == a % 3);
    c2.rot.lemma_as_int();
    assert(c2.rot == c.rot);
    assert(c2.curr_pos == c.curr_pos);
}

/// Three forward applications of a move act on a cubie exactly as the
/// derived inverse does.
#[verifier::rlimit(50)]
proof fn lemma_cubic_inv_is_three_forward(c: Cubic, m: CubeMove)
    ensures
        spec_cubic_moved(spec_cubic_moved(spec_cubic_moved(c, m), m), m) == spec_cubic_moved_inv(
            c,
            m,
        ),
{
    let a = c.rot.as_int();
    let p1 = spec_move(m, c.curr_pos);
    let p2 = spec_move(m, p1.pos);
    let p3 = spec_move(m, p2.pos);
    let d1 = p1.rot.as_int();
    let d2 = p2.rot.as_int();
    let d3 = p3.rot.as_int();
    c.rot.lemma_as_int();
    p1.rot.lemma_as_int();
    p2.rot.lemma_as_int();
    p3.rot.lemma_as_int();
    let c1 = spec_cubic_moved(c, m);
    let c2 = spec_cubic_moved(c1, m);
    let c3 = spec_cubic_moved(c2, m);
    c1.rot.lemma_as_int();
    c2.rot.lemma_as_int();
    assert(c1.rot.as_int() == (a + d1) % 3);
    lemma_mod3_chain(a + d1, d2);
    assert(c2.rot.as_int() == (a + d1 + d2) % 3);
    lemma_mod3_chain(a + d1 + d2, d3);
    assert(c3.rot.as_int() == (a + d1 + d2 + d3) % 3);
    let inv = crate::moves::spec_move_inv(m, c.curr_pos);
    let e1 = p1.rot.spec_permutate(p2.rot);
    e1.lemma_as_int();
    assert(e1.as_int() == (d1 + d2) % 3);
    lemma_mod3_chain(d1 + d2, d3);
    assert(inv.rot.as_int() == (d1 + d2 + d3) % 3);
    let ci = spec_cubic_moved_inv(c, m);
    ci.rot.lemma_as_int();
    vstd::arithmetic::div_mod::lemma_add_mod_noop_right(a, d1 + d2 + d3, 3);
    assert(ci.rot.as_int() == (a + (d1 + d2 + d3) % 3) % 3);
    assert(ci.rot.as_int() == (a + d1 + d2 + d3) % 3);
    c3.rot.lemma_as_int();
    assert(c3.rot == ci.rot);
    assert(c3.curr_pos == inv.pos);
    assert(ci.curr_pos == inv.pos);
}

/// Quarter-turn order 4 at the level of whole arrangements: applying the
/// same move four times returns every state — and hence its composite
/// identifier — to where it started.
pub proof fn lemma_state_move_order_four(s: Seq<Cubic>, m: CubeMove)
    ensures
        spec_state_moved(spec_state_moved(spec_state_moved(spec_state_moved(s, m), m), m), m)
            == s,
        spec_state_composite_id(
            spec_state_moved(spec_state_moved(spec_state_moved(spec_state_moved(s, m), m), m), m),
        ) == spec_state_composite_id(s),
{
    let t = spec_state_moved(
        spec_state_moved(spec_state_moved(spec_state_moved(s, m), m), m),
        m,
    );
    assert forall|i: int| 0 <= i < s.len() implies t[i] == s[i] by {
        lemma_cubic_move_order_four(s[i], m);
    }
    assert(t =~= s);
}

/// A move followed by its derived inverse returns every state — and
/// hence its composite identifier — to where it started.
pub proof fn lemma_state_move_then_inverse(s: Seq<Cubic>, m: CubeMove)
    ensures
        spec_state_moved_inv(spec_state_moved(s, m), m) == s,
        spec_state_composite_id(spec_state_moved_inv(spec_state_moved(s, m), m))
            == spec_state_composite_id(s),
{
    let t = spec_state_moved_inv(spec_state_moved(s, m), m);
    assert forall|i: int| 0 <= i < s.len() implies t[i] == s[i] by {
        lemma_cubic_move_then_inverse(s[i], m);
    }
    assert(t =~= s);
}

/// The image of one cubie under move `m`: the slot is mapped and the
/// orientation delta is composed; the cubie's identity is untouched.
pub open spec fn spec_cubic_moved(c: Cubic, m: CubeMove) -> Cubic {
    let p = spec_move(m, c.curr_pos);
    Cubic { curr_pos: p.pos, rot: c.rot.spec_permutate(p.rot), ..c }
}

/// The image of a whole arrangement under move `m`.
pub open spec fn spec_state_moved(s: Seq<Cubic>, m: CubeMove) -> Seq<Cubic> {
    s.map_values(|c: Cubic| spec_cubic_moved(c, m))
}

/// The orientation delta of move `m` at the slot with index `p`.
pub open spec fn spec_move_delta(m: CubeMove, p: u32) -> int {
    spec_move(m, CornerPos::spec_from_int(p as int)).rot.as_int()
}

/// Accumulating form of the delta sum, for use with `fold_right`.
pub open spec fn spec_delta_f(m: CubeMove) -> spec_fn(u32, int) -> int {
    |p: u32, acc: int| acc + spec_move_delta(m, p)
}

/// Sum of the orientation deltas of `m` over a sequence of slot indices.
pub open spec fn spec_psum(ps: Seq<u32>, m: CubeMove) -> int
    decreases ps.len(),
{
    if ps.len() == 0 {
        0
    } else {
        spec_psum(ps.drop_last(), m) + spec_move_delta(m, ps.last())
    }
}

/// Sum of the orientation deltas of `m` at the slots of the first `k`
/// cubies.
pub open spec fn spec_delta_sum(s: Seq<Cubic>, m: CubeMove, k: int) -> int
    decreases k,
{
    if k <= 0 {
        0
    } else {
        spec_delta_sum(s, m, k - 1) + spec_move(m, s[k - 1].curr_pos).rot.as_int()
    }
}

proof fn lemma_fold_psum(ps: Seq<u32>, m: CubeMove, v: int)
    ensures
        ps.fold_right(spec_delta_f(m), v) == v + spec_psum(ps, m),
    decreases ps.len(),
{
    if ps.len() > 0 {
        lemma_fold_psum(ps.drop_last(), m, (spec_delta_f(m))(ps.last(), v));
    }
}

proof fn lemma_delta_sum_is_psum(s: Seq<Cubic>, m: CubeMove, k: int)
    requires
        0 <= k <= 7,
        s.len() == 8,
    ensures
        spec_delta_sum(s, m, k) == spec_psum(spec_positions(s).take(k), m),
    decreases k,
{
    let ps = spec_positions(s);
    if k > 0 {
        lemma_delta_sum_is_psum(s, m, k - 1);
        assert(ps.take(k).drop_last() =~= ps.take(k - 1));
        assert(ps.take(k).last() == ps[k - 1]);
        s[k - 1].curr_pos.lemma_as_int();
        assert(spec_move_delta(m, ps[k - 1]) == spec_move(m, s[k - 1].curr_pos).rot.as_int());
    } else {
        assert(ps.take(0) =~= Seq::<u32>::empty());
    }
}

/// Summed over the seven free slots, every move's orientation deltas
/// cancel modulo 3.
proof fn lemma_default_delta_fold(m: CubeMove)
    ensures
        spec_psum(spec_default_positions(), m) % 3 == 0,
{
    let d = spec_default_positions();
    assert(d.drop_last() =~= seq![0u32, 1u32, 2u32, 3u32, 4u32, 5u32]);
    assert(seq![0u32, 1u32, 2u32, 3u32, 4u32, 5u32].drop_last() =~= seq![
        0u32,
        1u32,
        2u32,
        3u32,
        4u32,
    ]);
    assert(seq![0u32, 1u32, 2u32, 3u32, 4u32].drop_last() =~= seq![0u32, 1u32, 2u32, 3u32]);
    assert(seq![0u32, 1u32, 2u32, 3u32].drop_last() =~= seq![0u32, 1u32, 2u32]);
    assert(seq![0u32, 1u32, 2u32].drop_last() =~= seq![0u32, 1u32]);
    assert(seq![0u32, 1u32].drop_last() =~= seq![0u32]);
    assert(seq![0u32].drop_last() =~= Seq::<u32>::empty());
    match m {
        CubeMove::Up => {
            assert(spec_psum(d, m) == 0) by {
                reveal_with_fuel(spec_psum, 9);
            }
        },
        CubeMove::Front => {
            assert(spec_psum(d, m) == 6) by {
                reveal_with_fuel(spec_psum, 9);
            }
        },
        CubeMove::Right => {
            assert(spec_psum(d, m) == 6) by {
                reveal_with_fuel(spec_psum, 9);
            }
        },
        CubeMove::Identity => {
            assert(spec_psum(d, m) == 0) by {
                reveal_with_fuel(spec_psum, 9);
            }
        },
    }
}

proof fn lemma_rot_sum_moved(s: Seq<Cubic>, m: CubeMove, k: int)
    requires
        0 <= k <= 7,
        s.len() == 8,
    ensures
        spec_rot_sum(spec_state_moved(s, m), k) % 3 == (spec_rot_sum(s, k) + spec_delta_sum(
            s,
            m,
            k,
        )) % 3,
    decreases k,
{
    let t = spec_state_moved(s, m);
    if k > 0 {
        lemma_rot_sum_moved(s, m, k - 1);
        let a = s[k - 1].rot.as_int();
        let dd = spec_move(m, s[k - 1].curr_pos).rot.as_int();
        let x = a + dd;
        assert(t[k - 1] == spec_cubic_moved(s[k - 1], m));
        assert(t[k - 1].rot.as_int() == x % 3);
        let rt = spec_rot_sum(t, k - 1);
        let rs = spec_rot_sum(s, k - 1);
        let ds = spec_delta_sum(s, m, k - 1);
        vstd::arithmetic::div_mod::lemma_add_mod_noop_right(rt, x, 3);
        vstd::arithmetic::div_mod::lemma_add_mod_noop(rt, x, 3);
        vstd::arithmetic::div_mod::lemma_add_mod_noop(rs + ds, x, 3);
        assert(spec_rot_sum(t, k) == rt + x % 3);
        assert(spec_rot_sum(s, k) + spec_delta_sum(s, m, k) == rs + ds + x);
        assert((rt + x % 3) % 3 == (rt + x) % 3);
        assert((rt + x) % 3 == ((rt % 3) + (x % 3)) % 3);
        assert(((rs + ds) % 3 + (x % 3)) % 3 == (rs + ds + x) % 3);
    }
}

/// The orientation values of the first six cubies, as base-3 digits.
pub open spec fn spec_rots6(s: Seq<Cubic>) -> Seq<u32> {
    Seq::new(6, |i: int| s[i].rot.as_int() as u32)
}

/// Sum of the first `k` digits of a digit sequence.
pub open spec fn spec_digit_sum(s: Seq<u32>, k: int) -> int
    decreases k,
{
    if k <= 0 {
        0
    } else {
        spec_digit_sum(s, k - 1) + s[k - 1]
    }
}

/// The rank of the current arrangement of the seven free cubies.
pub open spec fn spec_state_pos_id(s: Seq<Cubic>) -> int {
    spec_index_arr_to_id(spec_rank(spec_positions(s), spec_default_positions()))
}

/// The six free orientations packed as a base-3 number.
pub open spec fn spec_state_rot_id(s: Seq<Cubic>) -> int {
    spec_base3_eval(spec_rots6(s))
}

/// The composite identifier of an arrangement.
pub open spec fn spec_state_composite_id(s: Seq<Cubic>) -> int {
    5040 * spec_state_rot_id(s) + spec_state_pos_id(s)
}

/// The arrangement encoded by a composite identifier: the position part
/// is unranked over the seven free slots, the orientation part is
/// unpacked into six base-3 digits, and the seventh free cubie receives
/// the orientation that makes the sum of all seven orientations vanish
/// modulo 3.
pub open spec fn spec_cubics_of_id(idv: int) -> Seq<Cubic> {
    let pos_digits = spec_id_to_index_arr(idv % 5040, 7);
    let posperm = spec_unrank(spec_default_positions(), pos_digits);
    let rot_digits = spec_smushed_to_array(idv / 5040, 6);
    let last_rot = (3 - spec_digit_sum(rot_digits, 6) % 3) % 3;
    Seq::new(
        8,
        |i: int|
            if i < 6 {
                Cubic {
                    curr_pos: CornerPos::spec_from_int(posperm[i] as int),
                    rot: CornerTwist::spec_from_int(rot_digits[i] as int),
                    ..spec_default_cubics()[i]
                }
            } else if i == 6 {
                Cubic {
                    curr_pos: CornerPos::spec_from_int(posperm[6] as int),
                    rot: CornerTwist::spec_from_int(last_rot),
                    ..spec_default_cubics()[6]
                }
            } else {
                spec_default_cubics()[7]
            },
    )
}

/// Seven pairwise-distinct slot indices below 7 are exactly the seven
/// free slots, as a multiset.
proof fn lemma_seven_distinct_positions(s: Seq<u32>)
    requires
        s.len() == 7,
        s.no_duplicates(),
        forall|i: int| 0 <= i < 7 ==> (#[trigger] s[i]) < 7,
    ensures
        s.to_multiset() == spec_default_positions().to_multiset(),
{
    broadcast use vstd::seq_lib::group_to_multiset_ensures;
    broadcast use vstd::multiset::group_multiset_axioms;
    broadcast use vstd::set_lib::group_set_properties;
    broadcast use vstd::seq_lib::seq_to_set_is_finite;

    let d = spec_default_positions();
    assert(d.no_duplicates());
    s.unique_seq_to_set();
    d.unique_seq_to_set();
    assert forall|x: u32| s.to_set().contains(x) implies d.to_set().contains(x) by {
        assert(s.contains(x));
        let i = choose|i: int| 0 <= i < s.len() && s[i] == x;
        assert(s[i] < 7);
        assert(d[x as int] == x);
        assert(d.contains(x));
    }
    assert(s.to_set().subset_of(d.to_set()));
    vstd::set_lib::lemma_subset_equality(s.to_set(), d.to_set());
    s.lemma_multiset_has_no_duplicates();
    d.lemma_multiset_has_no_duplicates();
    assert forall|x: u32| s.to_multiset().count(x) == d.to_multiset().count(x) by {
        assert(s.contains(x) <==> s.to_multiset().count(x) > 0);
        assert(d.contains(x) <==> d.to_multiset().count(x) > 0);
        assert(s.to_set().contains(x) == s.contains(x));
        assert(d.to_set().contains(x) == d.contains(x));
        if s.contains(x) {
            assert(s.to_multiset().count(x) == 1);
            assert(d.to_multiset().count(x) == 1);
        } else {
            assert(s.to_multiset().count(x) == 0);
            assert(d.to_multiset().count(x) == 0);
        }
    }
    assert(s.to_multiset() =~= d.to_multiset());
}

/// The index of the cubie currently occupying slot `pos`.
pub open spec fn spec_cubie_index_at(s: Seq<Cubic>, pos: CornerPos) -> int {
    choose|i: int| 0 <= i < 8 && s[i].curr_pos == pos
}

/// The face colors shown at slot `pos`, in orientation order.
pub open spec fn spec_sides_at(s: Seq<Cubic>, pos: CornerPos) -> Seq<CubeRealSide> {
    s[spec_cubie_index_at(s, pos)].spec_sides_rotated()@
}

/// The 24 sticker colors of a well-formed arrangement, face by face in
/// the order up, left, front, right, back, down, four stickers each.
pub open spec fn spec_facelets(s: Seq<Cubic>) -> Seq<CubeRealSide> {
    let fur = spec_sides_at(s, CornerPos::FUR);
    let ful = spec_sides_at(s, CornerPos::FUL);
    let fdr = spec_sides_at(s, CornerPos::FDR);
    let fdl = spec_sides_at(s, CornerPos::FDL);
    let bur = spec_sides_at(s, CornerPos::BUR);
    let bul = spec_sides_at(s, CornerPos::BUL);
    let bdr = spec_sides_at(s, CornerPos::BDR);
    let bdl = spec_sides_at(s, CornerPos::BDL);
    seq![
        bul[0], bur[0], ful[0], fur[0],
        bul[2], ful[1], bdl[1], fdl[2],
        ful[2], fur[1], fdl[1], fdr[2],
        fur[2], bur[1], fdr[1], bdr[2],
        bur[2], bul[1], bdr[1], bdl[2],
        fdl[0], fdr[0], bdl[0], bdr[0],
    ]
}

/// In a well-formed arrangement, no two cubies share a slot.
pub proof fn lemma_wf_positions_distinct(s: Seq<Cubic>)
    requires
        wf_cubics(s),
    ensures
        forall|i: int, j: int|
            0 <= i < 8 && 0 <= j < 8 && i != j ==> (#[trigger] s[i]).curr_pos != (
            #[trigger] s[j]).curr_pos,
{
    broadcast use vstd::seq_lib::group_to_multiset_ensures;
    broadcast use vstd::multiset::group_multiset_axioms;

    let sp = spec_positions(s);
    let d = spec_default_positions();
    d.lemma_multiset_has_no_duplicates();
    assert(d.no_duplicates());
    assert forall|x: u32| sp.to_multiset().contains(x) implies sp.to_multiset().count(x) == 1 by {
        assert(d.to_multiset().contains(x) ==> d.to_multiset().count(x) == 1);
    }
    sp.lemma_multiset_has_no_duplicates_conv();
    assert forall|i: int| 0 <= i < 7 implies (#[trigger] sp[i]) < 7 by {
        assert(sp.contains(sp[i]));
        assert(sp.to_multiset().count(sp[i]) > 0);
        assert(d.to_multiset().count(sp[i]) > 0);
        assert(d.contains(sp[i]));
        let w = choose|w: int| 0 <= w < d.len() && d[w] == sp[i];
        assert(d[w] < 7);
    }
    assert forall|i: int, j: int|
        0 <= i < 8 && 0 <= j < 8 && i != j implies (#[trigger] s[i]).curr_pos != (
    #[trigger] s[j]).curr_pos by {
        s[i].curr_pos.lemma_as_int();
        s[j].curr_pos.lemma_as_int();
        if i < 7 && j < 7 {
            if s[i].curr_pos == s[j].curr_pos {
                assert(sp[i] == sp[j]);
                assert(false);
            }
        } else if i == 7 && j < 7 {
            assert(s[i].curr_pos == CornerPos::BDL);
            assert(sp[j] < 7);
            assert(s[j].curr_pos.as_int() < 7);
        } else if j == 7 && i < 7 {
            assert(s[j].curr_pos == CornerPos::BDL);
            assert(sp[i] < 7);
            assert(s[i].curr_pos.as_int() < 7);
        }
    }
}

/// In a well-formed arrangement, every slot is occupied by some cubie.
pub proof fn lemma_slot_occupied(s: Seq<Cubic>, pos: CornerPos)
    requires
        wf_cubics(s),
    ensures
        exists|i: int| 0 <= i < 8 && (#[trigger] s[i]).curr_pos == pos,
        0 <= spec_cubie_index_at(s, pos) < 8,
        s[spec_cubie_index_at(s, pos)].curr_pos == pos,
{
    broadcast use vstd::seq_lib::group_to_multiset_ensures;
    broadcast use vstd::multiset::group_multiset_axioms;

    pos.lemma_as_int();
    if pos == CornerPos::BDL {
        assert(s[7].curr_pos == pos);
    } else {
        let sp = spec_positions(s);
        let d = spec_default_positions();
        let v = pos.as_int() as u32;
        assert(v < 7);
        assert(d[v as int] == v);
        assert(d.contains(v));
        assert(d.to_multiset().count(v) > 0);
        assert(sp.to_multiset().count(v) > 0);
        assert(sp.contains(v));
        let k = choose|k: int| 0 <= k < sp.len() && sp[k] == v;
        assert(s[k].curr_pos.as_int() == v);
        s[k].curr_pos.lemma_as_int();
        assert(s[k].curr_pos == pos);
    }
    let w = choose|i: int| 0 <= i < 8 && (#[trigger] s[i]).curr_pos == pos;
    assert(s[w].curr_pos == pos);
}

/// Round trip: decoding any valid composite identifier yields a
/// well-formed arrangement that re-encodes to exactly that identifier.
/// In particular the orientation sum of the decoded arrangement's seven
/// free cubies vanishes modulo 3.
#[verifier::rlimit(50)]
pub proof fn lemma_composite_round_trip(idv: int)
    requires
        0 <= idv < 3674160,
    ensures
        wf_cubics(spec_cubics_of_id(idv)),
        spec_state_pos_id(spec_cubics_of_id(idv)) == idv % 5040,
        spec_state_rot_id(spec_cubics_of_id(idv)) == idv / 5040,
        spec_state_composite_id(spec_cubics_of_id(idv)) == idv,
{
    broadcast use vstd::seq_lib::group_to_multiset_ensures;
    broadcast use vstd::multiset::group_multiset_axioms;

    let d = spec_default_positions();
    let p = idv % 5040;
    let r = idv / 5040;
    vstd::arithmetic::div_mod::lemma_fundamental_div_mod(idv, 5040);
    vstd::arithmetic::div_mod::lemma_remainder_lower(idv, 5040);
    vstd::arithmetic::div_mod::lemma_remainder_upper(idv, 5040);
    assert(0 <= p < 5040);
    assert(0 <= r < 729) by (nonlinear_arith)
        requires idv == 5040 * r + p, 0 <= p < 5040, 0 <= idv < 3674160;
    lemma_fact_7();
    lemma_pow3_6();
    lemma_id_to_index_arr_props(p, 7);
    let pos_digits = spec_id_to_index_arr(p, 7);
    lemma_unrank_multiset(d, pos_digits);
    let posperm = spec_unrank(d, pos_digits);
    assert forall|i: int| 0 <= i < 7 implies (#[trigger] posperm[i]) < 7 by {
        assert(posperm.contains(posperm[i]));
        assert(posperm.to_multiset().count(posperm[i]) > 0);
        assert(d.to_multiset().count(posperm[i]) > 0);
        assert(d.contains(posperm[i]));
        let w = choose|w: int| 0 <= w < d.len() && d[w] == posperm[i];
        assert(d[w] < 7);
    }
    let s = spec_cubics_of_id(idv);
    lemma_smushed_round_trip(r, 6);
    let rot_digits = spec_smushed_to_array(r, 6);
    let sum6 = spec_digit_sum(rot_digits, 6);
    let last = (3 - sum6 % 3) % 3;
    assert(sum6 >= 0) by {
        reveal_with_fuel(spec_digit_sum, 7);
    }
    assert(0 <= sum6 % 3 < 3);
    assert(0 <= last < 3);
    // The position part re-ranks to its digits, which evaluate to p.
    assert(spec_positions(s) =~= posperm) by {
        assert forall|i: int| 0 <= i < 7 implies spec_positions(s)[i] == posperm[i] by {
            assert(s[i].curr_pos == CornerPos::spec_from_int(posperm[i] as int));
            CornerPos::spec_from_int(posperm[i] as int).lemma_as_int();
        }
    }
    assert(d.no_duplicates());
    lemma_rank_unrank(d, pos_digits);
    assert(spec_state_pos_id(s) == p);
    // The orientation part re-packs to its digits, which evaluate to r.
    assert(spec_rots6(s) =~= rot_digits) by {
        assert forall|i: int| 0 <= i < 6 implies spec_rots6(s)[i] == rot_digits[i] by {
            assert(s[i].rot == CornerTwist::spec_from_int(rot_digits[i] as int));
            assert(rot_digits[i] < 3);
        }
    }
    assert(spec_state_rot_id(s) == r);
    assert(spec_state_composite_id(s) == idv);
    // Well-formedness: the gauge cubie is pinned, identities are kept,
    // the free slots are covered, and the orientation sum vanishes.
    assert(s.len() == 8);
    assert(s[7] == spec_default_cubics()[7]);
    assert(spec_positions(s).to_multiset() == d.to_multiset());
    assert(s[6].rot.as_int() == last);
    assert forall|i: int| 0 <= i < 6 implies s[i].rot.as_int() == rot_digits[i] by {
        assert(rot_digits[i] < 3);
    }
    assert(spec_rot_sum(s, 6) == spec_digit_sum(rot_digits, 6)) by {
        reveal_with_fuel(spec_rot_sum, 7);
        reveal_with_fuel(spec_digit_sum, 7);
    }
    assert(spec_rot_sum(s, 7) == sum6 + last);
    vstd::arithmetic::div_mod::lemma_add_mod_noop(sum6, last, 3);
    assert((sum6 + last) % 3 == 0) by {
        assert(((sum6 % 3) + (last % 3)) % 3 == (sum6 + last) % 3);
        assert(last % 3 == last);
        if sum6 % 3 == 0 {
            assert(last == 0);
        } else if sum6 % 3 == 1 {
            assert(last == 2);
        } else {
            assert(last == 1);
        }
    }
    assert(wf_cubics(s));
}

/// After decoding, the sum of the seven free cubies' orientation values
/// is 0 modulo 3, for every valid identifier.
pub proof fn lemma_orientation_invariant(idv: int)
    requires
        0 <= idv < 3674160,
    ensures
        spec_rot_sum(spec_cubics_of_id(idv), 7) % 3 == 0,
{
    lemma_composite_round_trip(idv);
}

/// Every well-formed arrangement encodes to a composite identifier in
/// `[0, 3674160)`, with position part in `[0, 5040)` and orientation
/// part in `[0, 729)`: the encoding maps the reachable states onto the
/// dense identifier range.
pub proof fn lemma_composite_id_range(s: Seq<Cubic>)
    requires
        wf_cubics(s),
    ensures
        0 <= spec_state_pos_id(s) < 5040,
        0 <= spec_state_rot_id(s) < 729,
        0 <= spec_state_composite_id(s) < 3674160,
{
    let d = spec_default_positions();
    assert(d.no_duplicates());
    lemma_fact_7();
    lemma_pow3_6();
    lemma_unrank_rank(d, spec_positions(s));
    lemma_index_arr_to_id_bound(spec_rank(spec_positions(s), d));
    let rs = spec_rots6(s);
    assert forall|j: int| 0 <= j < 6 implies (#[trigger] rs[j]) < 3 by {
        assert(rs[j] == s[j].rot.as_int() as u32);
    }
    lemma_base3_eval_bound(rs);
}

/// The converse round trip: encoding any well-formed arrangement and
/// decoding the resulting identifier gives back exactly that
/// arrangement. Together with [`lemma_composite_round_trip`] and
/// [`lemma_composite_id_range`], the encoding is a bijection between
/// well-formed arrangements and `[0, 3674160)`.
#[verifier::rlimit(50)]
pub proof fn lemma_state_round_trip(s: Seq<Cubic>)
    requires
        wf_cubics(s),
    ensures
        spec_cubics_of_id(spec_state_composite_id(s)) == s,
{
    let d = spec_default_positions();
    let c = spec_state_composite_id(s);
    let pos = spec_state_pos_id(s);
    let rot = spec_state_rot_id(s);
    lemma_composite_id_range(s);
    vstd::arithmetic::div_mod::lemma_fundamental_div_mod_converse(c, 5040, rot, pos);
    assert(c % 5040 == pos);
    assert(c / 5040 == rot);
    lemma_fact_7();
    lemma_pow3_6();
    assert(d.no_duplicates());
    // The decoded position digits equal the rank of the arrangement's
    // positions, because factorial-base evaluation is injective.
    lemma_unrank_rank(d, spec_positions(s));
    let rank_digits = spec_rank(spec_positions(s), d);
    lemma_id_to_index_arr_props(pos, 7);
    let pos_digits = spec_id_to_index_arr(pos, 7);
    crate::perm::lemma_index_arr_to_id_injective(pos_digits, rank_digits);
    assert(spec_unrank(d, pos_digits) == spec_positions(s));
    // The decoded orientation digits equal the arrangement's first six
    // orientations, because base-3 evaluation is injective.
    let rs = spec_rots6(s);
    assert forall|j: int| 0 <= j < 6 implies (#[trigger] rs[j]) < 3 by {
        assert(rs[j] == s[j].rot.as_int() as u32);
    }
    lemma_smushed_round_trip(rot, 6);
    let rot_digits = spec_smushed_to_array(rot, 6);
    crate::perm::lemma_base3_eval_injective(rot_digits, rs);
    // The seventh free orientation is pinned by the vanishing sum.
    let sum6 = spec_digit_sum(rot_digits, 6);
    assert(spec_rot_sum(s, 6) == sum6) by {
        reveal_with_fuel(spec_rot_sum, 7);
        reveal_with_fuel(spec_digit_sum, 7);
    }
    assert(sum6 >= 0) by {
        reveal_with_fuel(spec_digit_sum, 7);
    }
    let a6 = s[6].rot.as_int();
    assert(spec_rot_sum(s, 7) == sum6 + a6);
    assert((sum6 + a6) % 3 == 0);
    let last = (3 - sum6 % 3) % 3;
    vstd::arithmetic::div_mod::lemma_add_mod_noop(sum6, a6, 3);
    assert(a6 == last) by {
        assert(((sum6 % 3) + (a6 % 3)) % 3 == (sum6 + a6) % 3);
        assert(a6 % 3 == a6);
        assert(0 <= sum6 % 3 < 3);
    }
    // All eight cubies of the decoded arrangement agree with `s`.
    let t = spec_cubics_of_id(c);
    assert forall|i: int| 0 <= i < 8 implies t[i] == s[i] by {
        s[i].curr_pos.lemma_as_int();
        s[i].rot.lemma_as_int();
        if i < 7 {
            assert(spec_positions(s)[i] == s[i].curr_pos.as_int() as u32);
            assert(t[i].curr_pos == CornerPos::spec_from_int(spec_positions(s)[i] as int));
            if i < 6 {
                assert(t[i].rot == CornerTwist::spec_from_int(rs[i] as int));
            } else {
                assert(t[6].rot == CornerTwist::spec_from_int(last));
            }
        } else {
            assert(s[7].curr_pos == CornerPos::BDL);
            assert(s[7].rot == CornerTwist::Rot0);
        }
    }
    assert(t =~= s);
}

/// The identity case: the freshly constructed default arrangement has
/// composite identifier 0.
pub proof fn lemma_solved_composite_zero()
    ensures
        spec_state_pos_id(spec_default_cubics()) == 0,
        spec_state_rot_id(spec_default_cubics()) == 0,
        spec_state_composite_id(spec_default_cubics()) == 0,
{
    let s = spec_default_cubics();
    let d = spec_default_positions();
    assert(spec_positions(s) =~= d);
    let zeros = seq![0u32, 0u32, 0u32, 0u32, 0u32, 0u32, 0u32];
    assert(spec_rank(d, d) =~= zeros) by {
        reveal_with_fuel(spec_rank, 8);
        reveal_with_fuel(crate::perm::spec_find, 2);
    }
    assert(zeros.drop_first() =~= seq![0u32, 0u32, 0u32, 0u32, 0u32, 0u32]);
    assert(seq![0u32, 0u32, 0u32, 0u32, 0u32, 0u32].drop_first() =~= seq![
        0u32,
        0u32,
        0u32,
        0u32,
        0u32,
    ]);
    assert(seq![0u32, 0u32, 0u32, 0u32, 0u32].drop_first() =~= seq![0u32, 0u32, 0u32, 0u32]);
    assert(seq![0u32, 0u32, 0u32, 0u32].drop_first() =~= seq![0u32, 0u32, 0u32]);
    assert(seq![0u32, 0u32, 0u32].drop_first() =~= seq![0u32, 0u32]);
    assert(seq![0u32, 0u32].drop_first() =~= seq![0u32]);
    assert(seq![0u32].drop_first() =~= Seq::<u32>::empty());
    assert(spec_index_arr_to_id(Seq::<u32>::empty()) == 0);
    assert(spec_index_arr_to_id(seq![0u32]) == 0);
    assert(spec_index_arr_to_id(seq![0u32, 0u32]) == 0);
    assert(spec_index_arr_to_id(seq![0u32, 0u32, 0u32]) == 0);
    assert(spec_index_arr_to_id(seq![0u32, 0u32, 0u32, 0u32]) == 0);
    assert(spec_index_arr_to_id(seq![0u32, 0u32, 0u32, 0u32, 0u32]) == 0);
    assert(spec_index_arr_to_id(seq![0u32, 0u32, 0u32, 0u32, 0u32, 0u32]) == 0);
    assert(spec_index_arr_to_id(zeros) == 0);
    let rzeros = spec_rots6(s);
    assert(rzeros =~= seq![0u32, 0u32, 0u32, 0u32, 0u32, 0u32]);
    assert(spec_base3_eval(Seq::<u32>::empty()) == 0);
    assert(spec_base3_eval(seq![0u32]) == 0);
    assert(spec_base3_eval(seq![0u32, 0u32]) == 0);
    assert(spec_base3_eval(seq![0u32, 0u32, 0u32]) == 0);
    assert(spec_base3_eval(seq![0u32, 0u32, 0u32, 0u32]) == 0);
    assert(spec_base3_eval(seq![0u32, 0u32, 0u32, 0u32, 0u32]) == 0);
    assert(spec_base3_eval(seq![0u32, 0u32, 0u32, 0u32, 0u32, 0u32]) == 0);
    assert(spec_base3_eval(rzeros) == 0);
}

/// Moves preserve well-formedness: the seven free cubies still occupy
/// the seven free slots, the gauge cubie stays pinned, and the
/// orientation sum stays 0 modulo 3.
pub proof fn lemma_move_preserves_wf(s: Seq<Cubic>, m: CubeMove)
    requires
        wf_cubics(s),
    ensures
        wf_cubics(spec_state_moved(s, m)),
{
    broadcast use vstd::seq_lib::group_to_multiset_ensures;
    broadcast use vstd::multiset::group_multiset_axioms;

    let t = spec_state_moved(s, m);
    let sp = spec_positions(s);
    let tp = spec_positions(t);
    let d = spec_default_positions();
    assert(t.len() == 8);
    assert(forall|i: int| 0 <= i < 8 ==> #[trigger] t[i] == spec_cubic_moved(s[i], m));
    // The gauge cubie stays pinned with no twist.
    crate::moves::lemma_move_fixes_bdl(m);
    assert(t[7].curr_pos == CornerPos::BDL);
    assert(t[7].rot == CornerTwist::Rot0) by {
        assert(s[7].rot.spec_permutate(CornerTwist::Rot0) == CornerTwist::Rot0);
    }
    // The old free positions are distinct (their multiset is the default
    // one, which has no repeats).
    d.lemma_multiset_has_no_duplicates();
    assert(d.no_duplicates());
    assert forall|x: u32| sp.to_multiset().contains(x) implies sp.to_multiset().count(x) == 1 by {
        assert(d.to_multiset().contains(x) ==> d.to_multiset().count(x) == 1);
    }
    sp.lemma_multiset_has_no_duplicates_conv();
    // The new free positions are distinct and again avoid the gauge slot.
    assert forall|i: int| 0 <= i < 7 implies (#[trigger] tp[i]) < 7 by {
        assert(sp[i] < 7) by {
            assert(sp.contains(sp[i]));
            assert(sp.to_multiset().count(sp[i]) > 0);
            assert(d.to_multiset().count(sp[i]) > 0);
            assert(d.contains(sp[i]));
            let w = choose|w: int| 0 <= w < d.len() && d[w] == sp[i];
            assert(d[w] < 7);
        }
        s[i].curr_pos.lemma_as_int();
        assert(s[i].curr_pos != CornerPos::BDL);
        t[i].curr_pos.lemma_as_int();
        if t[i].curr_pos == CornerPos::BDL {
            crate::moves::lemma_move_injective(m, s[i].curr_pos, CornerPos::BDL);
            assert(false);
        }
    }
    assert(tp.no_duplicates()) by {
        assert forall|i: int, j: int| 0 <= i < j < 7 implies tp[i] != tp[j] by {
            if tp[i] == tp[j] {
                t[i].curr_pos.lemma_as_int();
                t[j].curr_pos.lemma_as_int();
                assert(t[i].curr_pos == t[j].curr_pos);
                crate::moves::lemma_move_injective(m, s[i].curr_pos, s[j].curr_pos);
                s[i].curr_pos.lemma_as_int();
                s[j].curr_pos.lemma_as_int();
                assert(sp[i] == sp[j]);
                assert(false);
            }
        }
    }
    lemma_seven_distinct_positions(tp);
    // The orientation sum stays 0 modulo 3: the deltas that the move
    // composes onto the seven free cubies are, summed over the seven
    // free slots, a multiple of 3.
    lemma_rot_sum_moved(s, m, 7);
    lemma_delta_sum_is_psum(s, m, 7);
    assert(sp.take(7) =~= sp);
    assert(commutative_foldr(spec_delta_f(m))) by {
        assert forall|x: u32, y: u32, v: int|
            #[trigger] (spec_delta_f(m))(x, (spec_delta_f(m))(y, v)) == (spec_delta_f(m))(
                y,
                (spec_delta_f(m))(x, v),
            ) by {}
    }
    lemma_fold_right_permutation(sp, d, spec_delta_f(m), 0);
    lemma_fold_psum(sp, m, 0);
    lemma_fold_psum(d, m, 0);
    lemma_default_delta_fold(m);
    assert(spec_delta_sum(s, m, 7) % 3 == 0);
    assert(spec_rot_sum(t, 7) % 3 == 0) by {
        vstd::arithmetic::div_mod::lemma_add_mod_noop(spec_rot_sum(s, 7), spec_delta_sum(s, m, 7), 3);
    }
}

} // verus!

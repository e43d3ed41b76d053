use pocket_cube::enums::CornerPos;
use pocket_cube::enums::CornerTwist;
use pocket_cube::enums::CubeRealSide;
use pocket_cube::group::PocketCube;
use pocket_cube::moves::move_front;
use pocket_cube::moves::move_id;
use pocket_cube::moves::move_inv;
use pocket_cube::moves::move_right;
use pocket_cube::moves::move_up;
use pocket_cube::moves::CubeMove;
use pocket_cube::types::PermId;

const SAMPLE_IDS: [u32; 10] = [0, 1, 5039, 5040, 5041, 123456, 729000, 1837080, 3674158, 3674159];

#[test]
fn test_composite_round_trip_samples() {
    let mut pc = PocketCube::new();
    for id in SAMPLE_IDS {
        pc.apply_id(PermId::from_id(id));
        assert_eq!(pc.get_perm_id().get_id(), id);
    }
}

#[test]
fn test_orientation_sum_invariant() {
    let mut pc = PocketCube::new();
    for id in SAMPLE_IDS {
        pc.apply_id(PermId::from_id(id));
        let mut sum: u32 = 0;
        for cubic in pc.get_cubics() {
            sum += cubic.get_rot().to_u32();
        }
        assert_eq!(sum % 3, 0);
    }
}

#[test]
fn test_new_is_solved() {
    let pc = PocketCube::new();
    assert_eq!(pc.get_perm_id().get_id(), 0);
}

#[test]
fn test_move_order_four() {
    for m in [CubeMove::Right, CubeMove::Up, CubeMove::Front] {
        let mut pc = PocketCube::new();
        pc.apply_id(PermId::from_id(424242));
        let before = pc.get_perm_id().get_id();
        pc.do_move(m);
        assert_ne!(pc.get_perm_id().get_id(), before);
        pc.do_move(m);
        pc.do_move(m);
        pc.do_move(m);
        assert_eq!(pc.get_perm_id().get_id(), before);
    }
}

#[test]
fn test_move_then_inverse() {
    for m in [CubeMove::Right, CubeMove::Up, CubeMove::Front] {
        let mut pc = PocketCube::new();
        pc.apply_id(PermId::from_id(98765));
        let before = pc.get_perm_id().get_id();
        pc.do_move(m);
        pc.do_move_inv(m);
        assert_eq!(pc.get_perm_id().get_id(), before);
    }
}

#[test]
fn test_move_tables() {
    let r = move_right(CornerPos::FUR);
    assert_eq!(r.pos, CornerPos::BUR);
    assert_eq!(r.rot.to_u32(), 2);
    let u = move_up(CornerPos::FUR);
    assert_eq!(u.pos, CornerPos::FUL);
    assert_eq!(u.rot.to_u32(), 0);
    let f = move_front(CornerPos::FDR);
    assert_eq!(f.pos, CornerPos::FDL);
    assert_eq!(f.rot.to_u32(), 2);
    // Slots a generator does not touch stay put.
    let fixed = move_up(CornerPos::BDL);
    assert_eq!(fixed.pos, CornerPos::BDL);
    assert_eq!(fixed.rot.to_u32(), 0);
    let idm = move_id(CornerPos::FDR);
    assert_eq!(idm.pos, CornerPos::FDR);
    assert_eq!(idm.rot.to_u32(), 0);
}

#[test]
fn test_move_inv_composition() {
    // The inverse of a quarter turn sends each slot back where the
    // forward turn took it from.
    for pos in [
        CornerPos::FUR,
        CornerPos::FUL,
        CornerPos::FDR,
        CornerPos::FDL,
        CornerPos::BUR,
        CornerPos::BUL,
        CornerPos::BDR,
        CornerPos::BDL,
    ] {
        let fwd = move_right(pos);
        let back = move_inv(CubeMove::Right, fwd.pos);
        assert_eq!(back.pos, pos);
        assert_eq!((fwd.rot.to_u32() + back.rot.to_u32()) % 3, 0);
    }
}

#[test]
fn test_twist_permutate() {
    assert_eq!(CornerTwist::Rot1.permutate(&CornerTwist::Rot2), CornerTwist::Rot0);
    assert_eq!(CornerTwist::Rot2.permutate(&CornerTwist::Rot2), CornerTwist::Rot1);
    assert_eq!(CornerTwist::Rot0.permutate(&CornerTwist::Rot1), CornerTwist::Rot1);
}

#[test]
fn test_reset_cubics() {
    let mut pc = PocketCube::new();
    pc.do_move(CubeMove::Right);
    pc.do_move(CubeMove::Up);
    assert_ne!(pc.get_perm_id().get_id(), 0);
    pc.reset_cubics();
    assert_eq!(pc.get_perm_id().get_id(), 0);
}

#[test]
fn test_branches_match_single_moves() {
    let mut pc = PocketCube::new();
    pc.apply_id(PermId::from_id(777777));
    let branches = pc.get_branches();
    let moves = [CubeMove::Right, CubeMove::Up, CubeMove::Front];
    for k in 0..3 {
        let mut probe = PocketCube::new();
        probe.apply_id(PermId::from_id(777777));
        probe.do_move(moves[k]);
        assert_eq!(branches[k].get_id(), probe.get_perm_id().get_id());
    }
}

#[test]
fn test_state_round_trip_through_id() {
    // Scramble with moves, encode the state, decode the identifier on a
    // fresh cube: the whole sticker projection must come back.
    let mut scrambled = PocketCube::new();
    scrambled.do_move(CubeMove::Right);
    scrambled.do_move(CubeMove::Up);
    scrambled.do_move(CubeMove::Front);
    scrambled.do_move(CubeMove::Right);
    let id = scrambled.get_perm_id().get_id();
    let mut decoded = PocketCube::new();
    decoded.apply_id(PermId::from_id(id));
    assert_eq!(decoded.to_facelets(), scrambled.to_facelets());
    assert_eq!(decoded.get_perm_id().get_id(), id);
}

#[test]
fn test_facelets_solved() {
    let pc = PocketCube::new();
    let facelets = pc.to_facelets();
    let expected_faces = [
        CubeRealSide::U,
        CubeRealSide::L,
        CubeRealSide::F,
        CubeRealSide::R,
        CubeRealSide::B,
        CubeRealSide::D,
    ];
    for face in 0..6 {
        for sticker in 0..4 {
            assert_eq!(facelets[face * 4 + sticker], expected_faces[face]);
        }
    }
}

#[test]
fn test_get_sides_solved() {
    let pc = PocketCube::new();
    let sides = pc.get_sides(CornerPos::FUR);
    assert_eq!(sides[0], CubeRealSide::U);
    assert_eq!(sides[1], CubeRealSide::F);
    assert_eq!(sides[2], CubeRealSide::R);
}

#[test]
fn test_cubic_accessors() {
    let mut pc = PocketCube::new();
    pc.do_move(CubeMove::Front);
    let cubics = pc.get_cubics();
    assert_eq!(cubics.len(), 7);
    // The front turn moves the FUR cubie (index 0) to FDR with a twist.
    assert_eq!(cubics[0].get_pos(), CornerPos::FDR);
    assert_eq!(cubics[0].get_rot(), CornerTwist::Rot1);
}

use pocket_cube::group::PocketCube;
use pocket_cube::perm::id_to_index_arr;
use pocket_cube::perm::index_arr_to_id;
use pocket_cube::perm::index_arr_to_permutation;
use pocket_cube::perm::permutation_to_index_arr;
use pocket_cube::perm::smushed_to_array;

#[test]
fn test_identity_pos() {
    let pc = PocketCube::new();
    assert_eq!(pc.get_pos_id().get_id(), 0);
}

#[test]
fn test_identity_rot() {
    let pc = PocketCube::new();
    assert_eq!(pc.get_rot_id().get_id(), 0);
}

#[test]
fn test_id_to_index_arr_exact() {
    // 5 in factorial base over three digits: 2*2! + 1*1! + 0*0!.
    assert_eq!(id_to_index_arr(5, 3), vec![2, 1, 0]);
    assert_eq!(id_to_index_arr(0, 3), vec![0, 0, 0]);
    // The largest rank of seven slots: 6*6! + 5*5! + ... + 1*1!.
    assert_eq!(id_to_index_arr(5039, 7), vec![6, 5, 4, 3, 2, 1, 0]);
}

#[test]
fn test_index_arr_to_id_exact() {
    assert_eq!(index_arr_to_id(&vec![2, 1, 0]), 5);
    assert_eq!(index_arr_to_id(&vec![0, 0, 0]), 0);
    assert_eq!(index_arr_to_id(&vec![6, 5, 4, 3, 2, 1, 0]), 5039);
}

#[test]
fn test_index_arr_round_trip() {
    for id in [0u32, 1, 2, 719, 720, 1234, 2519, 5039] {
        let arr = id_to_index_arr(id, 7);
        assert_eq!(arr.len(), 7);
        assert_eq!(index_arr_to_id(&arr), id);
    }
}

#[test]
fn test_rank_unrank_inverse() {
    let identity: Vec<u32> = vec![10, 20, 30, 40, 50];
    let permutated: Vec<u32> = vec![30, 10, 50, 20, 40];
    let index_arr = permutation_to_index_arr(&permutated, &identity);
    let rebuilt = index_arr_to_permutation(&identity, &index_arr);
    assert_eq!(rebuilt, permutated);
}

#[test]
fn test_rank_of_identity_is_zero() {
    let identity: Vec<u32> = vec![0, 1, 2, 3, 4, 5, 6];
    let index_arr = permutation_to_index_arr(&identity, &identity);
    assert_eq!(index_arr, vec![0, 0, 0, 0, 0, 0, 0]);
}

#[test]
fn test_smushed_to_array_exact() {
    // 7 in base 3 is 21, zero-padded to six digits.
    assert_eq!(smushed_to_array(7, 6), vec![0, 0, 0, 0, 2, 1]);
    assert_eq!(smushed_to_array(0, 6), vec![0, 0, 0, 0, 0, 0]);
    // 728 = 222222 in base 3, the largest packed orientation value.
    assert_eq!(smushed_to_array(728, 6), vec![2, 2, 2, 2, 2, 2]);
}

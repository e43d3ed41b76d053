//! The transition-table builder and its fixed binary layout: one record
//! per composite identifier in ascending order, each record four 32-bit
//! words in little-endian byte order — the three generator images and a
//! reserved zero.

use vstd::prelude::*;
use vstd::bytes::lemma_auto_spec_u32_to_from_le_bytes;
use vstd::bytes::spec_u32_from_le_bytes;
use vstd::bytes::spec_u32_to_le_bytes;
use vstd::bytes::u32_from_le_bytes;
use vstd::bytes::u32_to_le_bytes;
use crate::group::PocketCube;
use crate::group::spec_cubics_of_id;
use crate::group::spec_state_composite_id;
use crate::group::spec_state_moved;
use crate::moves::CubeMove;
use crate::types::PermId;
use crate::types::PERMID_COUNT;

verus! {

/// The composite identifier reached from the state with identifier
/// `idv` by one application of the generator `m`.
pub open spec fn spec_branch(idv: int, m: CubeMove) -> int {
    spec_state_composite_id(spec_state_moved(spec_cubics_of_id(idv), m))
}

/// The transition-table row of identifier `idv`: its three generator
/// images, in the order right, up, front, and a reserved zero.
pub open spec fn spec_table_row(idv: int) -> Seq<u32> {
    seq![
        spec_branch(idv, CubeMove::Right) as u32,
        spec_branch(idv, CubeMove::Up) as u32,
        spec_branch(idv, CubeMove::Front) as u32,
        0u32,
    ]
}

/// Builds the full transition table: for every composite identifier in
/// ascending order, the three identifiers reached by one application of
/// each generator, plus a reserved zero slot.
pub fn generate_mini_table() -> (table: Vec<[u32; 4]>)
    ensures
        table@.len() == PERMID_COUNT,
        forall|i: int| 0 <= i < PERMID_COUNT ==> (#[trigger] table@[i])@ == spec_table_row(i),
        forall|i: int, j: int|
            0 <= i < PERMID_COUNT && 0 <= j < 4 ==> (#[trigger] table@[i][j]) < PERMID_COUNT,
{
    let mut table: Vec<[u32; 4]> = Vec::new();
    let mut pc = PocketCube::new();
    let mut i: usize = 0;
    while i < PERMID_COUNT
        invariant
            i <= PERMID_COUNT,
            table@.len() == i,
            pc.wf(),
            forall|k: int| 0 <= k < i ==> (#[trigger] table@[k])@ == spec_table_row(k),
            forall|k: int, j: int|
                0 <= k < i && 0 <= j < 4 ==> (#[trigger] table@[k][j]) < PERMID_COUNT,
        decreases PERMID_COUNT - i,
    {
        pc.apply_id(PermId::from_id(i as u32));
        let branches = pc.get_branches();
        proof {
            branches[0].lemma_wf();
            branches[1].lemma_wf();
            branches[2].lemma_wf();
        }
        let row: [u32; 4] = [branches[0].get_id(), branches[1].get_id(), branches[2].get_id(), 0];
        proof {
            assert(row@ =~= spec_table_row(i as int));
            assert(forall|j: int| 0 <= j < 4 ==> (#[trigger] row[j]) < PERMID_COUNT);
        }
        table.push(row);
        i = i + 1;
    }
    table
}

/// The sixteen bytes of one table record: four words, little-endian.
pub open spec fn spec_row_bytes(row: [u32; 4]) -> Seq<u8> {
    spec_u32_to_le_bytes(row[0]) + spec_u32_to_le_bytes(row[1]) + spec_u32_to_le_bytes(row[2])
        + spec_u32_to_le_bytes(row[3])
}

/// The byte image of a whole table: its records in ascending order.
pub open spec fn spec_table_bytes(t: Seq<[u32; 4]>) -> Seq<u8>
    decreases t.len(),
{
    if t.len() == 0 {
        Seq::empty()
    } else {
        spec_row_bytes(t[0]) + spec_table_bytes(t.drop_first())
    }
}

/// The table encoded by a byte string whose length is a multiple of 16:
/// each group of sixteen bytes is one record of four little-endian
/// words.
pub open spec fn spec_parse_table(b: Seq<u8>) -> Seq<[u32; 4]> {
    Seq::new(
        b.len() / 16,
        |i: int|
            [
                spec_u32_from_le_bytes(b.subrange(16 * i, 16 * i + 4)),
                spec_u32_from_le_bytes(b.subrange(16 * i + 4, 16 * i + 8)),
                spec_u32_from_le_bytes(b.subrange(16 * i + 8, 16 * i + 12)),
                spec_u32_from_le_bytes(b.subrange(16 * i + 12, 16 * i + 16)),
            ],
    )
}

pub proof fn lemma_table_bytes_len(t: Seq<[u32; 4]>)
    ensures
        spec_table_bytes(t).len() == 16 * t.len(),
    decreases t.len(),
{
    lemma_auto_spec_u32_to_from_le_bytes();
    if t.len() > 0 {
        lemma_table_bytes_len(t.drop_first());
    }
}

/// Round trip: parsing the byte image of any table yields exactly that
/// table, record for record.
pub proof fn lemma_table_round_trip(t: Seq<[u32; 4]>)
    ensures
        spec_parse_table(spec_table_bytes(t)) == t,
    decreases t.len(),
{
    lemma_auto_spec_u32_to_from_le_bytes();
    lemma_table_bytes_len(t);
    let b = spec_table_bytes(t);
    let p = spec_parse_table(b);
    if t.len() == 0 {
        assert(p =~= t);
    } else {
        let rb = spec_row_bytes(t[0]);
        let rest = t.drop_first();
        lemma_table_bytes_len(rest);
        lemma_table_round_trip(rest);
        let brest = spec_table_bytes(rest);
        let prest = spec_parse_table(brest);
        assert(b == rb + brest);
        assert(rb.len() == 16);
        assert forall|i: int| 0 <= i < t.len() implies p[i] == t[i] by {
            if i == 0 {
                assert(b.subrange(0, 4) =~= spec_u32_to_le_bytes(t[0][0]));
                assert(b.subrange(4, 8) =~= spec_u32_to_le_bytes(t[0][1]));
                assert(b.subrange(8, 12) =~= spec_u32_to_le_bytes(t[0][2]));
                assert(b.subrange(12, 16) =~= spec_u32_to_le_bytes(t[0][3]));
                assert(p[0]@ =~= t[0]@);
            } else {
                assert(prest[i - 1] == rest[i - 1]);
                assert(b.subrange(16 * i, 16 * i + 4) =~= brest.subrange(
                    16 * (i - 1),
                    16 * (i - 1) + 4,
                ));
                assert(b.subrange(16 * i + 4, 16 * i + 8) =~= brest.subrange(
                    16 * (i - 1) + 4,
                    16 * (i - 1) + 8,
                ));
                assert(b.subrange(16 * i + 8, 16 * i + 12) =~= brest.subrange(
                    16 * (i - 1) + 8,
                    16 * (i - 1) + 12,
                ));
                assert(b.subrange(16 * i + 12, 16 * i + 16) =~= brest.subrange(
                    16 * (i - 1) + 12,
                    16 * (i - 1) + 16,
                ));
                assert(p[i]@ =~= prest[i - 1]@);
            }
        }
        assert(p =~= t);
    }
}

/// Serializes one table record: each of the four words in little-endian
/// byte order, in field order.
pub fn convert(data: &[u32; 4]) -> (r: [u8; 16])
    ensures
        r@ == spec_row_bytes(*data),
{
    let b0 = u32_to_le_bytes(data[0]);
    let b1 = u32_to_le_bytes(data[1]);
    let b2 = u32_to_le_bytes(data[2]);
    let b3 = u32_to_le_bytes(data[3]);
    let r: [u8; 16] = [
        b0[0], b0[1], b0[2], b0[3],
        b1[0], b1[1], b1[2], b1[3],
        b2[0], b2[1], b2[2], b2[3],
        b3[0], b3[1], b3[2], b3[3],
    ];
    proof {
        lemma_auto_spec_u32_to_from_le_bytes();
        assert(r@ =~= spec_row_bytes(*data));
    }
    r
}

/// Serializes a whole table to its byte image, record after record in
/// ascending order.
pub fn table_to_bytes(data: &Vec<[u32; 4]>) -> (r: Vec<u8>)
    ensures
        r@ == spec_table_bytes(data@),
{
    let mut bytes: Vec<u8> = Vec::new();
    let mut i: usize = 0;
    proof {
        assert(Seq::<u8>::empty() + spec_table_bytes(data@) =~= spec_table_bytes(data@));
        assert(data@.skip(0) =~= data@);
    }
    while i < data.len()
        invariant
            i <= data@.len(),
            bytes@ + spec_table_bytes(data@.skip(i as int)) == spec_table_bytes(data@),
        decreases data@.len() - i,
    {
        let row_bytes = convert(&data[i]);
        let ghost before = bytes@;
        let mut j: usize = 0;
        while j < 16
            invariant
                j <= 16,
                row_bytes@.len() == 16,
                bytes@ == before + row_bytes@.take(j as int),
            decreases 16 - j,
        {
            bytes.push(row_bytes[j]);
            proof {
                assert(before + row_bytes@.take(j as int + 1) =~= (before + row_bytes@.take(
                    j as int,
                )).push(row_bytes@[j as int]));
            }
            j = j + 1;
        }
        proof {
            let rest = data@.skip(i as int);
            assert(rest[0] == data@[i as int]);
            assert(rest.drop_first() =~= data@.skip(i as int + 1));
            assert(spec_table_bytes(rest) == spec_row_bytes(data@[i as int]) + spec_table_bytes(
                data@.skip(i as int + 1),
            ));
            assert(row_bytes@.take(16) =~= row_bytes@);
            assert(bytes@ == before + row_bytes@);
            assert((before + row_bytes@) + spec_table_bytes(data@.skip(i as int + 1)) =~= before
                + (row_bytes@ + spec_table_bytes(data@.skip(i as int + 1))));
        }
        i = i + 1;
    }
    proof {
        assert(data@.skip(data@.len() as int) =~= Seq::<[u32; 4]>::empty());
        assert(bytes@ + Seq::<u8>::empty() =~= bytes@);
    }
    bytes
}

/// Removes and decodes the last four bytes of the buffer as one
/// little-endian 32-bit word.
pub fn pop_u32(arr: &mut Vec<u8>) -> (r: u32)
    requires
        old(arr)@.len() >= 4,
    ensures
        final(arr)@ == old(arr)@.take(old(arr)@.len() - 4),
        r == spec_u32_from_le_bytes(old(arr)@.skip(old(arr)@.len() - 4)),
{
    let ghost orig = arr@;
    let b3 = match arr.pop() {
        Some(b) => b,
        None => 0,
    };
    let b2 = match arr.pop() {
        Some(b) => b,
        None => 0,
    };
    let b1 = match arr.pop() {
        Some(b) => b,
        None => 0,
    };
    let b0 = match arr.pop() {
        Some(b) => b,
        None => 0,
    };
    let group: [u8; 4] = [b0, b1, b2, b3];
    proof {
        assert(arr@ =~= orig.take(orig.len() - 4));
        assert(group@ =~= orig.skip(orig.len() - 4));
    }
    u32_from_le_bytes(group.as_slice())
}

/// Parses the byte image of a full transition table: records are
/// consumed from the end of the buffer and the table is reversed back
/// into ascending identifier order.
pub fn parse_mini_table(buffer: Vec<u8>) -> (table: Vec<[u32; 4]>)
    requires
        buffer@.len() % 16 == 0,
    ensures
        table@ == spec_parse_table(buffer@),
        table@.len() == buffer@.len() / 16,
{
    let ghost b = buffer@;
    let ghost parsed = spec_parse_table(b);
    let count = buffer.len() / 16;
    proof {
        assert(16 * (b.len() / 16) == b.len());
    }
    let mut buffer = buffer;
    let mut rev: Vec<[u32; 4]> = Vec::new();
    let mut k: usize = 0;
    proof {
        assert(b.take(16 * (count - 0) as int) =~= b);
    }
    while k < count
        invariant
            k <= count,
            count == b.len() / 16,
            16 * count == b.len(),
            parsed == spec_parse_table(b),
            buffer@ == b.take(16 * (count - k) as int),
            rev@.len() == k,
            forall|j: int| 0 <= j < k ==> rev@[j] == parsed[count - 1 - j],
        decreases count - k,
    {
        let ghost base = 16 * (count - k - 1) as int;
        let num1 = pop_u32(&mut buffer);
        proof {
            assert(b.take(base + 16).skip(base + 12) =~= b.subrange(base + 12, base + 16));
            assert(buffer@ =~= b.take(base + 12));
        }
        let num2 = pop_u32(&mut buffer);
        proof {
            assert(b.take(base + 12).skip(base + 8) =~= b.subrange(base + 8, base + 12));
            assert(buffer@ =~= b.take(base + 8));
        }
        let num3 = pop_u32(&mut buffer);
        proof {
            assert(b.take(base + 8).skip(base + 4) =~= b.subrange(base + 4, base + 8));
            assert(buffer@ =~= b.take(base + 4));
        }
        let num4 = pop_u32(&mut buffer);
        proof {
            assert(b.take(base + 4).skip(base) =~= b.subrange(base, base + 4));
            assert(buffer@ =~= b.take(base));
        }
        let row: [u32; 4] = [num4, num3, num2, num1];
        proof {
            assert(row@ =~= parsed[count - 1 - k]@);
            assert(row == parsed[count - 1 - k]);
        }
        rev.push(row);
        k = k + 1;
    }
    let n = rev.len();
    let mut table: Vec<[u32; 4]> = Vec::new();
    let mut i: usize = 0;
    while i < n
        invariant
            i <= n,
            n == rev@.len(),
            n == count,
            count == b.len() / 16,
            parsed.len() == count,
            forall|j: int| 0 <= j < n ==> rev@[j] == parsed[count - 1 - j],
            table@.len() == i,
            forall|j: int| 0 <= j < i ==> table@[j] == parsed[j],
        decreases n - i,
    {
        table.push(rev[n - 1 - i]);
        i = i + 1;
    }
    proof {
        assert(table@ =~= parsed);
    }
    table
}

} // verus!

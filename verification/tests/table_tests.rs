use pocket_cube::calc::convert;
use pocket_cube::calc::parse_mini_table;
use pocket_cube::calc::pop_u32;
use pocket_cube::calc::table_to_bytes;

#[test]
fn test_convert_little_endian() {
    let row: [u32; 4] = [1, 0x01020304, 0, 0xFFFFFFFF];
    let bytes = convert(&row);
    let expected: [u8; 16] = [
        1, 0, 0, 0, 0x04, 0x03, 0x02, 0x01, 0, 0, 0, 0, 0xFF, 0xFF, 0xFF, 0xFF,
    ];
    assert_eq!(bytes, expected);
}

#[test]
fn test_pop_u32_reads_last_word() {
    let mut buffer: Vec<u8> = vec![9, 9, 9, 9, 0x04, 0x03, 0x02, 0x01];
    let value = pop_u32(&mut buffer);
    assert_eq!(value, 0x01020304);
    assert_eq!(buffer, vec![9, 9, 9, 9]);
    let value2 = pop_u32(&mut buffer);
    assert_eq!(value2, 0x09090909);
    assert_eq!(buffer.len(), 0);
}

#[test]
fn test_table_bytes_exact() {
    let table: Vec<[u32; 4]> = vec![[1, 2, 3, 0]];
    let bytes = table_to_bytes(&table);
    assert_eq!(
        bytes,
        vec![1, 0, 0, 0, 2, 0, 0, 0, 3, 0, 0, 0, 0, 0, 0, 0]
    );
}

#[test]
fn test_table_round_trip() {
    let table: Vec<[u32; 4]> = vec![
        [1, 2, 3, 0],
        [0xAABBCCDD, 5, 6, 0],
        [3674159, 0, 42, 0],
        [7, 8, 9, 0],
    ];
    let bytes = table_to_bytes(&table);
    assert_eq!(bytes.len(), 16 * table.len());
    let parsed = parse_mini_table(bytes);
    assert_eq!(parsed, table);
}

#[test]
fn test_parse_empty_table() {
    let parsed = parse_mini_table(Vec::new());
    assert_eq!(parsed.len(), 0);
}

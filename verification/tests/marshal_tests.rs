use network_sync::marshal::{
    read_bytes, read_cstring, read_record, write_record, write_string, write_string_array,
    ACTOR_RECORD_SIZE,
};
use network_sync::types::ActorData;

fn sample_actor() -> ActorData {
    let mut joint_table = [0i16; 72];
    joint_table[0] = 1;
    joint_table[1] = 2;
    joint_table[2] = 3;
    joint_table[71] = -500;
    ActorData {
        world_position: [1.0f32.to_bits(), 2.0f32.to_bits(), 3.0f32.to_bits()],
        shape_rotation: [10, 20, 30],
        upper_limb_rot: [-100, 0, 100],
        joint_table,
        current_boots: 1,
        current_shield: 2,
    }
}

#[test]
fn record_round_trips_byte_equal() {
    let a = sample_actor();
    let mut mem = vec![0u8; 4096];
    write_record(&a, &mut mem, 128);
    let first = mem[128..128 + ACTOR_RECORD_SIZE].to_vec();
    let b = read_record(&mem, 128);
    let mut mem2 = vec![0u8; 4096];
    write_record(&b, &mut mem2, 128);
    let second = mem2[128..128 + ACTOR_RECORD_SIZE].to_vec();
    assert_eq!(first, second);
    assert_eq!(a.world_position, b.world_position);
    assert_eq!(a.shape_rotation, b.shape_rotation);
    assert_eq!(a.upper_limb_rot, b.upper_limb_rot);
    assert_eq!(a.joint_table.to_vec(), b.joint_table.to_vec());
    assert_eq!(a.current_boots, b.current_boots);
    assert_eq!(a.current_shield, b.current_shield);
}

#[test]
fn record_layout_is_exact() {
    let a = sample_actor();
    let mut mem = vec![0u8; 512];
    write_record(&a, &mut mem, 0);
    // 1.0f32 is 0x3F800000: little-endian bytes 00 00 80 3F.
    assert_eq!(&mem[0..4], &[0x00, 0x00, 0x80, 0x3F]);
    // 2.0f32 is 0x40000000.
    assert_eq!(&mem[4..8], &[0x00, 0x00, 0x00, 0x40]);
    // shape_rotation starts at offset 12: 10, 20, 30 as 16-bit values.
    assert_eq!(&mem[12..18], &[10, 0, 20, 0, 30, 0]);
    // upper_limb_rot at 18: -100 is 0x9C 0xFF in two's complement.
    assert_eq!(&mem[18..20], &[0x9C, 0xFF]);
    // joint_table at 24: first joint (1, 2, 3).
    assert_eq!(&mem[24..30], &[1, 0, 2, 0, 3, 0]);
    // equipment bytes close the record.
    assert_eq!(mem[168], 1);
    assert_eq!(mem[169], 2);
    assert_eq!(ACTOR_RECORD_SIZE, 170);
    // bytes beyond the record are untouched.
    assert_eq!(mem[170], 0);
}

#[test]
fn write_record_leaves_surroundings_alone() {
    let a = sample_actor();
    let mut mem = vec![0xAAu8; 600];
    write_record(&a, &mut mem, 100);
    assert_eq!(mem[99], 0xAA);
    assert_eq!(mem[100 + ACTOR_RECORD_SIZE], 0xAA);
}

#[test]
fn write_string_with_zero_budget_writes_nothing() {
    let mut mem = vec![0xAAu8; 64];
    let w = write_string(&mut mem, 8, b"hello", 0);
    assert_eq!(w, 0);
    assert!(mem.iter().all(|b| *b == 0xAA));
}

#[test]
fn write_string_fits_and_terminates() {
    let mut mem = vec![0xAAu8; 64];
    let w = write_string(&mut mem, 8, b"hello", 16);
    assert_eq!(w, 5);
    assert_eq!(&mem[8..13], b"hello");
    assert_eq!(mem[13], 0);
    assert_eq!(mem[14], 0xAA);
    assert_eq!(mem[7], 0xAA);
}

#[test]
fn write_string_truncates_to_budget_minus_terminator() {
    let mut mem = vec![0xAAu8; 64];
    let w = write_string(&mut mem, 0, b"hello", 4);
    assert_eq!(w, 3);
    assert_eq!(&mem[0..3], b"hel");
    assert_eq!(mem[3], 0);
    assert_eq!(mem[4], 0xAA);
}

#[test]
fn write_string_array_with_zero_count_writes_nothing() {
    let mut mem = vec![0xAAu8; 64];
    let xs = vec![b"one".to_vec(), b"two".to_vec()];
    let n = write_string_array(&mut mem, 0, &xs, 8, 0);
    assert_eq!(n, 0);
    assert!(mem.iter().all(|b| *b == 0xAA));
}

#[test]
fn write_string_array_lays_out_at_stride() {
    let mut mem = vec![0xAAu8; 64];
    let xs = vec![b"one".to_vec(), b"two".to_vec(), b"three".to_vec()];
    let n = write_string_array(&mut mem, 4, &xs, 8, 8);
    assert_eq!(n, 3);
    assert_eq!(&mem[4..8], b"one\0");
    assert_eq!(&mem[12..16], b"two\0");
    assert_eq!(&mem[20..26], b"three\0");
    assert_eq!(mem[3], 0xAA);
    assert_eq!(mem[28], 0xAA);
}

#[test]
fn write_string_array_drops_excess_entries() {
    let mut mem = vec![0u8; 64];
    let xs = vec![b"a".to_vec(), b"b".to_vec(), b"c".to_vec()];
    let n = write_string_array(&mut mem, 0, &xs, 4, 2);
    assert_eq!(n, 2);
    assert_eq!(&mem[0..2], b"a\0");
    assert_eq!(&mem[4..6], b"b\0");
    assert_eq!(mem[8], 0);
}

#[test]
fn read_cstring_stops_at_nul_or_cap() {
    let mut mem = vec![0u8; 32];
    mem[4] = b'h';
    mem[5] = b'i';
    assert_eq!(read_cstring(&mem, 4, 16), b"hi".to_vec());
    assert_eq!(read_cstring(&mem, 4, 1), b"h".to_vec());
    assert_eq!(read_cstring(&mem, 6, 8), Vec::<u8>::new());
}

#[test]
fn read_bytes_copies_exactly() {
    let mem: Vec<u8> = (0..32).collect();
    assert_eq!(read_bytes(&mem, 4, 3), vec![4, 5, 6]);
    assert_eq!(read_bytes(&mem, 0, 0), Vec::<u8>::new());
}

use yamlist::wire::{read_le, write_le};

#[test]
fn integers_are_written_least_significant_byte_first() {
    let mut out = vec![0xee];
    write_le(&mut out, 0x0102, 2);
    write_le(&mut out, 0x1a_2b3c_4d5e, 8);
    write_le(&mut out, 0xdead_beef, 4);
    write_le(&mut out, 0x1ff, 1);
    write_le(&mut out, 7, 0);
    assert_eq!(
        out,
        vec![0xee, 2, 1, 0x5e, 0x4d, 0x3c, 0x2b, 0x1a, 0, 0, 0, 0xef, 0xbe, 0xad, 0xde, 0xff]
    );
}

#[test]
fn integers_are_read_least_significant_byte_first() {
    let data = [0xee, 2, 1, 0x5e, 0x4d, 0x3c, 0x2b, 0x1a, 0, 0, 0xff];
    assert_eq!(read_le(&data, 1, 2), 0x0102);
    assert_eq!(read_le(&data, 3, 8), 0xff00_001a_2b3c_4d5e);
    assert_eq!(read_le(&data, 0, 1), 0xee);
    assert_eq!(read_le(&data, 5, 0), 0);
    assert_eq!(read_le(&data, 7, 4), 0xff00_001a);
    assert_eq!(read_le(&data, 7, 3), 0x1a);
}

#[test]
fn what_is_written_reads_back() {
    for value in [0u64, 1, 255, 256, 0xffff, 0x1_0000, u32::MAX as u64, u64::MAX] {
        let mut out = Vec::new();
        write_le(&mut out, value, 8);
        assert_eq!(out.len(), 8);
        assert_eq!(read_le(&out, 0, 8), value);
    }
}

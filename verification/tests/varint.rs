use neqo_transport::varint::{decode_varint, encode_varint, read_uint, write_uint, VARINT_MAX};

fn enc(v: u64) -> Vec<u8> {
    let mut out = Vec::new();
    encode_varint(&mut out, v);
    out
}

#[test]
fn varint_one_byte() {
    assert_eq!(enc(0), vec![0x00]);
    assert_eq!(enc(37), vec![0x25]);
    assert_eq!(enc(63), vec![0x3f]);
    assert_eq!(decode_varint(&[0x25], 0), Some((37, 1)));
}

#[test]
fn varint_two_bytes() {
    assert_eq!(enc(64), vec![0x40, 0x40]);
    assert_eq!(enc(15293), vec![0x7b, 0xbd]);
    assert_eq!(enc(16383), vec![0x7f, 0xff]);
    assert_eq!(decode_varint(&[0x7b, 0xbd], 0), Some((15293, 2)));
}

#[test]
fn varint_four_bytes() {
    assert_eq!(enc(16384), vec![0x80, 0x00, 0x40, 0x00]);
    assert_eq!(enc(494_878_333), vec![0x9d, 0x7f, 0x3e, 0x7d]);
    assert_eq!(decode_varint(&[0x9d, 0x7f, 0x3e, 0x7d], 0), Some((494_878_333, 4)));
}

#[test]
fn varint_eight_bytes() {
    assert_eq!(enc(1_073_741_824), vec![0xc0, 0, 0, 0, 0x40, 0, 0, 0]);
    assert_eq!(
        enc(151_288_809_941_952_652),
        vec![0xc2, 0x19, 0x7c, 0x5e, 0xff, 0x14, 0xe8, 0x8c]
    );
    assert_eq!(enc(VARINT_MAX), vec![0xff; 8]);
    assert_eq!(
        decode_varint(&[0xc2, 0x19, 0x7c, 0x5e, 0xff, 0x14, 0xe8, 0x8c], 0),
        Some((151_288_809_941_952_652, 8))
    );
    assert_eq!(decode_varint(&[0xff; 8], 0), Some((VARINT_MAX, 8)));
}

#[test]
fn varint_longer_than_needed_is_accepted() {
    assert_eq!(decode_varint(&[0x40, 0x25], 0), Some((37, 2)));
    assert_eq!(decode_varint(&[0x80, 0, 0, 0x25], 0), Some((37, 4)));
}

#[test]
fn varint_truncated_is_refused() {
    assert_eq!(decode_varint(&[], 0), None);
    assert_eq!(decode_varint(&[0x40], 0), None);
    assert_eq!(decode_varint(&[0x80, 1, 2], 0), None);
    assert_eq!(decode_varint(&[0xc0, 1, 2, 3, 4, 5, 6], 0), None);
    assert_eq!(decode_varint(&[0x25], 1), None);
    assert_eq!(decode_varint(&[0x25], 7), None);
}

#[test]
fn varint_at_a_position() {
    let buf = [0xaa, 0x7b, 0xbd, 0x25];
    assert_eq!(decode_varint(&buf, 1), Some((15293, 3)));
    assert_eq!(decode_varint(&buf, 3), Some((37, 4)));
}

#[test]
fn varint_round_trip_at_the_borders() {
    for v in [0u64, 1, 63, 64, 16383, 16384, 1_073_741_823, 1_073_741_824, VARINT_MAX] {
        let bytes = enc(v);
        assert_eq!(decode_varint(&bytes, 0), Some((v, bytes.len())));
    }
}

#[test]
fn big_endian_integers() {
    assert_eq!(read_uint(&[0x01, 0x02], 0, 2), 0x0102);
    assert_eq!(read_uint(&[0xff, 0x01, 0x02, 0x03], 1, 3), 0x010203);
    assert_eq!(read_uint(&[1, 2, 3, 4, 5, 6, 7, 8], 0, 8), 0x0102030405060708);
    assert_eq!(read_uint(&[9], 0, 0), 0);
    let mut out = vec![0xee];
    write_uint(&mut out, 0x0102, 2);
    assert_eq!(out, vec![0xee, 0x01, 0x02]);
    let mut out = Vec::new();
    write_uint(&mut out, 0x0a0b0c, 2);
    assert_eq!(out, vec![0x0b, 0x0c]);
}

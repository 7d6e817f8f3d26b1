use udpbench::errors::AppError;
use udpbench::pkt::{parse_packet, write_packet, PacketHeader, PACKET_HEAD_SIZE};

#[test]
fn header_is_little_endian_on_the_wire() {
    let mut buf = vec![0xAAu8; 20];
    write_packet(7, 0x0102030405060708, 0x1112131415161718, &mut buf);
    assert_eq!(
        &buf[0..16],
        &[8, 7, 6, 5, 4, 3, 2, 1, 0x18, 0x17, 0x16, 0x15, 0x14, 0x13, 0x12, 0x11]
    );
    assert_eq!(&buf[16..], &[0xAA, 0xAA, 0xAA, 0xAA]);
}

#[test]
fn write_then_parse_gives_back_the_header() {
    let cases = [(0u64, 0u64), (1, 2), (u64::MAX, 0), (0, u64::MAX), (123456789, 987654321)];
    for (i, t) in cases {
        let mut buf = vec![0x5Cu8; 128];
        write_packet(0x39016c0e906374f9, i, t, &mut buf);
        let h = parse_packet(0x39016c0e906374f9, &buf).unwrap();
        assert_eq!(h, PacketHeader { index: i, send_time: t });
    }
}

#[test]
fn parse_accepts_exactly_a_header() {
    let mut buf = vec![0u8; PACKET_HEAD_SIZE];
    write_packet(1, 42, 43, &mut buf);
    assert_eq!(parse_packet(1, &buf).unwrap(), PacketHeader { index: 42, send_time: 43 });
}

#[test]
fn parse_rejects_short_buffer() {
    let buf = vec![0u8; 15];
    assert!(matches!(parse_packet(1, &buf), Err(AppError::MalformedPacket)));
    assert!(matches!(parse_packet(1, &[]), Err(AppError::MalformedPacket)));
}

#[test]
fn seed_does_not_change_the_bytes() {
    let mut a = vec![3u8; 32];
    let mut b = vec![3u8; 32];
    write_packet(1, 5, 6, &mut a);
    write_packet(2, 5, 6, &mut b);
    assert_eq!(a, b);
}

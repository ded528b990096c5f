use xmip_core_transport_mysql::wire::{
    cstring, decode_command, encode_command, frame, int24, lenenc_bytes, lenenc_int, read_packet,
    Command, Cursor, PacketReader, COM_QUERY, COM_QUIT, MAX_PACKET, MAX_PAYLOAD,
};

#[test]
fn a_packet_carries_its_length_and_sequence() {
    let mut sequence = 0;
    let framed = frame(&mut sequence, b"\x03SELECT 1");
    assert_eq!(&framed[..4], &[9, 0, 0, 0]);
    assert_eq!(sequence, 1);
    let (seq, payload) = read_packet(&mut framed.as_slice())
        .expect("read")
        .expect("one");
    assert_eq!(seq, 0);
    assert_eq!(
        decode_command(&payload).expect("command"),
        Command::Query("SELECT 1".into())
    );
    assert!(read_packet(&mut &b""[..]).expect("closed").is_none());
    assert!(
        read_packet(&mut &[9, 0, 0, 0, b'x'][..]).is_err(),
        "breaks off"
    );
    assert!(
        read_packet(&mut &[0xff, 0xff, 0xff, 0, 1][..]).is_err(),
        "the continuation never comes"
    );
}

#[test]
fn a_long_payload_is_split_and_joined_again() {
    let payload = vec![0xabu8; MAX_PACKET + 5];
    let mut sequence = 3;
    let framed = frame(&mut sequence, &payload);
    assert_eq!(framed.len(), payload.len() + 8);
    assert_eq!(&framed[..4], &[0xff, 0xff, 0xff, 3]);
    assert_eq!(&framed[MAX_PACKET + 4..MAX_PACKET + 8], &[5, 0, 0, 4]);
    assert_eq!(sequence, 5);
    let (seq, joined) = read_packet(&mut framed.as_slice())
        .expect("read")
        .expect("one");
    assert_eq!((seq, joined.len()), (3, payload.len()));

    let exact = vec![1u8; MAX_PACKET];
    let mut sequence = 0;
    let framed = frame(&mut sequence, &exact);
    assert_eq!(
        &framed[MAX_PACKET + 4..],
        &[0, 0, 0, 1],
        "an empty packet ends it"
    );
    assert_eq!(sequence, 2);
    let (_, joined) = read_packet(&mut framed.as_slice())
        .expect("read")
        .expect("one");
    assert_eq!(joined.len(), MAX_PACKET);
    let empty = frame(&mut 7, b"");
    assert_eq!(empty, [0, 0, 0, 7]);
}

#[test]
fn the_primitive_fields_read_back() {
    let mut out = Vec::new();
    for value in [
        0,
        0xfa,
        0xfb,
        0xffff,
        0x1_0000,
        0xff_ffff,
        0x100_0000,
        u64::MAX,
    ] {
        lenenc_int(&mut out, value);
    }
    lenenc_bytes(&mut out, b"payload");
    cstring(&mut out, "def");
    out.extend_from_slice(&7u16.to_le_bytes());
    out.extend_from_slice(&70_000u32.to_le_bytes());
    out.push(b'Z');
    let mut cursor = Cursor::new(&out);
    for value in [
        0,
        0xfa,
        0xfb,
        0xffff,
        0x1_0000,
        0xff_ffff,
        0x100_0000,
        u64::MAX,
    ] {
        assert_eq!(cursor.lenenc_int().expect("int"), value);
    }
    assert_eq!(cursor.lenenc_str().expect("str"), "payload");
    assert_eq!(cursor.cstring().expect("cstring"), "def");
    assert_eq!(cursor.int16().expect("u16"), 7);
    assert_eq!(cursor.int32().expect("u32"), 70_000);
    assert_eq!(cursor.peek(), Some(b'Z'));
    assert_eq!(cursor.rest(), b"Z");
    assert!(cursor.is_empty());
    assert!(cursor.byte().is_err(), "past the end");
    assert!(
        Cursor::new(&[0xfb]).lenenc_int().is_err(),
        "NULL is not an integer"
    );
    assert!(Cursor::new(&[0xfc, 1]).lenenc_int().is_err(), "breaks off");
    assert!(Cursor::new(b"no NUL").cstring().is_err());
    assert!(decode_command(&[0x0e]).is_err(), "COM_PING is not served");
    assert!(decode_command(&[]).is_err());
    assert_eq!(encode_command(&Command::Quit), [COM_QUIT]);
}

#[test]
fn a_command_reads_back_and_names_what_it_is() {
    let query = Command::Query("SELECT 'é'".to_string());
    let bytes = encode_command(&query);
    assert_eq!(bytes[0], COM_QUERY);
    assert_eq!(&bytes[1..], "SELECT 'é'".as_bytes());
    assert_eq!(decode_command(&bytes).expect("query"), query);
    assert_eq!(
        decode_command(&encode_command(&Command::Quit)).expect("quit"),
        Command::Quit
    );
}

#[test]
fn a_command_that_is_not_text_is_read_with_replacements() {
    assert_eq!(
        decode_command(&[COM_QUERY, b'a', 0xff, b'b']).expect("query"),
        Command::Query("a\u{fffd}b".to_string())
    );
}

#[test]
fn the_sequence_wraps_after_the_last_number() {
    let mut sequence = 255;
    let framed = frame(&mut sequence, b"x");
    assert_eq!(framed, [1, 0, 0, 255, b'x']);
    assert_eq!(sequence, 0);
}

#[test]
fn a_packet_is_read_and_what_follows_it_is_left() {
    let mut sequence = 4;
    let mut bytes = frame(&mut sequence, b"first");
    bytes.extend(frame(&mut sequence, b"second"));
    let mut stream = bytes.as_slice();
    assert_eq!(
        read_packet(&mut stream).expect("read"),
        Some((4, b"first".to_vec()))
    );
    assert_eq!(
        read_packet(&mut stream).expect("read"),
        Some((5, b"second".to_vec()))
    );
    assert_eq!(read_packet(&mut stream).expect("closed"), None);
}

#[test]
fn a_payload_over_the_bound_is_refused() {
    let mut bytes = Vec::new();
    for sequence in 0..4u8 {
        bytes.extend_from_slice(&[0xff, 0xff, 0xff, sequence]);
        bytes.extend(vec![0u8; MAX_PACKET]);
    }
    bytes.extend_from_slice(&[0xff, 0xff, 0xff, 4]);
    assert!(4 * MAX_PACKET <= MAX_PAYLOAD && 5 * MAX_PACKET > MAX_PAYLOAD);
    let error = read_packet(&mut bytes.as_slice()).expect_err("too long");
    assert!(!error.retryable);
}

#[test]
fn a_packet_is_assembled_from_its_header_and_its_body() {
    let mut reader = PacketReader::new();
    assert_eq!(reader.closed().expect("nothing read"), None);
    assert_eq!(reader.header(&[3, 0, 0, 9]).expect("length"), 3);
    assert_eq!(reader.body(b"abc"), Some((9, b"abc".to_vec())));

    let mut reader = PacketReader::new();
    assert_eq!(reader.header(&[0xff, 0xff, 0xff, 1]).expect("length"), MAX_PACKET);
    assert_eq!(reader.body(&vec![7; MAX_PACKET]), None);
    assert!(reader.closed().is_err(), "between two packets of one payload");
    assert_eq!(reader.header(&[1, 0, 0, 2]).expect("length"), 1);
    let (sequence, payload) = reader.body(&[8]).expect("complete");
    assert_eq!((sequence, payload.len()), (1, MAX_PACKET + 1));
    assert_eq!(payload.last(), Some(&8));
}

#[test]
fn a_length_is_three_bytes_and_the_low_one_is_first() {
    assert_eq!(int24(0x03_0201), [1, 2, 3]);
    assert_eq!(int24(MAX_PACKET), [0xff, 0xff, 0xff]);
}

#[test]
fn a_length_encoded_integer_is_as_wide_as_it_must_be() {
    let mut out = Vec::new();
    lenenc_int(&mut out, 0xfa);
    lenenc_int(&mut out, 0xfb);
    lenenc_int(&mut out, 0x1_0000);
    lenenc_int(&mut out, 0x100_0000);
    assert_eq!(
        out,
        [
            0xfa, 0xfc, 0xfb, 0, 0xfd, 0, 0, 1, 0xfe, 0, 0, 0, 1, 0, 0, 0, 0
        ]
    );
}

#[test]
fn a_string_that_breaks_off_or_is_not_text_is_told_apart() {
    assert!(Cursor::new(&[3, b'a', b'b']).lenenc_str().is_err());
    assert_eq!(
        Cursor::new(&[2, 0xc3, 0x28]).lenenc_str().expect("repaired"),
        "\u{fffd}("
    );
    let mut cursor = Cursor::new(b"ab");
    assert!(cursor.take(3).is_err());
    assert!(cursor.skip(3).is_err());
    assert_eq!(cursor.take(2).expect("both"), b"ab");
}

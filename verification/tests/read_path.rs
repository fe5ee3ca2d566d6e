use framed_connection::connection::{Connection, ReadError, Step, INITIAL_CAPACITY};
use framed_connection::unit::Unit;
use framed_connection::writer::write_frame;

fn encoded(unit: &Unit) -> Vec<u8> {
    let mut out = Vec::new();
    assert_eq!(write_frame(&mut out, unit), Ok(()));
    out
}

/// Drives `connection` as a caller with a stream would: the stream holds
/// `input` and gives at most `at_most` bytes to each read, then ends.
fn read_from(connection: &mut Connection, input: &[u8], at_most: usize) -> (Step, usize) {
    let mut taken = 0;
    let mut step = connection.read_frame(None);
    loop {
        let room = match step {
            Step::Read(room) => room,
            done => return (done, taken),
        };
        assert!(room > 0);
        let n = room.min(at_most).min(input.len() - taken);
        step = connection.read_frame(Some(&input[taken..taken + n]));
        taken += n;
    }
}

fn pseudo_random(len: usize) -> Vec<u8> {
    let mut state: u32 = 0x2545_f491;
    let mut bytes = Vec::with_capacity(len);
    for _ in 0..len {
        state = state.wrapping_mul(1_664_525).wrapping_add(1_013_904_223);
        bytes.push((state >> 24) as u8);
    }
    bytes
}

fn round_trip_values() -> Vec<Unit> {
    vec![
        Unit::Simple("OK".to_string()),
        Unit::Error("ERR x".to_string()),
        Unit::Integer(12345),
        Unit::Integer(0),
        Unit::Null,
        Unit::Bulk(Vec::new()),
        Unit::Bulk(pseudo_random(1000)),
    ]
}

#[test]
fn new_connection_is_empty_with_initial_capacity() {
    let connection = Connection::new();
    assert_eq!(INITIAL_CAPACITY, 4096);
    assert_eq!(connection.capacity(), 4096);
    assert_eq!(connection.filled(), 0);
    assert_eq!(connection.buffered(), Vec::<u8>::new());
}

#[test]
fn first_step_asks_for_a_read_into_the_whole_buffer() {
    let mut connection = Connection::new();
    assert_eq!(connection.read_frame(None), Step::Read(4096));
    assert_eq!(connection.capacity(), 4096);
}

#[test]
fn written_units_are_read_back() {
    for unit in round_trip_values() {
        let bytes = encoded(&unit);
        let mut connection = Connection::new();
        let (step, taken) = read_from(&mut connection, &bytes, usize::MAX);
        assert_eq!(step, Step::Deliver(unit));
        assert_eq!(taken, bytes.len());
        assert_eq!(connection.filled(), 0);
    }
}

#[test]
fn negative_integer_is_written_but_the_codec_refuses_it() {
    let bytes = encoded(&Unit::Integer(-1));
    assert_eq!(bytes, b":-1\r\n".to_vec());
    let mut connection = Connection::new();
    let (step, _) = read_from(&mut connection, &bytes, usize::MAX);
    assert_eq!(
        step,
        Step::Failed(ReadError::Protocol("protocol error; invalid frame format".to_string()))
    );
}

#[test]
fn one_byte_at_a_time_gives_the_same_unit_as_one_delivery() {
    for unit in round_trip_values() {
        let bytes = encoded(&unit);
        let mut whole = Connection::new();
        let (at_once, _) = read_from(&mut whole, &bytes, usize::MAX);
        let mut pieces = Connection::new();
        let (piecewise, taken) = read_from(&mut pieces, &bytes, 1);
        assert_eq!(piecewise, at_once);
        assert_eq!(piecewise, Step::Deliver(unit));
        assert_eq!(taken, bytes.len());
        assert_eq!(pieces.buffered(), whole.buffered());
    }
}

#[test]
fn odd_sized_pieces_give_the_same_unit() {
    let unit = Unit::Bulk(pseudo_random(1000));
    let bytes = encoded(&unit);
    for size in [2usize, 3, 7, 64, 999, 1009] {
        let mut connection = Connection::new();
        let (step, _) = read_from(&mut connection, &bytes, size);
        assert_eq!(step, Step::Deliver(Unit::Bulk(pseudo_random(1000))));
    }
}

#[test]
fn two_units_in_one_delivery_come_out_in_order() {
    let first = Unit::Simple("OK".to_string());
    let second = Unit::Bulk(b"second".to_vec());
    let mut bytes = encoded(&first);
    let first_len = bytes.len();
    bytes.extend_from_slice(&encoded(&second));
    let mut connection = Connection::new();
    assert_eq!(connection.read_frame(None), Step::Read(4096));
    assert_eq!(connection.read_frame(Some(&bytes)), Step::Deliver(first));
    assert_eq!(connection.buffered(), bytes[first_len..].to_vec());
    assert_eq!(connection.capacity(), 4096);
    assert_eq!(connection.read_frame(None), Step::Deliver(second));
    assert_eq!(connection.filled(), 0);
    assert_eq!(connection.read_frame(None), Step::Read(4096));
}

#[test]
fn start_of_the_next_unit_survives_a_delivery() {
    let mut connection = Connection::new();
    assert_eq!(connection.read_frame(None), Step::Read(4096));
    assert_eq!(
        connection.read_frame(Some(b":1\r\n+PO")),
        Step::Deliver(Unit::Integer(1))
    );
    assert_eq!(connection.buffered(), b"+PO".to_vec());
    assert_eq!(connection.read_frame(None), Step::Read(4093));
    assert_eq!(
        connection.read_frame(Some(b"NG\r\n")),
        Step::Deliver(Unit::Simple("PONG".to_string()))
    );
    assert_eq!(connection.filled(), 0);
}

#[test]
fn unit_larger_than_the_buffer_makes_it_double() {
    let payload = pseudo_random(5000);
    let bytes = encoded(&Unit::Bulk(payload.clone()));
    assert_eq!(bytes.len(), 5000 + 9);
    let mut connection = Connection::new();
    let (step, taken) = read_from(&mut connection, &bytes, usize::MAX);
    assert_eq!(step, Step::Deliver(Unit::Bulk(payload)));
    assert_eq!(taken, bytes.len());
    assert_eq!(connection.capacity(), 8192);
    assert!(connection.capacity() >= bytes.len());
    assert_eq!(connection.filled(), 0);
}

#[test]
fn buffer_doubles_as_often_as_the_unit_needs() {
    let payload = pseudo_random(40_000);
    let bytes = encoded(&Unit::Bulk(payload.clone()));
    let mut connection = Connection::new();
    let (step, _) = read_from(&mut connection, &bytes, 1500);
    assert_eq!(step, Step::Deliver(Unit::Bulk(payload)));
    assert_eq!(connection.capacity(), 65_536);
    assert_eq!(connection.capacity() % INITIAL_CAPACITY, 0);
    assert!((connection.capacity() / INITIAL_CAPACITY).is_power_of_two());
}

#[test]
fn full_buffer_doubles_before_the_next_read() {
    let mut connection = Connection::new();
    assert_eq!(connection.read_frame(None), Step::Read(4096));
    let mut chunk = b"$9000\r\n".to_vec();
    chunk.resize(4096, b'x');
    assert_eq!(connection.read_frame(Some(&chunk)), Step::Read(4096));
    assert_eq!(connection.capacity(), 8192);
    assert_eq!(connection.filled(), 4096);
    assert_eq!(connection.buffered(), chunk);
}

#[test]
fn buffer_that_is_not_full_keeps_its_size() {
    let mut connection = Connection::new();
    assert_eq!(connection.read_frame(None), Step::Read(4096));
    assert_eq!(connection.read_frame(Some(b"+O")), Step::Read(4094));
    assert_eq!(connection.capacity(), 4096);
}

#[test]
fn capacity_stays_after_a_large_unit_has_left() {
    let bytes = encoded(&Unit::Bulk(pseudo_random(5000)));
    let mut connection = Connection::new();
    let _ = read_from(&mut connection, &bytes, usize::MAX);
    assert_eq!(connection.capacity(), 8192);
    let (step, _) = read_from(&mut connection, b"+OK\r\n", usize::MAX);
    assert_eq!(step, Step::Deliver(Unit::Simple("OK".to_string())));
    assert_eq!(connection.capacity(), 8192);
}

#[test]
fn end_of_stream_with_nothing_buffered_is_clean() {
    let mut connection = Connection::new();
    assert_eq!(connection.read_frame(None), Step::Read(4096));
    assert_eq!(connection.read_frame(Some(&[])), Step::Closed);
}

#[test]
fn end_of_stream_after_a_whole_unit_is_clean() {
    let mut connection = Connection::new();
    let (step, _) = read_from(&mut connection, b"+OK\r\n", usize::MAX);
    assert_eq!(step, Step::Deliver(Unit::Simple("OK".to_string())));
    assert_eq!(connection.read_frame(None), Step::Read(4096));
    assert_eq!(connection.read_frame(Some(&[])), Step::Closed);
}

#[test]
fn end_of_stream_inside_a_unit_is_a_reset() {
    let mut connection = Connection::new();
    assert_eq!(connection.read_frame(None), Step::Read(4096));
    assert_eq!(connection.read_frame(Some(b"+O")), Step::Read(4094));
    assert_eq!(connection.read_frame(Some(&[])), Step::Failed(ReadError::Reset));
    assert_eq!(connection.buffered(), b"+O".to_vec());
}

#[test]
fn unknown_type_byte_is_a_protocol_error() {
    let mut connection = Connection::new();
    assert_eq!(connection.read_frame(None), Step::Read(4096));
    assert_eq!(
        connection.read_frame(Some(b"!oops\r\n")),
        Step::Failed(ReadError::Protocol(
            "protocol error; invalid frame type byte `33`".to_string()
        ))
    );
    assert_eq!(connection.buffered(), b"!oops\r\n".to_vec());
}

#[test]
fn unit_that_checks_but_does_not_decode_is_a_protocol_error() {
    let mut connection = Connection::new();
    assert_eq!(connection.read_frame(None), Step::Read(4096));
    assert_eq!(
        connection.read_frame(Some(b"$-2\r\n")),
        Step::Failed(ReadError::Protocol("protocol error; invalid frame format".to_string()))
    );
    assert_eq!(connection.filled(), 5);
}

#[test]
fn text_that_is_not_utf8_is_a_protocol_error() {
    let mut connection = Connection::new();
    assert_eq!(connection.read_frame(None), Step::Read(4096));
    assert_eq!(
        connection.read_frame(Some(&[b'+', 0xff, b'\r', b'\n'])),
        Step::Failed(ReadError::Protocol("protocol error; invalid frame format".to_string()))
    );
}

#[test]
fn sequence_of_units_is_read_with_its_items() {
    let mut connection = Connection::new();
    let (step, _) = read_from(
        &mut connection,
        b"*3\r\n$3\r\nSET\r\n$3\r\nkey\r\n*2\r\n:5\r\n$-1\r\n",
        usize::MAX,
    );
    assert_eq!(
        step,
        Step::Deliver(Unit::Array(vec![
            Unit::Bulk(b"SET".to_vec()),
            Unit::Bulk(b"key".to_vec()),
            Unit::Array(vec![Unit::Integer(5), Unit::Null]),
        ]))
    );
}

#[test]
fn largest_integer_of_the_codec_is_read() {
    let mut connection = Connection::new();
    let (step, _) = read_from(&mut connection, b":18446744073709551615\r\n", 4);
    assert_eq!(step, Step::Deliver(Unit::Integer(i128::from(u64::MAX))));
}

#[test]
fn payload_length_near_the_largest_usize_is_too_large() {
    let header = format!("${}\r\n", usize::MAX);
    let mut connection = Connection::new();
    assert_eq!(connection.read_frame(None), Step::Read(4096));
    assert_eq!(
        connection.read_frame(Some(header.as_bytes())),
        Step::Failed(ReadError::TooLarge)
    );
    assert_eq!(connection.buffered(), header.as_bytes().to_vec());
    let header = format!("${}\r\n", usize::MAX - 1);
    let mut connection = Connection::new();
    assert_eq!(connection.read_frame(None), Step::Read(4096));
    assert_eq!(
        connection.read_frame(Some(header.as_bytes())),
        Step::Failed(ReadError::TooLarge)
    );
}

#[test]
fn payload_length_that_leaves_room_for_the_line_end_is_awaited() {
    let header = format!("${}\r\n", usize::MAX - 2);
    let mut connection = Connection::new();
    assert_eq!(connection.read_frame(None), Step::Read(4096));
    assert_eq!(
        connection.read_frame(Some(header.as_bytes())),
        Step::Read(4096 - header.len())
    );
}

#[test]
fn parse_frame_takes_one_unit_and_keeps_the_rest() {
    let mut connection = Connection::new();
    connection.fill(b"+OK\r\n:12");
    assert_eq!(connection.parse_frame(), Ok(Some(Unit::Simple("OK".to_string()))));
    assert_eq!(connection.buffered(), b":12".to_vec());
    assert_eq!(connection.parse_frame(), Ok(None));
    assert_eq!(connection.buffered(), b":12".to_vec());
    connection.fill(b"\r\n");
    assert_eq!(connection.parse_frame(), Ok(Some(Unit::Integer(12))));
    assert_eq!(connection.filled(), 0);
    assert_eq!(connection.parse_frame(), Ok(None));
}

#[test]
fn parse_frame_reports_what_the_codec_refuses() {
    let mut connection = Connection::new();
    connection.fill(b"?\r\n");
    assert_eq!(
        connection.parse_frame(),
        Err(ReadError::Protocol(
            "protocol error; invalid frame type byte `63`".to_string()
        ))
    );
    assert_eq!(connection.buffered(), b"?\r\n".to_vec());
}

#[test]
fn fill_puts_chunks_one_behind_the_other() {
    let mut connection = Connection::new();
    connection.fill(b"abc");
    connection.fill(b"");
    connection.fill(b"de");
    assert_eq!(connection.buffered(), b"abcde".to_vec());
    assert_eq!(connection.filled(), 5);
    assert_eq!(connection.capacity(), 4096);
}

#[test]
fn make_room_doubles_only_a_full_buffer() {
    let mut connection = Connection::new();
    assert_eq!(connection.make_room(), 4096);
    connection.fill(&[7u8; 4000]);
    assert_eq!(connection.make_room(), 96);
    assert_eq!(connection.capacity(), 4096);
    connection.fill(&[8u8; 96]);
    assert_eq!(connection.make_room(), 4096);
    assert_eq!(connection.capacity(), 8192);
    let mut expected = vec![7u8; 4000];
    expected.extend_from_slice(&[8u8; 96]);
    assert_eq!(connection.buffered(), expected);
}

#[test]
fn read_errors_say_what_went_wrong() {
    assert_eq!(ReadError::Reset.message(), "connection reset by peer");
    assert_eq!(ReadError::TooLarge.message(), "frame too large for this machine");
    assert_eq!(ReadError::Protocol("bad".to_string()).message(), "bad");
}

#[test]
fn units_are_cloned_with_all_they_hold() {
    let unit = Unit::Array(vec![
        Unit::Simple("OK".to_string()),
        Unit::Error("ERR x".to_string()),
        Unit::Integer(-7),
        Unit::Bulk(vec![0, 255, 13, 10]),
        Unit::Null,
        Unit::Array(vec![Unit::Array(Vec::new()), Unit::Integer(1)]),
    ]);
    let copy = unit.clone();
    assert_eq!(copy, unit);
    assert_ne!(copy, Unit::Array(Vec::new()));
}

fn looks_like_a_length() -> String {
    format!("${}", usize::MAX)
}

#[test]
fn status_text_that_looks_like_a_length_is_read_back() {
    for text in ["$99999999999999999999".to_string(), looks_like_a_length()] {
        let unit = Unit::Simple(text);
        let bytes = encoded(&unit);
        let mut whole = Connection::new();
        let (step, _) = read_from(&mut whole, &bytes, usize::MAX);
        assert_eq!(step, Step::Deliver(unit.clone()));
        assert_eq!(whole.filled(), 0);
        let mut pieces = Connection::new();
        let (step, _) = read_from(&mut pieces, &bytes, 12);
        assert_eq!(step, Step::Deliver(unit.clone()));
        let mut bytewise = Connection::new();
        let (step, _) = read_from(&mut bytewise, &bytes, 1);
        assert_eq!(step, Step::Deliver(unit));
    }
}

#[test]
fn error_text_that_looks_like_a_length_is_read_back() {
    let unit = Unit::Error(looks_like_a_length());
    let mut connection = Connection::new();
    let (step, _) = read_from(&mut connection, &encoded(&unit), usize::MAX);
    assert_eq!(step, Step::Deliver(unit));
}

#[test]
fn payload_that_looks_like_a_length_is_read_back() {
    let mut payload = looks_like_a_length().into_bytes();
    payload.extend_from_slice(b"\r\n$99999999999999999999\r\n");
    let unit = Unit::Bulk(payload);
    let bytes = encoded(&unit);
    for size in [usize::MAX, 7, 1] {
        let mut connection = Connection::new();
        let (step, taken) = read_from(&mut connection, &bytes, size);
        assert_eq!(step, Step::Deliver(unit.clone()));
        assert_eq!(taken, bytes.len());
        assert_eq!(connection.filled(), 0);
    }
}

#[test]
fn large_payload_that_begins_like_a_length_makes_the_buffer_double() {
    let mut payload = looks_like_a_length().into_bytes();
    payload.extend_from_slice(b"\r\n");
    payload.extend_from_slice(&pseudo_random(5000));
    let unit = Unit::Bulk(payload);
    let bytes = encoded(&unit);
    let mut connection = Connection::new();
    let (step, _) = read_from(&mut connection, &bytes, usize::MAX);
    assert_eq!(step, Step::Deliver(unit));
    assert_eq!(connection.capacity(), 8192);
    assert!(connection.capacity() >= bytes.len());
}

#[test]
fn second_unit_that_looks_like_a_length_comes_out_second() {
    let first = Unit::Integer(7);
    let second = Unit::Simple("$99999999999999999999".to_string());
    let mut bytes = encoded(&first);
    bytes.extend_from_slice(&encoded(&second));
    let mut connection = Connection::new();
    assert_eq!(connection.read_frame(None), Step::Read(4096));
    assert_eq!(connection.read_frame(Some(&bytes)), Step::Deliver(first));
    assert_eq!(connection.read_frame(None), Step::Deliver(second));
    assert_eq!(connection.filled(), 0);
}

#[test]
fn item_payload_that_looks_like_a_length_is_read_in_its_sequence() {
    let value = format!("{}\r\n", looks_like_a_length()).into_bytes();
    let mut bytes = b"*3\r\n$3\r\nSET\r\n$3\r\nkey\r\n".to_vec();
    bytes.extend_from_slice(&encoded(&Unit::Bulk(value.clone())));
    let mut connection = Connection::new();
    let (step, _) = read_from(&mut connection, &bytes, 5);
    assert_eq!(
        step,
        Step::Deliver(Unit::Array(vec![
            Unit::Bulk(b"SET".to_vec()),
            Unit::Bulk(b"key".to_vec()),
            Unit::Bulk(value),
        ]))
    );
}

#[test]
fn item_length_near_the_largest_usize_is_too_large() {
    let mut bytes = b"*2\r\n$3\r\nGET\r\n".to_vec();
    bytes.extend_from_slice(format!("${}\r\n", usize::MAX).as_bytes());
    let mut connection = Connection::new();
    assert_eq!(connection.read_frame(None), Step::Read(4096));
    assert_eq!(connection.read_frame(Some(&bytes)), Step::Failed(ReadError::TooLarge));
}

#[test]
fn unfinished_text_that_looks_like_a_length_is_awaited() {
    let text = format!("+{}", looks_like_a_length());
    let mut connection = Connection::new();
    assert_eq!(connection.read_frame(None), Step::Read(4096));
    assert_eq!(
        connection.read_frame(Some(text.as_bytes())),
        Step::Read(4096 - text.len())
    );
    connection.fill(b"!");
    assert_eq!(connection.parse_frame(), Ok(None));
    assert_eq!(connection.filled(), text.len() + 1);
}

#[test]
fn malformed_bytes_that_look_like_a_length_are_a_protocol_error() {
    let bytes = format!("x{}\r\n", looks_like_a_length());
    let mut connection = Connection::new();
    assert_eq!(connection.read_frame(None), Step::Read(4096));
    assert_eq!(
        connection.read_frame(Some(bytes.as_bytes())),
        Step::Failed(ReadError::Protocol(
            "protocol error; invalid frame type byte `120`".to_string()
        ))
    );
    let mut direct = Connection::new();
    direct.fill(bytes.as_bytes());
    assert_eq!(
        direct.parse_frame(),
        Err(ReadError::Protocol(
            "protocol error; invalid frame type byte `120`".to_string()
        ))
    );
}

#[test]
fn length_too_large_for_sixty_four_bits_is_a_protocol_error() {
    let mut connection = Connection::new();
    assert_eq!(connection.read_frame(None), Step::Read(4096));
    assert_eq!(
        connection.read_frame(Some(b"$99999999999999999999\r\n")),
        Step::Failed(ReadError::Protocol("protocol error; invalid frame format".to_string()))
    );
}

#[test]
fn parse_frame_takes_a_text_that_looks_like_a_length() {
    let unit = Unit::Simple(looks_like_a_length());
    let mut bytes = encoded(&unit);
    bytes.extend_from_slice(b":4");
    let mut connection = Connection::new();
    connection.fill(&bytes);
    assert_eq!(connection.parse_frame(), Ok(Some(unit)));
    assert_eq!(connection.buffered(), b":4".to_vec());
    assert_eq!(connection.capacity(), 4096);
}

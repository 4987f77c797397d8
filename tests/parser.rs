use hyperstone::combinators::{
    finish_outer_message, take_command, take_data, take_outer_message, take_replay_size_info, take_size,
    take_source2_signature, take_tick, take_varint,
};
use hyperstone::demo_event::DemoEvent;
use hyperstone::{
    dispatch, notifier_for_demo_cmd, DemoCommand, DemoMessageType, Hyperstone, HyperstoneError, OuterMessage,
    IS_COMPRESSED_MASK,
};

const SIGNATURE: &[u8] = b"PBDEMS2\0";

fn varint(mut v: u32) -> Vec<u8> {
    let mut out = Vec::new();
    while v >= 128 {
        out.push((v % 128) as u8 | 0x80);
        v /= 128;
    }
    out.push(v as u8);
    out
}

fn frame(command: u32, tick: u32, payload: &[u8]) -> Vec<u8> {
    let mut out = varint(command);
    out.extend(varint(tick));
    out.extend(varint(payload.len() as u32));
    out.extend_from_slice(payload);
    out
}

fn replay(frames: &[Vec<u8>]) -> Vec<u8> {
    let mut out = SIGNATURE.to_vec();
    out.extend_from_slice(&[0u8; 8]);
    for f in frames {
        out.extend_from_slice(f);
    }
    out
}

fn compress(data: &[u8]) -> Vec<u8> {
    snap::raw::Encoder::new().compress_vec(data).unwrap()
}

#[test]
fn bad_signature() {
    let data = b"thesearen'tthebytesyou'relookingfor";
    let mut parser = Hyperstone::new();
    let mut events = Vec::new();
    assert_eq!(
        parser.begin_parse(data, &mut events),
        Err(HyperstoneError::UnverifiableBuffer)
    );
}

#[test]
fn test() {
    let data = replay(&[
        frame(1, 0, b"header"),
        frame(7, 5, b"packet"),
        frame(0, 9, b""),
    ]);
    let mut parser = Hyperstone::new();
    let mut events = Vec::new();
    assert_eq!(parser.begin_parse(&data, &mut events), Ok(()));
    assert_eq!(events.len(), 3);
    assert_eq!(parser.current_tick(), 9);
}

#[test]
fn varint_single_byte() {
    let (rest, v) = take_varint(&[0x05, 0xAA]).unwrap();
    assert_eq!(v, 5);
    assert_eq!(rest, &[0xAA]);
}

#[test]
fn varint_two_bytes() {
    let (rest, v) = take_varint(&[0xAC, 0x02]).unwrap();
    assert_eq!(v, 300);
    assert!(rest.is_empty());
}

#[test]
fn varint_max_takes_five_bytes() {
    let bytes = varint(0xFFFF_FFFF);
    assert_eq!(bytes, vec![0xFF, 0xFF, 0xFF, 0xFF, 0x0F]);
    let mut input = bytes.clone();
    input.push(0x42);
    let (rest, v) = take_varint(&input).unwrap();
    assert_eq!(v, 0xFFFF_FFFF);
    assert_eq!(rest, &[0x42]);
}

#[test]
fn varint_round_trip_samples() {
    for v in [0u32, 1, 127, 128, 16383, 16384, 2097151, 2097152, 268435455, 268435456, 0xFFFF_FFFE] {
        let bytes = varint(v);
        let (rest, back) = take_varint(&bytes).unwrap();
        assert_eq!(back, v);
        assert!(rest.is_empty());
    }
}

#[test]
fn varint_stops_after_five_bytes() {
    let input = [0x80u8, 0x80, 0x80, 0x80, 0x80, 0x80, 0x01];
    let (rest, v) = take_varint(&input).unwrap();
    assert_eq!(v, 0);
    assert_eq!(rest, &[0x80, 0x01]);
}

#[test]
fn varint_fifth_byte_high_bits_truncated() {
    let input = [0xFFu8, 0xFF, 0xFF, 0xFF, 0x7F];
    let (rest, v) = take_varint(&input).unwrap();
    assert_eq!(v, 0xFFFF_FFFF);
    assert!(rest.is_empty());
}

#[test]
fn varint_truncated() {
    assert_eq!(take_varint(&[]), Err(HyperstoneError::UnknownOuterMessage));
    assert_eq!(take_varint(&[0x80, 0x80]), Err(HyperstoneError::UnknownOuterMessage));
}

#[test]
fn command_tick_size_readers() {
    let input = [0x47u8, 0x64, 0x03];
    let (rest, c) = take_command(&input).unwrap();
    let (rest, t) = take_tick(rest).unwrap();
    let (rest, s) = take_size(rest).unwrap();
    assert_eq!((c, t, s), (71, 100, 3));
    assert!(rest.is_empty());
}

#[test]
fn signature_accepted() {
    let mut input = SIGNATURE.to_vec();
    input.push(9);
    let (rest, sig) = take_source2_signature(&input).unwrap();
    assert_eq!(sig, SIGNATURE);
    assert_eq!(rest, &[9]);
}

#[test]
fn signature_rejected() {
    assert_eq!(take_source2_signature(b"PBDEMS1\0xx"), Err(HyperstoneError::UnverifiableBuffer));
    assert_eq!(take_source2_signature(b"PBDEMS2"), Err(HyperstoneError::UnverifiableBuffer));
}

#[test]
fn size_header() {
    let input = [1u8, 2, 3, 4, 5, 6, 7, 8, 9];
    let (rest, size) = take_replay_size_info(&input).unwrap();
    assert_eq!(size, &input[..8]);
    assert_eq!(rest, &[9]);
    assert_eq!(take_replay_size_info(&input[..7]), Err(HyperstoneError::UnknownOuterMessage));
}

#[test]
fn short_header_rejected() {
    let mut data = SIGNATURE.to_vec();
    data.extend_from_slice(&[0u8; 7]);
    let mut parser = Hyperstone::new();
    let mut events = Vec::new();
    assert_eq!(parser.begin_parse(&data, &mut events), Err(HyperstoneError::UnknownOuterMessage));
    let mut bare = Vec::new();
    assert_eq!(parser.begin_parse(SIGNATURE, &mut bare), Err(HyperstoneError::UnknownOuterMessage));
}

#[test]
fn data_taken() {
    let (rest, data) = take_data(&[1, 2, 3, 4], 3).unwrap();
    assert_eq!(data, &[1, 2, 3]);
    assert_eq!(rest, &[4]);
    assert_eq!(take_data(&[1, 2], 3), Err(HyperstoneError::UnknownOuterMessage));
}

#[test]
fn tick_sentinel_reads_as_zero() {
    let f = frame(3, 0xFFFF_FFFF, b"abc");
    let (rest, m) = take_outer_message(&f).unwrap();
    assert!(rest.is_empty());
    assert_eq!(m.tick, 0);
    assert_eq!(m.message_type, 3);
    assert_eq!(m.get_data(), b"abc");
}

#[test]
fn outer_message_clears_compression_bit() {
    let payload = b"some payload bytes, some payload bytes".to_vec();
    let block = compress(&payload);
    let f = frame(7 | IS_COMPRESSED_MASK, 12, &block);
    let (_, m) = take_outer_message(&f).unwrap();
    assert_eq!(m.message_type, 7);
    assert_eq!(m.tick, 12);
    assert_eq!(m.data, payload);
    assert_ne!(m.data, block);
}

#[test]
fn truncated_frame() {
    let f = frame(1, 2, b"abcdef");
    assert_eq!(take_outer_message(&f[..f.len() - 1]).err(), Some(HyperstoneError::UnknownOuterMessage));
    let mut parser = Hyperstone::new();
    let mut events = Vec::new();
    let data = replay(&[frame(1, 4, b"ok"), f[..f.len() - 2].to_vec()]);
    assert_eq!(parser.begin_parse(&data, &mut events), Err(HyperstoneError::UnknownOuterMessage));
    assert_eq!(events.len(), 1);
    assert_eq!(parser.current_tick(), 4);
}

#[test]
fn malformed_compressed_payload() {
    let f = frame(1 | IS_COMPRESSED_MASK, 2, &[0xFF, 0xFF, 0xFF, 0xFF, 0xFF, 0xFF]);
    assert_eq!(take_outer_message(&f).err(), Some(HyperstoneError::DecompressionError));
    let empty = frame(1 | IS_COMPRESSED_MASK, 2, &[]);
    assert_eq!(take_outer_message(&empty).err(), Some(HyperstoneError::DecompressionError));
    let mut parser = Hyperstone::new();
    let mut events = Vec::new();
    assert_eq!(parser.begin_parse(&replay(&[f]), &mut events), Err(HyperstoneError::DecompressionError));
    assert!(events.is_empty());
}

#[test]
fn finish_outer_message_cases() {
    let m = finish_outer_message(5 | IS_COMPRESSED_MASK, 0xFFFF_FFFF, Some(vec![1, 2])).unwrap();
    assert_eq!((m.tick, m.message_type, m.data.clone()), (0, 5, vec![1, 2]));
    assert_eq!(finish_outer_message(5, 3, None).err(), Some(HyperstoneError::DecompressionError));
}

#[test]
fn empty_stream_finishes() {
    let mut parser = Hyperstone::new();
    let mut events = Vec::new();
    assert_eq!(parser.begin_parse(&replay(&[]), &mut events), Ok(()));
    assert!(events.is_empty());
    assert_eq!(parser.current_tick(), 0);
}

#[test]
fn stop_at_tick_skips_later_frames() {
    let data = replay(&[frame(7, 10, b"a"), frame(7, 20, b"b"), frame(7, 30, b"c")]);
    let mut parser = Hyperstone::new();
    parser.stop_parse_at_tick(20);
    let mut events = Vec::new();
    assert_eq!(parser.begin_parse(&data, &mut events), Ok(()));
    assert_eq!(events.len(), 1);
    assert_eq!(events[0].tick, 10);
    assert_eq!(parser.current_tick(), 10);
}

#[test]
fn stop_tick_already_passed() {
    let data = replay(&[frame(7, 10, b"a"), frame(7, 20, b"b")]);
    let mut parser = Hyperstone::new();
    let mut events = Vec::new();
    assert_eq!(parser.begin_parse(&data, &mut events), Ok(()));
    assert_eq!(parser.current_tick(), 20);
    parser.stop_parse_at_tick(15);
    let mut more = Vec::new();
    assert_eq!(parser.begin_parse(&data, &mut more), Ok(()));
    assert!(more.is_empty());
    assert_eq!(parser.current_tick(), 20);
}

#[test]
fn stop_parse_halts() {
    let data = replay(&[frame(7, 10, b"a")]);
    let mut parser = Hyperstone::new();
    parser.stop_parse();
    let mut events = Vec::new();
    assert_eq!(parser.begin_parse(&data, &mut events), Ok(()));
    assert!(events.is_empty());
}

#[test]
fn unknown_command_fails() {
    let data = replay(&[frame(1, 3, b"x"), frame(16, 4, b"y"), frame(2, 5, b"z")]);
    let mut parser = Hyperstone::new();
    let mut events = Vec::new();
    assert_eq!(parser.begin_parse(&data, &mut events), Err(HyperstoneError::UnknownDemoCommand));
    assert_eq!(events.len(), 1);
    assert_eq!(parser.current_tick(), 3);
}

#[test]
fn compression_flag_independence() {
    let payload = b"identical payload content for both frames".to_vec();
    let block = compress(&payload);
    let data = replay(&[frame(4, 8, &payload), frame(4 | IS_COMPRESSED_MASK, 8, &block)]);
    let mut parser = Hyperstone::new();
    let mut events: Vec<DemoEvent> = Vec::new();
    assert_eq!(parser.begin_parse(&data, &mut events), Ok(()));
    assert_eq!(events.len(), 2);
    assert_eq!(events[0].tick, events[1].tick);
    assert_eq!(events[0].command, events[1].command);
    assert_eq!(events[0].message, events[1].message);
    assert_eq!(events[0].data, events[1].data);
    assert_eq!(events[1].data, payload);
}

#[test]
fn end_to_end_two_frames() {
    let payload: Vec<u8> = (0u8..40).collect();
    let n = payload.len();
    let block = compress(&payload);
    let data = replay(&[frame(1, 100, &payload), frame(1 | IS_COMPRESSED_MASK, 200, &block)]);
    let mut parser = Hyperstone::new();
    let mut events = Vec::new();
    assert_eq!(parser.begin_parse(&data, &mut events), Ok(()));
    assert_eq!(events.len(), 2);
    assert_eq!(events[0].tick, 100);
    assert_eq!(events[1].tick, 200);
    assert_eq!(events[0].data.len(), n);
    assert_eq!(events[1].data.len(), n);
    assert_eq!(events[0].command, DemoCommand::FileHeader);
    assert_eq!(parser.current_tick(), 200);
}

#[test]
fn signon_and_packet_share_schema() {
    assert_eq!(notifier_for_demo_cmd(DemoCommand::Packet), DemoMessageType::Packet);
    assert_eq!(notifier_for_demo_cmd(DemoCommand::SignonPacket), DemoMessageType::Packet);
    let data = replay(&[frame(8, 1, b"s"), frame(7, 2, b"p")]);
    let mut parser = Hyperstone::new();
    let mut events = Vec::new();
    assert_eq!(parser.begin_parse(&data, &mut events), Ok(()));
    assert_eq!(events[0].command, DemoCommand::SignonPacket);
    assert_eq!(events[1].command, DemoCommand::Packet);
    assert_eq!(events[0].message, events[1].message);
}

#[test]
fn registry_ids() {
    assert_eq!(DemoCommand::from_id(0), Some(DemoCommand::Stop));
    assert_eq!(DemoCommand::from_id(15), Some(DemoCommand::SpawnGroups));
    assert_eq!(DemoCommand::from_id(16), None);
    assert_eq!(DemoCommand::from_id(64), None);
    for id in 0u32..16 {
        assert_eq!(DemoCommand::from_id(id).unwrap().id(), id);
    }
}

#[test]
fn outer_message_accessors() {
    let m = OuterMessage::new(7, 13, vec![1, 2, 3]);
    assert_eq!(m.get_data(), &[1, 2, 3]);
    assert_eq!(m.get_demo_cmd(), Ok(DemoCommand::FullPacket));
    let bad = OuterMessage::new(7, 99, vec![]);
    assert_eq!(bad.get_demo_cmd(), Err(HyperstoneError::UnknownDemoCommand));
}

#[test]
fn dispatch_routes_or_rejects() {
    let ev = dispatch(OuterMessage::new(5, 6, vec![9])).unwrap();
    assert_eq!((ev.tick, ev.command, ev.message, ev.data), (5, DemoCommand::StringTables, DemoMessageType::StringTables, vec![9]));
    assert_eq!(dispatch(OuterMessage::new(5, 17, vec![])).err(), Some(HyperstoneError::UnknownDemoCommand));
}

#[test]
fn new_session_defaults() {
    let parser = Hyperstone::new();
    assert_eq!(parser.current_tick(), 0);
}

use vstd::prelude::*;
use vstd::slice::{slice_subrange, slice_to_vec};

use crate::demo_command::IS_COMPRESSED_MASK;
use crate::errors::HyperstoneError;
use crate::outer_message::{OuterMessage, OuterMessageView};

verus! {

/// The eight bytes that open every Source 2 replay: `PBDEMS2\0`.
pub open spec fn source2_signature() -> Seq<u8> {
    seq![0x50u8, 0x42u8, 0x44u8, 0x45u8, 0x4Du8, 0x53u8, 0x32u8, 0x00u8]
}

/// Whether `s` starts with the replay signature.
pub open spec fn has_signature(s: Seq<u8>) -> bool {
    s.len() >= 8 && s.take(8) == source2_signature()
}

/// Index one past the last byte of the varint that starts at the front of `s`,
/// given that the bytes before `k` all carry the continuation bit. At most five
/// bytes are read, whatever the fifth one holds.
pub open spec fn varint_end(s: Seq<u8>, k: nat) -> Option<nat>
    decreases 5 - k,
{
    if k >= s.len() {
        None
    } else if s[k as int] < 128 || k >= 4 {
        Some(k + 1)
    } else {
        varint_end(s, k + 1)
    }
}

/// 128 to the power `n`.
pub open spec fn pow128(n: nat) -> nat
    decreases n,
{
    if n == 0 { 1 } else { 128 * pow128((n - 1) as nat) }
}

/// The little-endian base-128 value of the low seven bits of the first `n` bytes of `s`.
pub open spec fn groups_value(s: Seq<u8>, n: nat) -> nat
    decreases n,
{
    if n == 0 {
        0
    } else {
        groups_value(s, (n - 1) as nat) + (s[n - 1] % 128) as nat * pow128((n - 1) as nat)
    }
}

/// The varint at the front of `s` (kept to its low 32 bits) and the bytes after it.
pub open spec fn varint_spec(s: Seq<u8>) -> Option<(u32, Seq<u8>)> {
    match varint_end(s, 0) {
        Some(n) => Some(((groups_value(s, n) % 0x1_0000_0000) as u32, s.skip(n as int))),
        None => None,
    }
}

/// The `size` bytes at the front of `s` and the bytes after them, if `s` holds that many.
pub open spec fn data_spec(s: Seq<u8>, size: u32) -> Option<(Seq<u8>, Seq<u8>)> {
    if size <= s.len() {
        Some((s.take(size as int), s.skip(size as int)))
    } else {
        None
    }
}

/// An outer frame as it stands in the stream: command id, tick and payload, all raw.
pub struct RawFrame {
    pub command: u32,
    pub tick: u32,
    pub data: Seq<u8>,
}

/// The raw frame at the front of `s` and the bytes after it.
pub open spec fn raw_frame_spec(s: Seq<u8>) -> Option<(RawFrame, Seq<u8>)> {
    match varint_spec(s) {
        None => None,
        Some((command, r1)) => match varint_spec(r1) {
            None => None,
            Some((tick, r2)) => match varint_spec(r2) {
                None => None,
                Some((size, r3)) => match data_spec(r3, size) {
                    None => None,
                    Some((data, rest)) => Some((RawFrame { command, tick, data }, rest)),
                },
            },
        },
    }
}

/// What the Snappy raw decoder yields for a block: the decompressed bytes, or
/// nothing where the block is malformed.
pub uninterp spec fn snappy_decompressed(b: Seq<u8>) -> Option<Seq<u8>>;

/// Whether a command id carries the compression flag.
pub open spec fn is_compressed(command: u32) -> bool {
    command & IS_COMPRESSED_MASK == IS_COMPRESSED_MASK
}

/// The semantic command id: the command id with the compression flag cleared.
pub open spec fn message_type_spec(command: u32) -> u32 {
    command & !IS_COMPRESSED_MASK
}

/// A tick as the parser reports it: the all-ones sentinel means "no tick" and reads as 0.
pub open spec fn normalize_tick(tick: u32) -> u32 {
    if tick == 0xFFFF_FFFFu32 { 0 } else { tick }
}

/// The outer message that a raw frame stands for, once its payload is
/// `payload` (the decompressed bytes, or `None` where decompression failed).
pub open spec fn message_from_payload(command: u32, tick: u32, payload: Option<Seq<u8>>)
    -> Result<OuterMessageView, HyperstoneError>
{
    match payload {
        None => Err(HyperstoneError::DecompressionError),
        Some(data) => Ok(
            OuterMessageView { tick: normalize_tick(tick), message_type: message_type_spec(command), data },
        ),
    }
}

/// The payload of a raw frame after the decompressor has run where it is flagged.
pub open spec fn payload_spec(frame: RawFrame) -> Option<Seq<u8>> {
    if is_compressed(frame.command) {
        snappy_decompressed(frame.data)
    } else {
        Some(frame.data)
    }
}

/// The outer message at the front of `s` and the bytes after it.
pub open spec fn outer_message_spec(s: Seq<u8>) -> Result<(OuterMessageView, Seq<u8>), HyperstoneError> {
    match raw_frame_spec(s) {
        None => Err(HyperstoneError::UnknownOuterMessage),
        Some((frame, rest)) => match message_from_payload(frame.command, frame.tick, payload_spec(frame)) {
            Ok(m) => Ok((m, rest)),
            Err(e) => Err(e),
        },
    }
}

/// Checks that the buffer starts with the replay signature and steps over it.
pub fn take_source2_signature(input: &[u8]) -> (r: Result<(&[u8], &[u8]), HyperstoneError>)
    ensures
        match r {
            Ok((rest, sig)) => has_signature(input@) && sig@ == source2_signature()
                && rest@ == input@.skip(8),
            Err(e) => !has_signature(input@) && e == HyperstoneError::UnverifiableBuffer,
        },
{
    let expected: [u8; 8] = [0x50, 0x42, 0x44, 0x45, 0x4D, 0x53, 0x32, 0x00];
    if input.len() < 8 {
        return Err(HyperstoneError::UnverifiableBuffer);
    }
    let mut i: usize = 0;
    while i < 8
        invariant
            0 <= i <= 8,
            input@.len() >= 8,
            expected@ == source2_signature(),
            forall|k: int| 0 <= k < i ==> input@[k] == source2_signature()[k],
        decreases 8 - i,
    {
        if input[i] != expected[i] {
            proof {
                assert(input@.take(8)[i as int] != source2_signature()[i as int]);
            }
            return Err(HyperstoneError::UnverifiableBuffer);
        }
        i = i + 1;
    }
    assert(input@.take(8) =~= source2_signature());
    let sig = slice_subrange(input, 0, 8);
    let rest = slice_subrange(input, 8, input.len());
    assert(rest@ =~= input@.skip(8));
    Ok((rest, sig))
}

/// Steps over the eight-byte replay size header, whose value is informational only.
pub fn take_replay_size_info(input: &[u8]) -> (r: Result<(&[u8], &[u8]), HyperstoneError>)
    ensures
        match r {
            Ok((rest, size)) => input@.len() >= 8 && size@ == input@.take(8) && rest@ == input@.skip(8),
            Err(e) => input@.len() < 8 && e == HyperstoneError::UnknownOuterMessage,
        },
{
    if input.len() < 8 {
        return Err(HyperstoneError::UnknownOuterMessage);
    }
    let size = slice_subrange(input, 0, 8);
    let rest = slice_subrange(input, 8, input.len());
    assert(rest@ =~= input@.skip(8));
    assert(size@ =~= input@.take(8));
    Ok((rest, size))
}

/// Extends a varint's value by one more group.
proof fn lemma_groups_step(s: Seq<u8>, n: nat)
    ensures
        groups_value(s, n + 1) == groups_value(s, n) + (s[n as int] % 128) as nat * pow128(n),
{
}

/// A varint of at most five groups fits well inside 64 bits.
proof fn lemma_pow128_small(n: nat)
    requires
        n <= 4,
    ensures
        pow128(n) <= 0x1000_0000,
{
    reveal_with_fuel(pow128, 5);
}

/// Decodes the base-128 varint at the front of the buffer.
pub fn take_varint(input: &[u8]) -> (r: Result<(&[u8], u32), HyperstoneError>)
    ensures
        match r {
            Ok((rest, v)) => varint_spec(input@) == Some((v, rest@)),
            Err(e) => varint_spec(input@).is_none() && e == HyperstoneError::UnknownOuterMessage,
        },
{
    let mut res: u64 = 0;
    let mut mult: u64 = 1;
    let mut count: usize = 0;
    loop
        invariant
            count < 5,
            count <= input@.len(),
            varint_end(input@, 0) == varint_end(input@, count as nat),
            res == groups_value(input@, count as nat),
            mult == pow128(count as nat),
            res < mult,
        decreases 5 - count,
    {
        if count >= input.len() {
            return Err(HyperstoneError::UnknownOuterMessage);
        }
        let byte = input[count];
        proof {
            lemma_groups_step(input@, count as nat);
            lemma_pow128_small(count as nat);
        }
        assert(((byte & 127) as u64) == byte % 128) by (bit_vector);
        assert(res + (byte % 128) as u64 * mult < 128 * mult) by (nonlinear_arith)
            requires res < mult, byte % 128 < 128;
        res = res + ((byte & 127) as u64) * mult;
        count = count + 1;
        if count == 5 || byte < 128 {
            let rest = slice_subrange(input, count, input.len());
            assert(rest@ =~= input@.skip(count as int));
            return Ok((rest, (res % 0x1_0000_0000) as u32));
        }
        mult = mult * 128;
    }
}

/// Reads the command id of an outer message.
pub fn take_command(input: &[u8]) -> (r: Result<(&[u8], u32), HyperstoneError>)
    ensures
        match r {
            Ok((rest, v)) => varint_spec(input@) == Some((v, rest@)),
            Err(e) => varint_spec(input@).is_none() && e == HyperstoneError::UnknownOuterMessage,
        },
{
    take_varint(input)
}

/// Reads the raw tick of an outer message.
pub fn take_tick(input: &[u8]) -> (r: Result<(&[u8], u32), HyperstoneError>)
    ensures
        match r {
            Ok((rest, v)) => varint_spec(input@) == Some((v, rest@)),
            Err(e) => varint_spec(input@).is_none() && e == HyperstoneError::UnknownOuterMessage,
        },
{
    take_varint(input)
}

/// Reads the payload size of an outer message.
pub fn take_size(input: &[u8]) -> (r: Result<(&[u8], u32), HyperstoneError>)
    ensures
        match r {
            Ok((rest, v)) => varint_spec(input@) == Some((v, rest@)),
            Err(e) => varint_spec(input@).is_none() && e == HyperstoneError::UnknownOuterMessage,
        },
{
    take_varint(input)
}

/// Takes the `size` payload bytes at the front of the buffer.
pub fn take_data(input: &[u8], size: u32) -> (r: Result<(&[u8], &[u8]), HyperstoneError>)
    ensures
        match r {
            Ok((rest, data)) => data_spec(input@, size) == Some((data@, rest@)),
            Err(e) => data_spec(input@, size).is_none() && e == HyperstoneError::UnknownOuterMessage,
        },
{
    let n = size as usize;
    if n > input.len() {
        return Err(HyperstoneError::UnknownOuterMessage);
    }
    let data = slice_subrange(input, 0, n);
    let rest = slice_subrange(input, n, input.len());
    assert(data@ =~= input@.take(n as int));
    assert(rest@ =~= input@.skip(n as int));
    Ok((rest, data))
}

/// Relies on snap::raw::Decoder::decompress_vec: it decodes one raw Snappy
/// block, and an empty block is an error.
#[verifier::external_body]
fn snappy_decompress(data: &[u8]) -> (r: Option<Vec<u8>>)
    ensures
        match r {
            Some(v) => snappy_decompressed(data@) == Some(v@),
            None => snappy_decompressed(data@).is_none(),
        },
        data@.len() == 0 ==> r.is_none(),
{
    snap::raw::Decoder::new().decompress_vec(data).ok()
}

/// Builds the outer message of a frame whose payload has been through the
/// decompressor where it needed to: folds the tick sentinel to 0 and clears the
/// compression flag. `None` stands for a payload that failed to decompress.
pub fn finish_outer_message(command: u32, tick: u32, payload: Option<Vec<u8>>) -> (r: Result<
    OuterMessage,
    HyperstoneError,
>)
    ensures
        match (r, message_from_payload(command, tick, match payload {
            Some(p) => Some(p@),
            None => None,
        })) {
            (Ok(m), Ok(v)) => m@ == v,
            (Err(e), Err(f)) => e == f,
            _ => false,
        },
{
    match payload {
        None => Err(HyperstoneError::DecompressionError),
        Some(data) => {
            let t = if tick == 0xFFFF_FFFFu32 { 0 } else { tick };
            Ok(OuterMessage::new(t, command & !IS_COMPRESSED_MASK, data))
        },
    }
}

/// Reads one outer message: command id, tick and payload size as varints, then
/// the payload, which is decompressed where the command id flags it.
pub fn take_outer_message(input: &[u8]) -> (r: Result<(&[u8], OuterMessage), HyperstoneError>)
    ensures
        match (r, outer_message_spec(input@)) {
            (Ok((rest, m)), Ok((v, rest_v))) => m@ == v && rest@ == rest_v,
            (Err(e), Err(f)) => e == f,
            _ => false,
        },
{
    let (input, message) = take_command(input)?;
    let (input, tick) = take_tick(input)?;
    let (input, size) = take_size(input)?;
    let (input, data) = take_data(input, size)?;
    let payload = if message & IS_COMPRESSED_MASK == IS_COMPRESSED_MASK {
        snappy_decompress(data)
    } else {
        Some(slice_to_vec(data))
    };
    let m = finish_outer_message(message, tick, payload)?;
    Ok((input, m))
}

} // verus!

verus! {

/// A varint that decodes leaves fewer bytes than it was read from.
pub proof fn lemma_varint_end_bounds(s: Seq<u8>, k: nat)
    ensures
        varint_end(s, k) matches Some(n) ==> k < n <= s.len(),
    decreases 5 - k,
{
    if k < s.len() && !(s[k as int] < 128 || k >= 4) {
        lemma_varint_end_bounds(s, k + 1);
    }
}

/// Reading an outer message consumes at least one byte.
pub proof fn lemma_outer_message_shrinks(s: Seq<u8>)
    ensures
        outer_message_spec(s) matches Ok((_, rest)) ==> rest.len() < s.len(),
{
    lemma_varint_end_bounds(s, 0);
    if let Some((_, r1)) = varint_spec(s) {
        lemma_varint_end_bounds(r1, 0);
        if let Some((_, r2)) = varint_spec(r1) {
            lemma_varint_end_bounds(r2, 0);
        }
    }
}

} // verus!

verus! {

/// The base-128 encoding of `v`: seven bits per byte, least significant group
/// first, the high bit set on every byte but the last.
pub open spec fn varint_encoding(v: nat) -> Seq<u8>
    decreases v,
{
    if v < 128 {
        seq![v as u8]
    } else {
        seq![(v % 128 + 128) as u8] + varint_encoding(v / 128)
    }
}

proof fn lemma_groups_value_cons(b: u8, t: Seq<u8>, n: nat)
    requires
        n <= t.len(),
    ensures
        groups_value(seq![b] + t, n + 1) == (b % 128) as nat + 128 * groups_value(t, n),
    decreases n,
{
    let s = seq![b] + t;
    if n > 0 {
        lemma_groups_value_cons(b, t, (n - 1) as nat);
        let g = groups_value(t, (n - 1) as nat);
        let d = (t[n - 1] % 128) as nat;
        let p = pow128((n - 1) as nat);
        assert(s[n as int] == t[n - 1]);
        assert(groups_value(s, n + 1) == groups_value(s, n) + d * pow128(n));
        assert(pow128(n) == 128 * p);
        assert(d * (128 * p) == 128 * (d * p)) by (nonlinear_arith);
        assert(128 * g + 128 * (d * p) == 128 * (g + d * p)) by (nonlinear_arith);
        assert(groups_value(t, n) == g + d * p);
    } else {
        assert(s[0] == b);
        assert(pow128(0) == 1);
        assert(groups_value(s, 1) == groups_value(s, 0) + (s[0] % 128) as nat * pow128(0));
    }
}

/// Every byte of an encoding but the last carries the continuation bit, and
/// the groups add up to the encoded value.
pub proof fn lemma_encoding_shape(v: nat, rest: Seq<u8>)
    ensures
        varint_encoding(v).len() >= 1,
        forall|j: int| 0 <= j < varint_encoding(v).len() - 1 ==> varint_encoding(v)[j] >= 128,
        varint_encoding(v)[varint_encoding(v).len() - 1] < 128,
        groups_value(varint_encoding(v) + rest, varint_encoding(v).len()) == v,
    decreases v,
{
    let e = varint_encoding(v);
    if v < 128 {
        assert((e + rest)[0] == v as u8);
        assert(pow128(0) == 1);
        assert(groups_value(e + rest, 1) == groups_value(e + rest, 0) + ((e + rest)[0] % 128) as nat * pow128(0));
    } else {
        let b = (v % 128 + 128) as u8;
        let t = varint_encoding(v / 128);
        lemma_encoding_shape(v / 128, rest);
        assert(e + rest =~= seq![b] + (t + rest));
        lemma_groups_value_cons(b, t + rest, t.len());
        assert(b % 128 == v % 128);
        assert(v == v % 128 + 128 * (v / 128)) by (nonlinear_arith);
        assert(e.len() == t.len() + 1);
        assert(groups_value(e + rest, e.len()) == (b % 128) as nat + 128 * groups_value(t + rest, t.len()));
        assert forall|j: int| 0 <= j < e.len() - 1 implies e[j] >= 128 by {
            if j > 0 {
                assert(e[j] == t[j - 1]);
            }
        }
        assert(e[e.len() - 1] == t[t.len() - 1]);
    }
}

proof fn lemma_encoding_len(v: nat, k: nat)
    requires
        1 <= k,
        v < pow128(k),
    ensures
        varint_encoding(v).len() <= k,
    decreases v,
{
    if v >= 128 {
        assert(k >= 2) by {
            if k < 2 {
                reveal_with_fuel(pow128, 2);
            }
        }
        let p = pow128((k - 1) as nat);
        assert(pow128(k) == 128 * p);
        assert(v / 128 < p) by (nonlinear_arith)
            requires v < 128 * p;
        lemma_encoding_len(v / 128, (k - 1) as nat);
    }
}

proof fn lemma_varint_end_at(s: Seq<u8>, k: nat, n: nat)
    requires
        k < n <= 5,
        n <= s.len(),
        forall|j: int| k <= j < n - 1 ==> s[j] >= 128,
        s[n - 1] < 128,
    ensures
        varint_end(s, k) == Some(n),
    decreases n - k,
{
    if k + 1 < n {
        lemma_varint_end_at(s, k + 1, n);
    }
}

/// Every 32-bit value, written as base-128 groups, decodes back to itself and
/// leaves the bytes after it untouched; it takes at most five bytes, and the
/// all-ones value takes exactly five.
pub proof fn lemma_varint_round_trip(v: u32, rest: Seq<u8>)
    ensures
        varint_spec(varint_encoding(v as nat) + rest) == Some((v, rest)),
        varint_encoding(v as nat).len() <= 5,
        v == 0xFFFF_FFFFu32 ==> varint_encoding(v as nat).len() == 5,
{
    let e = varint_encoding(v as nat);
    let s = e + rest;
    lemma_encoding_shape(v as nat, rest);
    assert(pow128(5) == 0x8_0000_0000) by {
        reveal_with_fuel(pow128, 6);
    }
    lemma_encoding_len(v as nat, 5);
    assert forall|j: int| 0 <= j < e.len() - 1 implies s[j] >= 128 by {
        assert(s[j] == e[j]);
    }
    assert(s[e.len() - 1] == e[e.len() - 1]);
    lemma_varint_end_at(s, 0, e.len());
    assert(s.skip(e.len() as int) =~= rest);
    if v == 0xFFFF_FFFFu32 {
        reveal_with_fuel(varint_encoding, 6);
    }
}

} // verus!

verus! {

/// The bytes of a frame: command id, tick and payload size as varints, then the payload.
pub open spec fn frame_encoding(f: RawFrame) -> Seq<u8> {
    varint_encoding(f.command as nat) + varint_encoding(f.tick as nat) + varint_encoding(f.data.len())
        + f.data
}

/// A written frame reads back as itself and leaves the bytes after it untouched.
pub proof fn lemma_frame_round_trip(f: RawFrame, rest: Seq<u8>)
    requires
        f.data.len() <= 0xFFFF_FFFF,
    ensures
        raw_frame_spec(frame_encoding(f) + rest) == Some((f, rest)),
{
    let size = f.data.len() as u32;
    let ec = varint_encoding(f.command as nat);
    let et = varint_encoding(f.tick as nat);
    let es = varint_encoding(size as nat);
    let r3 = f.data + rest;
    let r2 = es + r3;
    let r1 = et + r2;
    assert(frame_encoding(f) + rest =~= ec + r1);
    lemma_varint_round_trip(f.command, r1);
    lemma_varint_round_trip(f.tick, r2);
    lemma_varint_round_trip(size, r3);
    assert(r3.take(size as int) =~= f.data);
    assert(r3.skip(size as int) =~= rest);
}

/// A frame whose tick is the all-ones sentinel is read as a message at tick 0;
/// where its payload is stored plain, the message carries that payload.
pub proof fn lemma_frame_tick_sentinel(command: u32, data: Seq<u8>, rest: Seq<u8>)
    requires
        data.len() <= 0xFFFF_FFFF,
    ensures
        ({
            let f = RawFrame { command, tick: 0xFFFF_FFFFu32, data };
            &&& outer_message_spec(frame_encoding(f) + rest) matches Ok((m, _)) ==> m.tick == 0
            &&& !is_compressed(command) ==> outer_message_spec(frame_encoding(f) + rest) == Ok::<
                (OuterMessageView, Seq<u8>),
                HyperstoneError,
            >((OuterMessageView { tick: 0, message_type: message_type_spec(command), data }, rest))
        }),
{
    lemma_frame_round_trip(RawFrame { command, tick: 0xFFFF_FFFFu32, data }, rest);
}

/// A frame that stores `payload` plain and one of the same command and tick
/// that stores a block decompressing to `payload` read as the same message,
/// with the same bytes left after them.
pub proof fn lemma_frame_compression_transparent(
    command: u32,
    tick: u32,
    payload: Seq<u8>,
    block: Seq<u8>,
    rest: Seq<u8>,
)
    requires
        payload.len() <= 0xFFFF_FFFF,
        block.len() <= 0xFFFF_FFFF,
        snappy_decompressed(block) == Some(payload),
    ensures
        ({
            let plain = RawFrame { command: command & !IS_COMPRESSED_MASK, tick, data: payload };
            let packed = RawFrame { command: command | IS_COMPRESSED_MASK, tick, data: block };
            let m = OuterMessageView {
                tick: normalize_tick(tick),
                message_type: message_type_spec(command),
                data: payload,
            };
            &&& outer_message_spec(frame_encoding(plain) + rest) == Ok::<
                (OuterMessageView, Seq<u8>),
                HyperstoneError,
            >((m, rest))
            &&& outer_message_spec(frame_encoding(packed) + rest) == Ok::<
                (OuterMessageView, Seq<u8>),
                HyperstoneError,
            >((m, rest))
        }),
{
    let plain = RawFrame { command: command & !IS_COMPRESSED_MASK, tick, data: payload };
    let packed = RawFrame { command: command | IS_COMPRESSED_MASK, tick, data: block };
    lemma_frame_round_trip(plain, rest);
    lemma_frame_round_trip(packed, rest);
    assert((command & !64u32) & 64u32 != 64u32) by (bit_vector);
    assert((command | 64u32) & 64u32 == 64u32) by (bit_vector);
    assert((command | 64u32) & !64u32 == command & !64u32) by (bit_vector);
    assert((command & !64u32) & !64u32 == command & !64u32) by (bit_vector);
}

} // verus!

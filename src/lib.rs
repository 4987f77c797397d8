pub mod combinators;
pub mod demo_command;
pub mod demo_event;
pub mod errors;
pub mod outer_message;

pub use demo_command::{notifier_for_demo_cmd, DemoCommand, DemoMessageType, IS_COMPRESSED_MASK};
pub use demo_event::{dispatch, DemoEvent};
pub use errors::HyperstoneError;
pub use outer_message::OuterMessage;

use vstd::prelude::*;

use combinators::{
    frame_encoding, has_signature, is_compressed, lemma_encoding_shape, lemma_frame_compression_transparent,
    lemma_frame_round_trip, lemma_outer_message_shrinks, message_from_payload, message_type_spec,
    normalize_tick, outer_message_spec, payload_spec, raw_frame_spec, snappy_decompressed,
    source2_signature, RawFrame,
};
use demo_command::{command_of, message_type_of};
use demo_event::{dispatch_spec, events_view, DemoEventView};
use outer_message::OuterMessageView;

verus! {

/// Wrapper type around `Result` that specifically returns a [`HyperstoneError`].
pub type HyperstoneParseResult<T> = Result<T, HyperstoneError>;

/// A parsing session over one replay buffer.
pub struct Hyperstone {
    current_tick: u32,
    stop_at_tick: Option<u32>,
    is_stopping: bool,
}

/// The state of a session, as plain values.
pub struct HyperstoneView {
    pub current_tick: u32,
    pub stop_at_tick: Option<u32>,
    pub is_stopping: bool,
}

impl View for Hyperstone {
    type V = HyperstoneView;

    closed spec fn view(&self) -> HyperstoneView {
        HyperstoneView {
            current_tick: self.current_tick,
            stop_at_tick: self.stop_at_tick,
            is_stopping: self.is_stopping,
        }
    }
}

/// Whether a tick has reached the stop tick, if one is set.
pub open spec fn stop_reached(tick: u32, stop_at_tick: Option<u32>) -> bool {
    match stop_at_tick {
        Some(t) => tick >= t,
        None => false,
    }
}

/// How the frame loop ends on the frames in `rest`, starting from `tick`: the
/// outcome, the last tick reached and the notifications sent on the way.
pub open spec fn run_frames(rest: Seq<u8>, tick: u32, stop_at_tick: Option<u32>, is_stopping: bool) -> (
    Result<(), HyperstoneError>,
    u32,
    Seq<DemoEventView>,
)
    decreases rest.len(),
{
    if is_stopping || stop_reached(tick, stop_at_tick) || rest.len() == 0 {
        (Ok(()), tick, Seq::empty())
    } else {
        match outer_message_spec(rest) {
            Err(e) => (Err(e), tick, Seq::empty()),
            Ok((m, after)) => {
                if stop_reached(m.tick, stop_at_tick) {
                    (Ok(()), tick, Seq::empty())
                } else {
                    match dispatch_spec(m) {
                        Err(e) => (Err(e), tick, Seq::empty()),
                        Ok(ev) => {
                            proof {
                                lemma_outer_message_shrinks(rest);
                            }
                            let (r, t, evs) = run_frames(after, m.tick, stop_at_tick, is_stopping);
                            (r, t, seq![ev] + evs)
                        },
                    }
                }
            },
        }
    }
}

/// A whole parse of `input` by a session in state `s`: a buffer without the
/// signature is refused, one that ends inside the size header is truncated,
/// and otherwise the frame loop runs on what follows the header.
pub open spec fn parse_spec(s: HyperstoneView, input: Seq<u8>) -> (
    Result<(), HyperstoneError>,
    u32,
    Seq<DemoEventView>,
) {
    if !has_signature(input) {
        (Err(HyperstoneError::UnverifiableBuffer), s.current_tick, Seq::empty())
    } else if input.len() < 16 {
        (Err(HyperstoneError::UnknownOuterMessage), s.current_tick, Seq::empty())
    } else {
        run_frames(input.skip(16), s.current_tick, s.stop_at_tick, s.is_stopping)
    }
}

impl Hyperstone {
    /// A fresh session: tick 0, no stop tick, not stopping.
    pub fn new() -> (r: Hyperstone)
        ensures
            r@ == (HyperstoneView { current_tick: 0, stop_at_tick: None, is_stopping: false }),
    {
        Hyperstone { current_tick: 0, stop_at_tick: None, is_stopping: false }
    }

    /// Parses the replay buffer from the beginning, handing each dispatched
    /// message to `sink` in stream order. The loop ends cleanly at the end of
    /// the buffer, when the session is stopping, or at the stop tick; any
    /// malformed frame or unknown command ends it with an error.
    pub fn begin_parse(&mut self, input: &[u8], sink: &mut Vec<DemoEvent>) -> (r: HyperstoneParseResult<()>)
        ensures
            r == parse_spec(old(self)@, input@).0,
            final(self)@.current_tick == parse_spec(old(self)@, input@).1,
            events_view(final(sink)@) == events_view(old(sink)@) + parse_spec(old(self)@, input@).2,
            final(self)@.stop_at_tick == old(self)@.stop_at_tick,
            final(self)@.is_stopping == old(self)@.is_stopping,
    {
        let ghost total = parse_spec(self@, input@);
        let buf = match combinators::take_source2_signature(input) {
            Ok((inp, _)) => inp,
            Err(e) => return Err(e),
        };
        let (mut buf, _) = match combinators::take_replay_size_info(buf) {
            Ok(p) => p,
            Err(e) => return Err(e),
        };
        proof {
            assert(buf@ =~= input@.skip(16));
        }
        let ghost sent: Seq<DemoEventView> = Seq::empty();
        loop
            invariant
                total == parse_spec(old(self)@, input@),
                self.stop_at_tick == old(self).stop_at_tick,
                self.is_stopping == old(self).is_stopping,
                run_frames(buf@, self.current_tick, self.stop_at_tick, self.is_stopping).0 == total.0,
                run_frames(buf@, self.current_tick, self.stop_at_tick, self.is_stopping).1 == total.1,
                sent + run_frames(buf@, self.current_tick, self.stop_at_tick, self.is_stopping).2 == total.2,
                events_view(sink@) == events_view(old(sink)@) + sent,
            ensures
                run_frames(buf@, self.current_tick, self.stop_at_tick, self.is_stopping) == (
                    Ok::<(), HyperstoneError>(()),
                    self.current_tick,
                    Seq::<DemoEventView>::empty(),
                ),
            decreases buf@.len(),
        {
            if self.is_stopping {
                break;
            }
            if let Some(tick) = self.stop_at_tick {
                if self.current_tick >= tick {
                    break;
                }
            }
            if buf.len() == 0 {
                break;
            }
            proof {
                lemma_outer_message_shrinks(buf@);
            }
            let (remainder, message) = match combinators::take_outer_message(buf) {
                Ok(p) => p,
                Err(e) => return Err(e),
            };
            if let Some(tick) = self.stop_at_tick {
                if message.tick >= tick {
                    break;
                }
            }
            let tick = message.tick;
            let event = match dispatch(message) {
                Ok(ev) => ev,
                Err(e) => return Err(e),
            };
            let ghost prev = sink@;
            let ghost ev = event@;
            proof {
                sent = sent + seq![ev];
            }
            sink.push(event);
            proof {
                assert(events_view(sink@) =~= events_view(prev) + seq![ev]);
                assert(events_view(sink@) =~= events_view(old(sink)@) + sent);
            }
            self.current_tick = tick;
            buf = remainder;
        }
        proof {
            assert(sent =~= total.2);
        }
        Ok(())
    }

    /// Signals the parser to stop parsing any further.
    pub fn stop_parse(&mut self)
        ensures
            final(self)@ == (HyperstoneView { is_stopping: true, ..old(self)@ }),
    {
        self.is_stopping = true;
    }

    /// Signals the parser to stop parsing at a specific game tick.
    /// If `stop_tick` has already been crossed, the next parse stops at once.
    pub fn stop_parse_at_tick(&mut self, stop_tick: u32)
        ensures
            final(self)@ == (HyperstoneView { stop_at_tick: Some(stop_tick), ..old(self)@ }),
    {
        self.stop_at_tick = Some(stop_tick);
    }

    /// Returns the last game tick that the parser processed.
    pub fn current_tick(&self) -> (r: u32)
        ensures
            r == self@.current_tick,
    {
        self.current_tick
    }
}

/// A buffer that does not open with the signature fails with
/// `UnverifiableBuffer` before any frame is read: nothing is dispatched and the
/// tick stays where it was.
pub proof fn lemma_signature_gate(s: HyperstoneView, input: Seq<u8>)
    requires
        !has_signature(input),
    ensures
        parse_spec(s, input) == (
            Err::<(), HyperstoneError>(HyperstoneError::UnverifiableBuffer),
            s.current_tick,
            Seq::<DemoEventView>::empty(),
        ),
{
}

/// A frame whose tick is the all-ones sentinel becomes a message at tick 0.
pub proof fn lemma_tick_sentinel(input: Seq<u8>)
    requires
        raw_frame_spec(input) matches Some((f, _)) && f.tick == 0xFFFF_FFFFu32,
    ensures
        outer_message_spec(input) matches Ok((m, _)) ==> m.tick == 0,
{
}

/// With a stop tick set, every dispatched message has a tick below it.
pub proof fn lemma_stop_tick_bounds_events(rest: Seq<u8>, tick: u32, stop: u32, is_stopping: bool)
    ensures
        forall|i: int|
            0 <= i < run_frames(rest, tick, Some(stop), is_stopping).2.len()
                ==> run_frames(rest, tick, Some(stop), is_stopping).2[i].tick < stop,
    decreases rest.len(),
{
    if !(is_stopping || tick >= stop || rest.len() == 0) {
        if let Ok((m, after)) = outer_message_spec(rest) {
            if m.tick < stop {
                if let Ok(ev) = dispatch_spec(m) {
                    lemma_outer_message_shrinks(rest);
                    lemma_stop_tick_bounds_events(after, m.tick, stop, is_stopping);
                    let evs = run_frames(after, m.tick, Some(stop), is_stopping).2;
                    assert forall|i: int| 0 <= i < (seq![ev] + evs).len() implies (seq![ev]
                        + evs)[i].tick < stop by {
                        if i > 0 {
                            assert((seq![ev] + evs)[i] == evs[i - 1]);
                        }
                    }
                }
            }
        }
    }
}

/// A parse never dispatches a message whose tick has reached the stop tick;
/// and a session whose tick is already at or past the stop tick dispatches
/// nothing and keeps its tick.
pub proof fn lemma_stop_at_tick(s: HyperstoneView, input: Seq<u8>, stop: u32)
    requires
        s.stop_at_tick == Some(stop),
    ensures
        forall|i: int| 0 <= i < parse_spec(s, input).2.len() ==> parse_spec(s, input).2[i].tick < stop,
        s.current_tick >= stop && has_signature(input) && input.len() >= 16 ==> parse_spec(s, input) == (
            Ok::<(), HyperstoneError>(()),
            s.current_tick,
            Seq::<DemoEventView>::empty(),
        ),
{
    if has_signature(input) && input.len() >= 16 {
        lemma_stop_tick_bounds_events(input.skip(16), s.current_tick, stop, s.is_stopping);
    }
}

/// When the next frame names a command that the registry lacks, the loop ends
/// with `UnknownDemoCommand` at once: nothing of it is dispatched and no later
/// frame is read.
pub proof fn lemma_unknown_command(rest: Seq<u8>, tick: u32, stop_at_tick: Option<u32>, is_stopping: bool)
    requires
        !is_stopping,
        !stop_reached(tick, stop_at_tick),
        outer_message_spec(rest) matches Ok((m, _)) && command_of(m.message_type).is_none()
            && !stop_reached(m.tick, stop_at_tick),
    ensures
        run_frames(rest, tick, stop_at_tick, is_stopping) == (
            Err::<(), HyperstoneError>(HyperstoneError::UnknownDemoCommand),
            tick,
            Seq::<DemoEventView>::empty(),
        ),
{
}

/// A frame with the compression flag and a block that decompresses to
/// `payload` yields the same message as the frame of the same command and tick
/// that carries `payload` uncompressed: its payload is `payload` itself, so
/// both are dispatched alike.
pub proof fn lemma_compression_transparent(command: u32, tick: u32, payload: Seq<u8>, block: Seq<u8>)
    requires
        snappy_decompressed(block) == Some(payload),
    ensures
        ({
            let plain = RawFrame { command: command & !IS_COMPRESSED_MASK, tick, data: payload };
            let packed = RawFrame { command: command | IS_COMPRESSED_MASK, tick, data: block };
            &&& !is_compressed(plain.command)
            &&& is_compressed(packed.command)
            &&& message_from_payload(packed.command, tick, payload_spec(packed)) == Ok::<
                OuterMessageView,
                HyperstoneError,
            >(OuterMessageView { tick: normalize_tick(tick), message_type: command & !IS_COMPRESSED_MASK, data: payload })
            &&& message_from_payload(plain.command, tick, payload_spec(plain)) == message_from_payload(
                packed.command,
                tick,
                payload_spec(packed),
            )
        }),
{
    assert((command & !64u32) & 64u32 != 64u32) by (bit_vector);
    assert((command | 64u32) & 64u32 == 64u32) by (bit_vector);
    assert((command | 64u32) & !64u32 == command & !64u32) by (bit_vector);
    assert((command & !64u32) & !64u32 == command & !64u32) by (bit_vector);
}

/// The bytes of a sequence of frames, one after the other.
pub open spec fn frames_encoding(fs: Seq<RawFrame>) -> Seq<u8>
    decreases fs.len(),
{
    if fs.len() == 0 {
        Seq::empty()
    } else {
        frame_encoding(fs[0]) + frames_encoding(fs.drop_first())
    }
}

/// Whether a frame can be written with a 32-bit size varint.
pub open spec fn frame_fits(f: RawFrame) -> bool {
    f.data.len() <= 0xFFFF_FFFF
}

/// Whether a frame is read and dispatched without error: it fits, its payload
/// decompresses where flagged, and the registry knows its command.
pub open spec fn frame_dispatchable(f: RawFrame) -> bool {
    &&& frame_fits(f)
    &&& payload_spec(f) is Some
    &&& command_of(message_type_spec(f.command)) is Some
}

/// The notification that a dispatchable frame produces.
pub open spec fn frame_event(f: RawFrame) -> DemoEventView {
    let c = command_of(message_type_spec(f.command))->Some_0;
    DemoEventView {
        tick: normalize_tick(f.tick),
        command: c,
        message: message_type_of(c),
        data: payload_spec(f)->Some_0,
    }
}

/// The tick that a run starting at `tick` reaches after dispatching `fs`.
pub open spec fn last_tick(fs: Seq<RawFrame>, tick: u32) -> u32 {
    if fs.len() == 0 {
        tick
    } else {
        normalize_tick(fs.last().tick)
    }
}

proof fn lemma_frame_nonempty(f: RawFrame)
    ensures
        frame_encoding(f).len() > 0,
{
    lemma_encoding_shape(f.command as nat, Seq::empty());
}

/// Without a stop tick or a stop request, a run of dispatchable frames sends
/// one notification per frame, in order, and the loop goes on after them from
/// the last frame's tick.
pub proof fn lemma_run_dispatchable_frames(fs: Seq<RawFrame>, tail: Seq<u8>, tick: u32)
    requires
        forall|i: int| 0 <= i < fs.len() ==> frame_dispatchable(#[trigger] fs[i]),
    ensures
        ({
            let after = run_frames(tail, last_tick(fs, tick), None, false);
            run_frames(frames_encoding(fs) + tail, tick, None, false) == (
                after.0,
                after.1,
                fs.map_values(|f: RawFrame| frame_event(f)) + after.2,
            )
        }),
    decreases fs.len(),
{
    if fs.len() == 0 {
        assert(frames_encoding(fs) + tail =~= tail);
        assert(fs.map_values(|f: RawFrame| frame_event(f)) + run_frames(tail, tick, None, false).2
            =~= run_frames(tail, tick, None, false).2);
    } else {
        let f0 = fs[0];
        let more = fs.drop_first();
        let r = frames_encoding(more) + tail;
        let s = frames_encoding(fs) + tail;
        assert(s =~= frame_encoding(f0) + r);
        assert(frame_dispatchable(f0));
        lemma_frame_round_trip(f0, r);
        lemma_frame_nonempty(f0);
        assert forall|i: int| 0 <= i < more.len() implies frame_dispatchable(#[trigger] more[i]) by {
            assert(more[i] == fs[i + 1]);
        }
        let t0 = normalize_tick(f0.tick);
        lemma_run_dispatchable_frames(more, tail, t0);
        assert(last_tick(more, t0) == last_tick(fs, tick)) by {
            if more.len() > 0 {
                assert(more.last() == fs.last());
            }
        }
        let after = run_frames(tail, last_tick(fs, tick), None, false);
        assert(seq![frame_event(f0)] + (more.map_values(|f: RawFrame| frame_event(f)) + after.2)
            =~= fs.map_values(|f: RawFrame| frame_event(f)) + after.2);
    }
}

/// A buffer made of the signature, an eight-byte header and `body` runs the
/// frame loop on `body`.
pub proof fn lemma_parse_after_header(s: HyperstoneView, header: Seq<u8>, body: Seq<u8>)
    requires
        header.len() == 8,
    ensures
        parse_spec(s, source2_signature() + header + body) == run_frames(
            body,
            s.current_tick,
            s.stop_at_tick,
            s.is_stopping,
        ),
{
    let input = source2_signature() + header + body;
    assert(input.take(8) =~= source2_signature());
    assert(input.skip(16) =~= body);
}

/// A parse that meets a frame with an unregistered command after frames that
/// all dispatch ends with `UnknownDemoCommand`: those frames are notified in
/// order, the tick is the last of theirs, and nothing after the unknown frame
/// is read.
pub proof fn lemma_unknown_command_ends_parse(
    s: HyperstoneView,
    header: Seq<u8>,
    fs: Seq<RawFrame>,
    g: RawFrame,
    rest: Seq<u8>,
)
    requires
        header.len() == 8,
        !s.is_stopping,
        s.stop_at_tick is None,
        forall|i: int| 0 <= i < fs.len() ==> frame_dispatchable(#[trigger] fs[i]),
        frame_fits(g),
        payload_spec(g) is Some,
        command_of(message_type_spec(g.command)) is None,
    ensures
        parse_spec(s, source2_signature() + header + (frames_encoding(fs) + (frame_encoding(g) + rest))) == (
            Err::<(), HyperstoneError>(HyperstoneError::UnknownDemoCommand),
            last_tick(fs, s.current_tick),
            fs.map_values(|f: RawFrame| frame_event(f)),
        ),
{
    let tail = frame_encoding(g) + rest;
    lemma_parse_after_header(s, header, frames_encoding(fs) + tail);
    lemma_run_dispatchable_frames(fs, tail, s.current_tick);
    lemma_frame_round_trip(g, rest);
    lemma_frame_nonempty(g);
    let evs = fs.map_values(|f: RawFrame| frame_event(f));
    assert(evs + Seq::<DemoEventView>::empty() =~= evs);
}

proof fn lemma_run_frames_swap(
    before: Seq<RawFrame>,
    x1: Seq<u8>,
    x2: Seq<u8>,
    tick: u32,
    stop_at_tick: Option<u32>,
    is_stopping: bool,
)
    requires
        forall|i: int| 0 <= i < before.len() ==> frame_fits(#[trigger] before[i]),
        x1.len() > 0,
        x2.len() > 0,
        outer_message_spec(x1) == outer_message_spec(x2),
    ensures
        run_frames(frames_encoding(before) + x1, tick, stop_at_tick, is_stopping) == run_frames(
            frames_encoding(before) + x2,
            tick,
            stop_at_tick,
            is_stopping,
        ),
    decreases before.len(),
{
    if before.len() == 0 {
        assert(frames_encoding(before) + x1 =~= x1);
        assert(frames_encoding(before) + x2 =~= x2);
    } else {
        let b0 = before[0];
        let more = before.drop_first();
        let r1 = frames_encoding(more) + x1;
        let r2 = frames_encoding(more) + x2;
        assert(frames_encoding(before) + x1 =~= frame_encoding(b0) + r1);
        assert(frames_encoding(before) + x2 =~= frame_encoding(b0) + r2);
        assert(frame_fits(b0));
        lemma_frame_round_trip(b0, r1);
        lemma_frame_round_trip(b0, r2);
        lemma_frame_nonempty(b0);
        assert forall|i: int| 0 <= i < more.len() implies frame_fits(#[trigger] more[i]) by {
            assert(more[i] == before[i + 1]);
        }
        if let Ok((m, _)) = outer_message_spec(frame_encoding(b0) + r1) {
            lemma_run_frames_swap(more, x1, x2, m.tick, stop_at_tick, is_stopping);
        }
    }
}

/// Storing one frame's payload as a Snappy block that decompresses to it,
/// with the compression flag set, changes nothing in a parse: the outcome,
/// the notifications and the final tick are those of the plain frame,
/// whatever frames stand before it and whatever follows.
pub proof fn lemma_compressed_frame_swap(
    s: HyperstoneView,
    header: Seq<u8>,
    before: Seq<RawFrame>,
    command: u32,
    tick: u32,
    payload: Seq<u8>,
    block: Seq<u8>,
    after: Seq<u8>,
)
    requires
        header.len() == 8,
        forall|i: int| 0 <= i < before.len() ==> frame_fits(#[trigger] before[i]),
        payload.len() <= 0xFFFF_FFFF,
        block.len() <= 0xFFFF_FFFF,
        snappy_decompressed(block) == Some(payload),
    ensures
        ({
            let plain = RawFrame { command: command & !IS_COMPRESSED_MASK, tick, data: payload };
            let packed = RawFrame { command: command | IS_COMPRESSED_MASK, tick, data: block };
            parse_spec(s, source2_signature() + header + (frames_encoding(before) + (frame_encoding(plain) + after)))
                == parse_spec(
                s,
                source2_signature() + header + (frames_encoding(before) + (frame_encoding(packed) + after)),
            )
        }),
{
    let plain = RawFrame { command: command & !IS_COMPRESSED_MASK, tick, data: payload };
    let packed = RawFrame { command: command | IS_COMPRESSED_MASK, tick, data: block };
    let x1 = frame_encoding(plain) + after;
    let x2 = frame_encoding(packed) + after;
    lemma_parse_after_header(s, header, frames_encoding(before) + x1);
    lemma_parse_after_header(s, header, frames_encoding(before) + x2);
    lemma_frame_compression_transparent(command, tick, payload, block, after);
    lemma_frame_nonempty(plain);
    lemma_frame_nonempty(packed);
    lemma_run_frames_swap(before, x1, x2, s.current_tick, s.stop_at_tick, s.is_stopping);
}

/// A fresh session on the signature, a header, a plain file-header frame at
/// tick 100 and the same payload compressed in a second such frame at tick 200
/// finishes cleanly at tick 200 with two notifications that carry that payload.
pub proof fn lemma_two_frame_replay(header: Seq<u8>, payload: Seq<u8>, block: Seq<u8>)
    requires
        header.len() == 8,
        payload.len() <= 0xFFFF_FFFF,
        block.len() <= 0xFFFF_FFFF,
        snappy_decompressed(block) == Some(payload),
    ensures
        ({
            let s = HyperstoneView { current_tick: 0, stop_at_tick: None, is_stopping: false };
            let f1 = RawFrame { command: 1, tick: 100, data: payload };
            let f2 = RawFrame { command: 1 | IS_COMPRESSED_MASK, tick: 200, data: block };
            let ev = |t: u32|
                DemoEventView {
                    tick: t,
                    command: DemoCommand::FileHeader,
                    message: DemoMessageType::FileHeader,
                    data: payload,
                };
            parse_spec(s, source2_signature() + header + (frame_encoding(f1) + frame_encoding(f2))) == (
                Ok::<(), HyperstoneError>(()),
                200u32,
                seq![ev(100), ev(200)],
            )
        }),
{
    let s = HyperstoneView { current_tick: 0, stop_at_tick: None, is_stopping: false };
    let f1 = RawFrame { command: 1, tick: 100, data: payload };
    let f2 = RawFrame { command: 1 | IS_COMPRESSED_MASK, tick: 200, data: block };
    let fs = seq![f1, f2];
    assert(1u32 & 64u32 != 64u32) by (bit_vector);
    assert(1u32 & !64u32 == 1u32) by (bit_vector);
    assert((1u32 | 64u32) & 64u32 == 64u32) by (bit_vector);
    assert((1u32 | 64u32) & !64u32 == 1u32) by (bit_vector);
    assert(frame_dispatchable(fs[0]));
    assert(frame_dispatchable(fs[1]));
    assert(frames_encoding(fs) =~= frame_encoding(f1) + frame_encoding(f2)) by {
        reveal_with_fuel(frames_encoding, 3);
        assert(fs.drop_first() =~= seq![f2]);
        assert(fs.drop_first().drop_first() =~= Seq::<RawFrame>::empty());
    }
    let body = frames_encoding(fs) + Seq::<u8>::empty();
    assert(body =~= frame_encoding(f1) + frame_encoding(f2));
    lemma_parse_after_header(s, header, body);
    lemma_run_dispatchable_frames(fs, Seq::empty(), 0);
    let ev = |t: u32|
        DemoEventView { tick: t, command: DemoCommand::FileHeader, message: DemoMessageType::FileHeader, data: payload };
    assert(fs.map_values(|f: RawFrame| frame_event(f)) + Seq::<DemoEventView>::empty() =~= seq![ev(100), ev(200)]);
}

} // verus!

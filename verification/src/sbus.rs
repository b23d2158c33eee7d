//! SBUS decoder: a streaming, byte-oriented state machine that reassembles
//! 25-byte frames from an unreliable UART byte stream and extracts sixteen
//! 11-bit channel values plus two digital channels from each frame.
//!
//! Wire layout of one frame: a `0x0F` header, 22 payload bytes holding the
//! channels packed little-endian and bit-contiguous, one digital/flags byte,
//! and a `0x00` footer.
use vstd::prelude::*;

use crate::chan::{byte_contents, dequeue_byte, enqueue_message, msg_capacity, msg_contents};

verus! {

pub const HEADER_BYTE: u8 = 0x0f;
pub const FOOTER_BYTE: u8 = 0x00;
pub const CHANNEL_AMOUNT: usize = 16;
pub const CHANNEL_BYTE_COUNT: usize = 22;
/// Channel bytes plus the digital/flags byte: what the decoder buffers
/// between the header and the footer.
pub const BUF_CAPACITY: usize = 23;

/// One decoded SBUS frame: sixteen 11-bit proportional channels and two
/// digital (boolean) channels.
#[derive(Clone, Copy, Debug, PartialEq, Eq)]
pub struct SbusFrame {
    pub channels: [u16; CHANNEL_AMOUNT],
    pub digital_channels: [bool; 2],
}

impl Default for SbusFrame {
    /// All channels zero, digital channels off.
    fn default() -> (frame: Self)
        ensures
            forall|i: int| 0 <= i < CHANNEL_AMOUNT ==> #[trigger] frame.channels@[i] == 0,
            forall|i: int| 0 <= i < 2 ==> #[trigger] frame.digital_channels@[i] == false,
    {
        SbusFrame { channels: [0; CHANNEL_AMOUNT], digital_channels: [false; 2] }
    }
}

/// A well-formed frame whose flags byte had the failsafe bit set. The frame
/// is preserved so the consumer, not the decoder, decides what to do with it.
#[derive(Clone, Copy, Debug)]
pub struct Failsafe {
    pub frame: SbusFrame,
}

/// A protocol-level fault the decoder recovers from by itself; surfaced to
/// the consumer over the frame output channel.
#[derive(Clone, Copy, Debug, PartialEq, Eq)]
pub enum Error {
    /// The byte after a complete frame was not the footer.
    MissingFooter,
    /// A well-formed frame arrived with the failsafe flag set.
    Failsafe(SbusFrame),
    /// A byte arrived where a header was expected but was not `0x0F`.
    MissingHeader,
    /// The UART reported a transport error for one byte; its code is passed
    /// through unchanged.
    ByteReadError(u8),
}

/// A fault the decoder cannot get past on its own: the caller must intervene
/// and call `process` again. The decoder parks itself in `Recover` first.
#[derive(Clone, Copy, Debug, PartialEq, Eq)]
pub enum FatalError {
    /// The frame output channel could not accept the pending message; the
    /// message is handed back so nothing is silently dropped.
    FrameChannelFull(Result<SbusFrame, Error>),
    /// The payload buffer would overflow. The state machine never attempts
    /// this; see `SbusDecoder::process`, which rules it out.
    BufferFull(u8),
}

/// Fixed-capacity buffer for the payload bytes of the frame being
/// reassembled: an array plus a fill level, never a growable container.
#[derive(Clone, Copy, Debug)]
pub struct ChannelBuf {
    bytes: [u8; BUF_CAPACITY],
    len: usize,
}

impl View for ChannelBuf {
    type V = Seq<u8>;

    closed spec fn view(&self) -> Seq<u8> {
        self.bytes@.take(self.len as int)
    }
}

impl ChannelBuf {
    #[verifier::type_invariant]
    spec fn inv(self) -> bool {
        self.len <= BUF_CAPACITY
    }

    /// An empty buffer.
    pub fn new() -> (buf: ChannelBuf)
        ensures
            buf@ == Seq::<u8>::empty(),
    {
        let buf = ChannelBuf { bytes: [0; BUF_CAPACITY], len: 0 };
        proof {
            assert(buf@ =~= Seq::<u8>::empty());
        }
        buf
    }

    pub fn len(&self) -> (n: usize)
        ensures
            n == self@.len(),
    {
        proof {
            use_type_invariant(&*self);
        }
        self.len
    }

    /// Append one byte; the buffer must not be full.
    pub fn push(&mut self, byte: u8)
        requires
            old(self)@.len() < BUF_CAPACITY,
        ensures
            final(self)@ == old(self)@.push(byte),
    {
        proof {
            use_type_invariant(&*self);
        }
        let ghost prev = self@;
        self.bytes[self.len] = byte;
        self.len = self.len + 1;
        proof {
            assert(self@ =~= prev.push(byte));
        }
    }

    pub fn get(&self, i: usize) -> (byte: u8)
        requires
            i < self@.len(),
        ensures
            byte == self@[i as int],
    {
        proof {
            use_type_invariant(&*self);
        }
        self.bytes[i]
    }
}

/// Where the decoder stands in the 25-byte frame layout.
#[derive(Clone, Copy, Debug)]
pub enum DecoderState {
    /// Expecting the `0x0F` header of the next frame.
    WaitForHeader,
    /// Collecting the payload and flags bytes received so far.
    Channel(ChannelBuf),
    /// All 23 buffered bytes are decoded; expecting the `0x00` footer before
    /// releasing the pending frame or failsafe.
    WaitForFooter(Result<SbusFrame, Failsafe>),
    /// Discarding bytes after a fault until a `0x00` synchronization
    /// boundary; only then can the next `0x0F` be trusted as a header.
    Recover,
}

/// Bit `j` of byte `b`, least significant first.
pub open spec fn byte_bit(b: u8, j: int) -> bool {
    ((b as u32) >> (j as u32)) & 1 == 1
}

/// Bit `i` of a byte sequence read as a little-endian bitstream.
pub open spec fn payload_bit(p: Seq<u8>, i: int) -> bool {
    byte_bit(p[i / 8], i % 8)
}

/// Bit `j` of a channel value, least significant first.
pub open spec fn channel_bit(v: u16, j: int) -> bool {
    ((v as u32) >> (j as u32)) & 1 == 1
}

/// `v` is channel `k` of payload `p`: an 11-bit value whose bit `j` is bit
/// `11 * k + j` of the payload bitstream.
pub open spec fn channel_ok(p: Seq<u8>, v: u16, k: int) -> bool {
    &&& v < 2048
    &&& forall|j: int| 0 <= j < 11 ==> #[trigger] channel_bit(v, j) == payload_bit(p, 11 * k + j)
}

/// Every proportional channel of `f` holds the bits that `p` packs for it.
pub open spec fn channels_match(p: Seq<u8>, f: SbusFrame) -> bool {
    forall|k: int| 0 <= k < CHANNEL_AMOUNT ==> channel_ok(p, #[trigger] f.channels@[k], k)
}

/// The digital channels of `f` are bits 0 and 1 of the flags byte `d`.
pub open spec fn digital_match(d: u8, f: SbusFrame) -> bool {
    &&& f.digital_channels@[0] == (d & 0x01 != 0)
    &&& f.digital_channels@[1] == (d & 0x02 != 0)
}

/// Bit 2 of the flags byte: the receiver is in failsafe.
pub open spec fn failsafe_flag(d: u8) -> bool {
    d & 0x04 != 0
}

/// `f` is the frame decoded from the 23 buffered bytes `p` (22 payload bytes
/// and the flags byte `p[22]`).
pub open spec fn frame_ok(p: Seq<u8>, f: SbusFrame) -> bool {
    &&& channels_match(p, f)
    &&& digital_match(p[22], f)
}

/// `r` is the decode of the 23 buffered bytes `p`: the frame itself, wrapped
/// as a failsafe exactly when the failsafe flag is set.
pub open spec fn decode_matches(p: Seq<u8>, r: Result<SbusFrame, Failsafe>) -> bool {
    match r {
        Ok(f) => !failsafe_flag(p[22]) && frame_ok(p, f),
        Err(fs) => failsafe_flag(p[22]) && frame_ok(p, fs.frame),
    }
}

/// Extract the sixteen 11-bit channels and the digital channels from the 23
/// buffered bytes; a set failsafe flag wraps the frame as `Err(Failsafe)`.
fn decode_sbus(bytes: ChannelBuf) -> (r: Result<SbusFrame, Failsafe>)
    requires
        bytes@.len() == BUF_CAPACITY,
    ensures
        decode_matches(bytes@, r),
{
    let mut message = SbusFrame::default();
    let mut channel: usize = 0;
    while channel < CHANNEL_AMOUNT
        invariant
            bytes@.len() == BUF_CAPACITY,
            channel <= CHANNEL_AMOUNT,
            forall|k: int| 0 <= k < channel ==> channel_ok(bytes@, #[trigger] message.channels@[k], k),
            forall|i: int| 0 <= i < 2 ==> #[trigger] message.digital_channels@[i] == false,
        decreases CHANNEL_AMOUNT - channel,
    {
        let offset: usize = 11 * channel;
        let shift: u32 = (offset % 8) as u32;
        let first_byte_index: usize = offset / 8;
        assert(offset == 11 * (channel as int) && offset <= 165) by (nonlinear_arith)
            requires
                offset == 11 * channel,
                channel < 16,
        ;
        let b0 = bytes.get(first_byte_index);
        let b1 = bytes.get(first_byte_index + 1);
        let b2 = bytes.get(first_byte_index + 2);
        let window: u32 = (b0 as u32) | ((b1 as u32) << 8u32) | ((b2 as u32) << 16u32);
        let value: u16 = ((window >> shift) & 0x7ff) as u16;
        proof {
            lemma_window_extract(bytes@, first_byte_index as int, shift as int, window, value);
            assert(8 * (first_byte_index as int) + shift == 11 * (channel as int))
                by (nonlinear_arith)
                requires
                    first_byte_index == offset / 8,
                    shift == offset % 8,
                    offset == 11 * (channel as int),

            ;
            assert forall|j: int| 0 <= j < 11 implies #[trigger] channel_bit(value, j)
                == payload_bit(bytes@, 11 * (channel as int) + j) by {
                assert(channel_bit(value, j) == payload_bit(
                    bytes@,
                    8 * (first_byte_index as int) + shift + j,
                ));
            }
        }
        message.channels[channel] = value;
        channel = channel + 1;
    }
    let digital_byte = bytes.get(CHANNEL_BYTE_COUNT);
    message.digital_channels[0] = digital_byte & 0x01 != 0;
    message.digital_channels[1] = digital_byte & 0x02 != 0;
    if digital_byte & 0x04 != 0 {
        Err(Failsafe { frame: message })
    } else {
        Ok(message)
    }
}

/// Abstract decoder state: the concrete `DecoderState` with the pending
/// frame replaced by the raw bytes it was decoded from.
pub enum StateModel {
    WaitHeader,
    /// The payload and flags bytes collected so far, at most 22 of them.
    Collect(Seq<u8>),
    /// All 23 buffered bytes; their decode is released on the footer.
    AwaitFooter(Seq<u8>),
    Recover,
}

/// What one emission over the frame output channel stands for.
pub enum EmitModel {
    /// The decode of 23 buffered bytes: a frame, or a failsafe-wrapped frame
    /// when the failsafe flag of the 23rd byte is set.
    Decoded(Seq<u8>),
    MissingHeader,
    MissingFooter,
    /// A transport error code passed through from the byte channel.
    ByteRead(u8),
}

/// The concrete message that stands for a model emission.
pub open spec fn msg_matches(m: Result<SbusFrame, Error>, e: EmitModel) -> bool {
    match e {
        EmitModel::Decoded(p) => {
            if failsafe_flag(p[22]) {
                m matches Err(Error::Failsafe(f)) && frame_ok(p, f)
            } else {
                m matches Ok(f) && frame_ok(p, f)
            }
        },
        EmitModel::MissingHeader => m == Err::<SbusFrame, Error>(Error::MissingHeader),
        EmitModel::MissingFooter => m == Err::<SbusFrame, Error>(Error::MissingFooter),
        EmitModel::ByteRead(code) => m == Err::<SbusFrame, Error>(Error::ByteReadError(code)),
    }
}

/// The concrete decoder state that stands for a model state.
pub open spec fn state_matches(s: DecoderState, m: StateModel) -> bool {
    match m {
        StateModel::WaitHeader => s is WaitForHeader,
        StateModel::Collect(bs) => s matches DecoderState::Channel(buf) && buf@ == bs && bs.len()
            <= CHANNEL_BYTE_COUNT,
        StateModel::AwaitFooter(p) => s matches DecoderState::WaitForFooter(pending) && p.len()
            == BUF_CAPACITY && decode_matches(p, pending),
        StateModel::Recover => s is Recover,
    }
}

/// The message released on a footer for a pending decode result.
pub open spec fn release_message(pending: Result<SbusFrame, Failsafe>) -> Result<SbusFrame, Error> {
    match pending {
        Ok(f) => Ok(f),
        Err(fs) => Err(Error::Failsafe(fs.frame)),
    }
}

/// One step of the protocol state machine on a successfully read byte: the
/// next state, and the emission the step releases, if any.
pub open spec fn spec_step(s: StateModel, byte: u8) -> (StateModel, Option<EmitModel>) {
    match s {
        StateModel::WaitHeader => {
            if byte == HEADER_BYTE {
                (StateModel::Collect(Seq::empty()), None)
            } else {
                (StateModel::Recover, Some(EmitModel::MissingHeader))
            }
        },
        StateModel::Collect(bs) => {
            if bs.len() < CHANNEL_BYTE_COUNT {
                (StateModel::Collect(bs.push(byte)), None)
            } else {
                (StateModel::AwaitFooter(bs.push(byte)), None)
            }
        },
        StateModel::AwaitFooter(p) => {
            if byte == FOOTER_BYTE {
                (StateModel::WaitHeader, Some(EmitModel::Decoded(p)))
            } else {
                (StateModel::Recover, Some(EmitModel::MissingFooter))
            }
        },
        StateModel::Recover => {
            if byte == FOOTER_BYTE {
                (StateModel::WaitHeader, None)
            } else {
                (StateModel::Recover, None)
            }
        },
    }
}

/// One step on an item read from the byte channel: a transport error sends
/// the decoder into recovery and is surfaced as an emission, whatever the
/// state was.
pub open spec fn spec_input_step(s: StateModel, item: Result<u8, u8>) -> (
    StateModel,
    Option<EmitModel>,
) {
    match item {
        Ok(byte) => spec_step(s, byte),
        Err(code) => (StateModel::Recover, Some(EmitModel::ByteRead(code))),
    }
}

/// What draining the byte channel does: the final state, the emissions in
/// order, whether a full output channel stopped the drain (and with which
/// pending emission), and the input items left unconsumed in that case.
pub struct DrainResult {
    pub state: StateModel,
    pub emitted: Seq<EmitModel>,
    pub fatal: Option<EmitModel>,
    pub remaining: Seq<Result<u8, u8>>,
}

/// Drain `input` starting in `s` with `space` free slots in the output
/// channel. Consumes input in order; an emission with no space left parks the
/// decoder in recovery and stops, leaving the rest of the input unread.
pub open spec fn spec_drain(s: StateModel, input: Seq<Result<u8, u8>>, space: nat) -> DrainResult
    decreases input.len(),
{
    if input.len() == 0 {
        DrainResult { state: s, emitted: Seq::empty(), fatal: None, remaining: Seq::empty() }
    } else {
        let (s1, emit) = spec_input_step(s, input[0]);
        match emit {
            None => spec_drain(s1, input.drop_first(), space),
            Some(e) => {
                if space == 0 {
                    DrainResult {
                        state: StateModel::Recover,
                        emitted: Seq::empty(),
                        fatal: Some(e),
                        remaining: input.drop_first(),
                    }
                } else {
                    let d = spec_drain(s1, input.drop_first(), (space - 1) as nat);
                    DrainResult {
                        state: d.state,
                        emitted: seq![e] + d.emitted,
                        fatal: d.fatal,
                        remaining: d.remaining,
                    }
                }
            },
        }
    }
}

/// An 11-bit field cut out of a 24-bit window of three consecutive payload
/// bytes carries exactly the payload bits starting `shift` into the window.
proof fn lemma_window_extract(p: Seq<u8>, i0: int, shift: int, window: u32, value: u16)
    requires
        p.len() == BUF_CAPACITY,
        0 <= i0,
        i0 + 2 < BUF_CAPACITY,
        0 <= shift < 8,
        window == (p[i0] as u32) | ((p[i0 + 1] as u32) << 8u32) | ((p[i0 + 2] as u32) << 16u32),
        value == ((window >> (shift as u32)) & 0x7ff) as u16,
    ensures
        value < 2048,
        forall|j: int|
            0 <= j < 11 ==> #[trigger] channel_bit(value, j) == payload_bit(p, 8 * i0 + shift + j),
{
    let b0 = p[i0];
    let b1 = p[i0 + 1];
    let b2 = p[i0 + 2];
    let s = shift as u32;
    assert((((window >> s) & 0x7ff) as u16) < 2048 && (((window >> s) & 0x7ff) as u16 as u32) == (
    window >> s) & 0x7ff) by (bit_vector);
    assert forall|j: int| 0 <= j < 11 implies #[trigger] channel_bit(value, j) == payload_bit(
        p,
        8 * i0 + shift + j,
    ) by {
        let ju = j as u32;
        let t = shift + j;
        let tu = t as u32;
        assert((((window >> s) & 0x7ff) >> ju) & 1 == (window >> (s + ju)) & 1) by (bit_vector)
            requires
                s < 8,
                ju < 11,
        ;
        assert((8 * i0 + t) / 8 == i0 + t / 8 && (8 * i0 + t) % 8 == t % 8) by (nonlinear_arith)
            requires
                0 <= i0,
                0 <= t,
        ;
        if t < 8 {
            assert((window >> tu) & 1 == ((b0 as u32) >> tu) & 1) by (bit_vector)
                requires
                    tu < 8,
                    window == (b0 as u32) | ((b1 as u32) << 8u32) | ((b2 as u32) << 16u32),
            ;
            assert(t / 8 == 0 && t % 8 == t);
        } else if t < 16 {
            let ru = (t - 8) as u32;
            assert((window >> tu) & 1 == ((b1 as u32) >> ru) & 1) by (bit_vector)
                requires
                    8 <= tu < 16,
                    ru == tu - 8,
                    window == (b0 as u32) | ((b1 as u32) << 8u32) | ((b2 as u32) << 16u32),
            ;
            assert(t / 8 == 1 && t % 8 == t - 8);
        } else {
            let ru = (t - 16) as u32;
            assert((window >> tu) & 1 == ((b2 as u32) >> ru) & 1) by (bit_vector)
                requires
                    16 <= tu < 19,
                    ru == tu - 16,
                    window == (b0 as u32) | ((b1 as u32) << 8u32) | ((b2 as u32) << 16u32),
            ;
            assert(t / 8 == 2 && t % 8 == t - 16);
        }
    }
}

/// Extending the output channel by one message that stands for one more
/// emission keeps the already-sent prefix and the per-emission match.
proof fn lemma_emit_glue(
    msgs: Seq<Result<SbusFrame, Error>>,
    out0: Seq<Result<SbusFrame, Error>>,
    eacc: Seq<EmitModel>,
    msg: Result<SbusFrame, Error>,
    e: EmitModel,
)
    requires
        msgs.len() == out0.len() + eacc.len(),
        msgs.take(out0.len() as int) == out0,
        forall|i: int|
            0 <= i < eacc.len() ==> msg_matches(msgs[out0.len() + i], #[trigger] eacc[i]),
        msg_matches(msg, e),
    ensures
        msgs.push(msg).len() == out0.len() + (eacc + seq![e]).len(),
        msgs.push(msg).take(out0.len() as int) == out0,
        forall|i: int|
            0 <= i < (eacc + seq![e]).len() ==> msg_matches(
                msgs.push(msg)[out0.len() + i],
                #[trigger] (eacc + seq![e])[i],
            ),
{
    assert(msgs.push(msg).take(out0.len() as int) =~= msgs.take(out0.len() as int));
    assert forall|i: int| 0 <= i < (eacc + seq![e]).len() implies msg_matches(
        msgs.push(msg)[out0.len() + i],
        #[trigger] (eacc + seq![e])[i],
    ) by {
        if i < eacc.len() {
            assert(msgs.push(msg)[out0.len() + i] == msgs[out0.len() + i]);
            assert((eacc + seq![e])[i] == eacc[i]);
        } else {
            assert(msgs.push(msg)[out0.len() + i] == msg);
            assert((eacc + seq![e])[i] == e);
        }
    }
}

/// The streaming SBUS decoder. It owns the consumer end of the byte input
/// channel and the producer end of the frame output channel, and reassembles
/// frames byte by byte; a ghost model mirrors the concrete state for the
/// contracts.
pub struct SbusDecoder {
    byte_rx: heapless::spsc::Consumer<'static, Result<u8, u8>>,
    result_tx: heapless::spsc::Producer<'static, Result<SbusFrame, Error>>,
    state: DecoderState,
    model: Ghost<StateModel>,
}

impl SbusDecoder {
    /// The abstract protocol state this decoder is in.
    pub closed spec fn model(self) -> StateModel {
        self.model@
    }

    /// The items waiting in the byte input channel.
    pub closed spec fn bytes_in(self) -> Seq<Result<u8, u8>> {
        byte_contents(self.byte_rx)
    }

    /// The messages sitting in the frame output channel.
    pub closed spec fn msgs_out(self) -> Seq<Result<SbusFrame, Error>> {
        msg_contents(self.result_tx)
    }

    /// The fixed capacity of the frame output channel.
    pub closed spec fn out_capacity(self) -> nat {
        msg_capacity(self.result_tx)
    }

    /// Free room in the frame output channel.
    pub open spec fn out_space(self) -> nat {
        if self.msgs_out().len() <= self.out_capacity() {
            (self.out_capacity() - self.msgs_out().len()) as nat
        } else {
            0
        }
    }

    /// The concrete reassembly state stands for the abstract one.
    pub closed spec fn wf(self) -> bool {
        state_matches(self.state, self.model@)
    }

    /// A decoder waiting for the header of the first frame, owning the
    /// consumer end of the byte channel and the producer end of the frame
    /// channel.
    pub fn new(
        byte_rx: heapless::spsc::Consumer<'static, Result<u8, u8>>,
        result_tx: heapless::spsc::Producer<'static, Result<SbusFrame, Error>>,
    ) -> (decoder: SbusDecoder)
        ensures
            decoder.wf(),
            decoder.model() == StateModel::WaitHeader,
            decoder.bytes_in() == byte_contents(byte_rx),
            decoder.msgs_out() == msg_contents(result_tx),
            decoder.out_capacity() == msg_capacity(result_tx),
    {
        SbusDecoder {
            byte_rx,
            result_tx,
            state: DecoderState::WaitForHeader,
            model: Ghost(StateModel::WaitHeader),
        }
    }

    /// Enqueue `message` on the frame output channel; a full channel is the
    /// fatal backpressure fault, which hands the message back to the caller
    /// so nothing is silently dropped.
    fn try_send_message(&mut self, message: Result<SbusFrame, Error>) -> (r: Result<
        (),
        FatalError,
    >)
        ensures
            final(self).byte_rx == old(self).byte_rx,
            final(self).state == old(self).state,
            final(self).model == old(self).model,
            final(self).out_capacity() == old(self).out_capacity(),
            old(self).out_space() > 0 ==> r is Ok && final(self).msgs_out() == old(self).msgs_out().push(message),
            old(self).out_space() == 0 ==> r == Err::<(), FatalError>(
                FatalError::FrameChannelFull(message),
            ) && final(self).msgs_out() == old(self).msgs_out(),
    {
        if let Err(message) = enqueue_message(&mut self.result_tx, message) {
            Err(FatalError::FrameChannelFull(message))
        } else {
            Ok(())
        }
    }

    /// Append one byte to the reassembly buffer; an already full buffer is
    /// the fatal structural fault and parks the decoder in recovery.
    fn try_push_byte(&mut self, byte: u8, target: &mut ChannelBuf) -> (r: Result<(), FatalError>)
        ensures
            final(self).byte_rx == old(self).byte_rx,
            final(self).result_tx == old(self).result_tx,
            old(target)@.len() < BUF_CAPACITY ==> r is Ok && final(target)@ == old(target)@.push(byte) && final(self).state == old(self).state && final(self).model == old(self).model,
            old(target)@.len() >= BUF_CAPACITY ==> r == Err::<(), FatalError>(
                FatalError::BufferFull(byte),
            ) && *final(target) == *old(target) && final(self).state is Recover && final(self).model@ == StateModel::Recover,
    {
        if target.len() < BUF_CAPACITY {
            target.push(byte);
            Ok(())
        } else {
            self.state = DecoderState::Recover;
            self.model = Ghost(StateModel::Recover);
            Err(FatalError::BufferFull(byte))
        }
    }

    /// Handle one byte while waiting for a header: `0x0F` opens a frame,
    /// anything else reports a missing header and enters recovery.
    fn wait_for_header(&mut self, byte: u8) -> (r: Result<DecoderState, FatalError>)
        ensures
            final(self).byte_rx == old(self).byte_rx,
            final(self).state == old(self).state,
            final(self).model == old(self).model,
            final(self).out_capacity() == old(self).out_capacity(),
            byte == HEADER_BYTE ==> (r matches Ok(s) && (s matches DecoderState::Channel(buf)
                && buf@ == Seq::<u8>::empty()) && final(self).msgs_out() == old(self).msgs_out()),
            byte != HEADER_BYTE && old(self).out_space() > 0 ==> (r matches Ok(s) && s is Recover
                && final(self).msgs_out() == old(self).msgs_out().push(Err(Error::MissingHeader))),
            byte != HEADER_BYTE && old(self).out_space() == 0 ==> final(self).msgs_out() == old(self).msgs_out() && r == Err::<DecoderState, FatalError>(
                FatalError::FrameChannelFull(Err(Error::MissingHeader)),
            ),
    {
        if byte == HEADER_BYTE {
            Ok(DecoderState::Channel(ChannelBuf::new()))
        } else {
            match self.try_send_message(Err(Error::MissingHeader)) {
                Ok(()) => Ok(DecoderState::Recover),
                Err(fatal) => Err(fatal),
            }
        }
    }

    /// Handle one buffered byte of the frame body; the 23rd completes the
    /// buffer, which is decoded while waiting for the footer.
    fn channel_state(&mut self, byte: u8, previous_bytes: ChannelBuf) -> (r: Result<
        DecoderState,
        FatalError,
    >)
        requires
            previous_bytes@.len() <= CHANNEL_BYTE_COUNT,
        ensures
            final(self).byte_rx == old(self).byte_rx,
            final(self).result_tx == old(self).result_tx,
            final(self).state == old(self).state,
            final(self).model == old(self).model,
            previous_bytes@.len() < CHANNEL_BYTE_COUNT ==> (r matches Ok(s) && (s matches
                DecoderState::Channel(buf) && buf@ == previous_bytes@.push(byte))),
            previous_bytes@.len() == CHANNEL_BYTE_COUNT ==> (r matches Ok(s) && (s matches
                DecoderState::WaitForFooter(pending) && decode_matches(
                previous_bytes@.push(byte),
                pending,
            ))),
    {
        let mut previous_bytes = previous_bytes;
        if previous_bytes.len() < CHANNEL_BYTE_COUNT {
            match self.try_push_byte(byte, &mut previous_bytes) {
                Ok(()) => Ok(DecoderState::Channel(previous_bytes)),
                Err(fatal) => Err(fatal),
            }
        } else {
            match self.try_push_byte(byte, &mut previous_bytes) {
                Ok(()) => Ok(DecoderState::WaitForFooter(decode_sbus(previous_bytes))),
                Err(fatal) => Err(fatal),
            }
        }
    }

    /// Handle the byte after a complete frame body: the footer releases the
    /// pending frame or failsafe, anything else reports a missing footer and
    /// enters recovery.
    fn wait_for_footer_state(&mut self, byte: u8, frame: Result<SbusFrame, Failsafe>) -> (r: Result<
        DecoderState,
        FatalError,
    >)
        ensures
            final(self).byte_rx == old(self).byte_rx,
            final(self).state == old(self).state,
            final(self).model == old(self).model,
            final(self).out_capacity() == old(self).out_capacity(),
            byte == FOOTER_BYTE && old(self).out_space() > 0 ==> (r matches Ok(s)
                && s is WaitForHeader && final(self).msgs_out() == old(self).msgs_out().push(
                release_message(frame),
            )),
            byte == FOOTER_BYTE && old(self).out_space() == 0 ==> final(self).msgs_out() == old(self).msgs_out() && r == Err::<DecoderState, FatalError>(
                FatalError::FrameChannelFull(release_message(frame)),
            ),
            byte != FOOTER_BYTE && old(self).out_space() > 0 ==> (r matches Ok(s) && s is Recover
                && final(self).msgs_out() == old(self).msgs_out().push(Err(Error::MissingFooter))),
            byte != FOOTER_BYTE && old(self).out_space() == 0 ==> final(self).msgs_out() == old(self).msgs_out() && r == Err::<DecoderState, FatalError>(
                FatalError::FrameChannelFull(Err(Error::MissingFooter)),
            ),
    {
        if byte == FOOTER_BYTE {
            let message = match frame {
                Ok(decoded) => Ok(decoded),
                Err(failsafe) => Err(Error::Failsafe(failsafe.frame)),
            };
            match self.try_send_message(message) {
                Ok(()) => Ok(DecoderState::WaitForHeader),
                Err(fatal) => Err(fatal),
            }
        } else {
            match self.try_send_message(Err(Error::MissingFooter)) {
                Ok(()) => Ok(DecoderState::Recover),
                Err(fatal) => Err(fatal),
            }
        }
    }

    /// Handle one byte in recovery: only the `0x00` synchronization boundary
    /// leads back to waiting for a header.
    fn recover_state(&mut self, byte: u8) -> (s: DecoderState)
        ensures
            final(self).byte_rx == old(self).byte_rx,
            final(self).result_tx == old(self).result_tx,
            final(self).state == old(self).state,
            final(self).model == old(self).model,
            byte == FOOTER_BYTE ==> s is WaitForHeader,
            byte != FOOTER_BYTE ==> s is Recover,
    {
        if byte == FOOTER_BYTE {
            DecoderState::WaitForHeader
        } else {
            DecoderState::Recover
        }
    }

    /// Drain the byte input channel, advancing the state machine one item at
    /// a time per the protocol table and emitting decoded frames and
    /// recoverable faults over the frame output channel, in order.
    ///
    /// On a clean drain, returns the state reached. Returns the fatal
    /// backpressure fault, with the decoder parked in recovery and the
    /// unread input left in the byte channel, exactly when the frame channel
    /// cannot accept an emission. The buffer-overflow fault is never
    /// returned: no reachable state pushes into a full buffer.
    #[verifier::loop_isolation(false)]
    pub fn process(&mut self) -> (r: Result<DecoderState, FatalError>)
        requires
            old(self).wf(),
        ensures
            final(self).wf(),
            final(self).out_capacity() == old(self).out_capacity(),
            ({
                let d = spec_drain(old(self).model(), old(self).bytes_in(), old(self).out_space());
                &&& final(self).model() == d.state
                &&& final(self).bytes_in() == d.remaining
                &&& final(self).msgs_out().len() == old(self).msgs_out().len() + d.emitted.len()
                &&& final(self).msgs_out().take(old(self).msgs_out().len() as int) == old(self).msgs_out()
                &&& forall|i: int|
                    0 <= i < d.emitted.len() ==> msg_matches(
                        final(self).msgs_out()[old(self).msgs_out().len() + i],
                        #[trigger] d.emitted[i],
                    )
                &&& match r {
                    Ok(s) => d.fatal is None && state_matches(s, d.state),
                    Err(f) => {
                        &&& d.fatal matches Some(e)
                        &&& f matches FatalError::FrameChannelFull(m)
                        &&& msg_matches(m, d.fatal->Some_0)
                    },
                }
            }),
    {
        let ghost m0 = self.model@;
        let ghost in0 = byte_contents(self.byte_rx);
        let ghost out0 = msg_contents(self.result_tx);
        let ghost sp0 = self.out_space();
        let ghost cap0 = msg_capacity(self.result_tx);
        let ghost mut eacc: Seq<EmitModel> = Seq::empty();
        proof {
            assert(eacc + spec_drain(m0, in0, sp0).emitted =~= spec_drain(m0, in0, sp0).emitted);
            assert(out0.take(out0.len() as int) =~= out0);
        }
        loop
            invariant
                self.wf(),
                msg_capacity(self.result_tx) == cap0,
                msg_contents(self.result_tx).len() == out0.len() + eacc.len(),
                msg_contents(self.result_tx).take(out0.len() as int) == out0,
                forall|i: int|
                    0 <= i < eacc.len() ==> msg_matches(
                        msg_contents(self.result_tx)[out0.len() + i],
                        #[trigger] eacc[i],
                    ),
                ({
                    let d0 = spec_drain(m0, in0, sp0);
                    let dc = spec_drain(self.model@, byte_contents(self.byte_rx), self.out_space());
                    &&& d0.state == dc.state
                    &&& d0.fatal == dc.fatal
                    &&& d0.remaining == dc.remaining
                    &&& d0.emitted == eacc + dc.emitted
                }),
            decreases byte_contents(self.byte_rx).len(),
        {
            let ghost pre_model = self.model@;
            let ghost pre_bytes = byte_contents(self.byte_rx);
            let ghost pre_msgs = msg_contents(self.result_tx);
            let ghost pre_space = self.out_space();
            let item_opt = dequeue_byte(&mut self.byte_rx);
            match item_opt {
                None => {
                    proof {
                        assert(byte_contents(self.byte_rx) =~= Seq::<Result<u8, u8>>::empty());
                        assert(eacc + spec_drain(
                            pre_model,
                            pre_bytes,
                            pre_space,
                        ).emitted =~= eacc);
                    }
                    return Ok(self.state);
                },
                Some(item) => {
                    match item {
                        Err(code) => {
                            self.state = DecoderState::Recover;
                            self.model = Ghost(StateModel::Recover);
                            let message = Err(Error::ByteReadError(code));
                            let ghost e = EmitModel::ByteRead(code);
                            match self.try_send_message(message) {
                                Ok(()) => {
                                    proof {
                                        lemma_emit_glue(pre_msgs, out0, eacc, message, e);
                                        assert(eacc + (seq![e] + spec_drain(
                                            StateModel::Recover,
                                            pre_bytes.drop_first(),
                                            (pre_space - 1) as nat,
                                        ).emitted) =~= (eacc + seq![e]) + spec_drain(
                                            StateModel::Recover,
                                            pre_bytes.drop_first(),
                                            (pre_space - 1) as nat,
                                        ).emitted);
                                        eacc = eacc + seq![e];
                                    }
                                },
                                Err(fatal) => {
                                    proof {
                                        assert(eacc + Seq::<EmitModel>::empty() =~= eacc);
                                    }
                                    return Err(fatal);
                                },
                            }
                        },
                        Ok(byte) => {
                            let st = self.state;
                            let ghost step = spec_step(pre_model, byte);
                            let step_result: Result<DecoderState, FatalError> = match st {
                                DecoderState::WaitForHeader => self.wait_for_header(byte),
                                DecoderState::Channel(previous_bytes) => self.channel_state(
                                    byte,
                                    previous_bytes,
                                ),
                                DecoderState::WaitForFooter(pending) => self.wait_for_footer_state(
                                    byte,
                                    pending,
                                ),
                                DecoderState::Recover => Ok(self.recover_state(byte)),
                            };
                            match step_result {
                                Ok(new_state) => {
                                    self.state = new_state;
                                    self.model = Ghost(step.0);
                                    proof {
                                        if step.1 is Some {
                                            let e = step.1->Some_0;
                                            let msg = msg_contents(self.result_tx)[pre_msgs.len() as int];
                                            lemma_emit_glue(pre_msgs, out0, eacc, msg, e);
                                            assert(eacc + (seq![e] + spec_drain(
                                                step.0,
                                                pre_bytes.drop_first(),
                                                (pre_space - 1) as nat,
                                            ).emitted) =~= (eacc + seq![e]) + spec_drain(
                                                step.0,
                                                pre_bytes.drop_first(),
                                                (pre_space - 1) as nat,
                                            ).emitted);
                                            eacc = eacc + seq![e];
                                        }
                                    }
                                },
                                Err(fatal) => {
                                    self.state = DecoderState::Recover;
                                    self.model = Ghost(StateModel::Recover);
                                    proof {
                                        assert(eacc + Seq::<EmitModel>::empty() =~= eacc);
                                    }
                                    return Err(fatal);
                                },
                            }
                        },
                    }
                },
            }
        }
    }
}

/// Bit `b` of the payload bitstream as recovered from the channel values
/// alone: channel `b / 11` carries it as its bit `b % 11`.
pub open spec fn repacked_bit(f: SbusFrame, b: int) -> bool {
    channel_bit(f.channels@[b / 11], b % 11)
}

/// Byte `i` of the payload as repacked from the channel values alone.
pub open spec fn repacked_byte(f: SbusFrame, i: int) -> u8 {
    ((if repacked_bit(f, 8 * i) {
        0x01int
    } else {
        0
    }) + (if repacked_bit(f, 8 * i + 1) {
        0x02int
    } else {
        0
    }) + (if repacked_bit(f, 8 * i + 2) {
        0x04int
    } else {
        0
    }) + (if repacked_bit(f, 8 * i + 3) {
        0x08int
    } else {
        0
    }) + (if repacked_bit(f, 8 * i + 4) {
        0x10int
    } else {
        0
    }) + (if repacked_bit(f, 8 * i + 5) {
        0x20int
    } else {
        0
    }) + (if repacked_bit(f, 8 * i + 6) {
        0x40int
    } else {
        0
    }) + (if repacked_bit(f, 8 * i + 7) {
        0x80int
    } else {
        0
    })) as u8
}

/// Round trip of the bit packing: the sixteen extracted channel values,
/// repacked, reproduce the 22 payload bytes exactly. In particular the
/// payload is uniquely determined by the channels.
pub proof fn lemma_channels_repack(p: Seq<u8>, f: SbusFrame)
    requires
        p.len() >= CHANNEL_BYTE_COUNT,
        channels_match(p, f),
    ensures
        forall|i: int| 0 <= i < CHANNEL_BYTE_COUNT ==> p[i] == repacked_byte(f, i),
{
    assert forall|i: int| 0 <= i < CHANNEL_BYTE_COUNT implies p[i] == repacked_byte(f, i) by {
        let b = p[i];
        assert forall|t: int| 0 <= t < 8 implies repacked_bit(f, 8 * i + t) == #[trigger] byte_bit(
            b,
            t,
        ) by {
            let pos = 8 * i + t;
            let k = pos / 11;
            let j = pos % 11;
            assert(0 <= k < CHANNEL_AMOUNT && 0 <= j < 11 && 11 * k + j == pos) by (nonlinear_arith)
                requires
                    0 <= i < 22,
                    0 <= t < 8,
                    k == pos / 11,
                    j == pos % 11,
                    pos == 8 * i + t,
            ;
            assert(channel_ok(p, f.channels@[k], k));
            assert(channel_bit(f.channels@[k], j) == payload_bit(p, 11 * k + j));
            assert(pos / 8 == i && pos % 8 == t) by (nonlinear_arith)
                requires
                    0 <= i,
                    0 <= t < 8,
                    pos == 8 * i + t,
            ;
        }
        assert(repacked_bit(f, 8 * i) == byte_bit(b, 0));
        assert(repacked_bit(f, 8 * i + 1) == byte_bit(b, 1));
        assert(repacked_bit(f, 8 * i + 2) == byte_bit(b, 2));
        assert(repacked_bit(f, 8 * i + 3) == byte_bit(b, 3));
        assert(repacked_bit(f, 8 * i + 4) == byte_bit(b, 4));
        assert(repacked_bit(f, 8 * i + 5) == byte_bit(b, 5));
        assert(repacked_bit(f, 8 * i + 6) == byte_bit(b, 6));
        assert(repacked_bit(f, 8 * i + 7) == byte_bit(b, 7));
        let bu = b as u32;
        assert(bu == ((bu >> 0u32) & 1) + 2 * ((bu >> 1u32) & 1) + 4 * ((bu >> 2u32) & 1) + 8 * ((
        bu >> 3u32) & 1) + 16 * ((bu >> 4u32) & 1) + 32 * ((bu >> 5u32) & 1) + 64 * ((bu >> 6u32)
            & 1) + 128 * ((bu >> 7u32) & 1) && ((bu >> 0u32) & 1) <= 1 && ((bu >> 1u32) & 1) <= 1
            && ((bu >> 2u32) & 1) <= 1 && ((bu >> 3u32) & 1) <= 1 && ((bu >> 4u32) & 1) <= 1 && ((
        bu >> 5u32) & 1) <= 1 && ((bu >> 6u32) & 1) <= 1 && ((bu >> 7u32) & 1) <= 1)
            by (bit_vector)
            requires
                bu < 256,
        ;
        assert(p[i] == repacked_byte(f, i));
    }
}

/// Extracted channel values always fit in 11 bits.
pub proof fn lemma_channels_bounded(p: Seq<u8>, f: SbusFrame)
    requires
        channels_match(p, f),
    ensures
        forall|k: int| 0 <= k < CHANNEL_AMOUNT ==> #[trigger] f.channels@[k] < 2048,
{
    assert forall|k: int| 0 <= k < CHANNEL_AMOUNT implies #[trigger] f.channels@[k] < 2048 by {
        assert(channel_ok(p, f.channels@[k], k));
    }
}

/// While recovering, bytes that are neither the footer nor transport errors
/// are discarded without any emission: the drain behaves as if they were
/// never there.
pub proof fn lemma_recover_discards(
    junk: Seq<Result<u8, u8>>,
    rest: Seq<Result<u8, u8>>,
    space: nat,
)
    requires
        forall|i: int|
            0 <= i < junk.len() ==> (#[trigger] junk[i] matches Ok(b) && b != FOOTER_BYTE),
    ensures
        spec_drain(StateModel::Recover, junk + rest, space) == spec_drain(
            StateModel::Recover,
            rest,
            space,
        ),
    decreases junk.len(),
{
    if junk.len() == 0 {
        assert(junk + rest =~= rest);
    } else {
        let whole = junk + rest;
        assert(whole.len() > 0 && whole[0] == junk[0]);
        assert(whole.drop_first() =~= junk.drop_first() + rest);
        lemma_recover_discards(junk.drop_first(), rest, space);
    }
}

/// Collecting the tail of a frame body: with `i` bytes already buffered, the
/// remaining body bytes followed by the footer deliver exactly the decode of
/// the whole body and leave the decoder awaiting the next header.
proof fn lemma_collect_tail(body: Seq<u8>, input: Seq<Result<u8, u8>>, space: nat, i: int)
    requires
        body.len() == BUF_CAPACITY,
        0 <= i <= CHANNEL_BYTE_COUNT,
        space >= 1,
        input.len() == BUF_CAPACITY - i + 1,
        forall|j: int| 0 <= j < BUF_CAPACITY - i ==> input[j] == Ok::<u8, u8>(body[i + j]),
        input[input.len() - 1] == Ok::<u8, u8>(FOOTER_BYTE),
    ensures
        ({
            let d = spec_drain(StateModel::Collect(body.take(i)), input, space);
            &&& d.state == StateModel::WaitHeader
            &&& d.emitted =~= seq![EmitModel::Decoded(body)]
            &&& d.fatal is None
            &&& d.remaining =~= Seq::<Result<u8, u8>>::empty()
        }),
    decreases BUF_CAPACITY - i,
{
    reveal_with_fuel(spec_drain, 4);
    let d = spec_drain(StateModel::Collect(body.take(i)), input, space);
    assert(input[0] == Ok::<u8, u8>(body[i]));
    assert(body.take(i).push(body[i]) =~= body.take(i + 1));
    if i < CHANNEL_BYTE_COUNT {
        assert(body.take(i).len() == i < CHANNEL_BYTE_COUNT);
        lemma_collect_tail(body, input.drop_first(), space, i + 1);
    } else {
        assert(body.take(i).len() == CHANNEL_BYTE_COUNT);
        assert(body.take(i + 1) =~= body);
        let after = input.drop_first();
        assert(after.len() == 1 && after[0] == Ok::<u8, u8>(FOOTER_BYTE));
        assert(after.drop_first() =~= Seq::<Result<u8, u8>>::empty());
        assert(d.emitted =~= seq![EmitModel::Decoded(body)]);
    }
}

/// Resynchronization: after any protocol fault the decoder stands in
/// recovery, and from there a footer byte, a header byte, a full 23-byte
/// frame body and the closing footer deliver exactly the decode of that body
/// and leave the decoder waiting for the next header. (From other states a
/// leading footer is not a clean boundary: it may be consumed as a payload
/// byte or reported as a missing header.)
pub proof fn lemma_resynchronization(
    junk: Seq<Result<u8, u8>>,
    body: Seq<u8>,
    input: Seq<Result<u8, u8>>,
    space: nat,
)
    requires
        forall|i: int|
            0 <= i < junk.len() ==> (#[trigger] junk[i] matches Ok(b) && b != FOOTER_BYTE),
        body.len() == BUF_CAPACITY,
        space >= 1,
        input.len() == BUF_CAPACITY + 3,
        input[0] == Ok::<u8, u8>(FOOTER_BYTE),
        input[1] == Ok::<u8, u8>(HEADER_BYTE),
        forall|i: int| 0 <= i < BUF_CAPACITY ==> #[trigger] input[i + 2] == Ok::<u8, u8>(body[i]),
        input[input.len() - 1] == Ok::<u8, u8>(FOOTER_BYTE),
    ensures
        ({
            let d = spec_drain(StateModel::Recover, junk + input, space);
            &&& d.state == StateModel::WaitHeader
            &&& d.emitted =~= seq![EmitModel::Decoded(body)]
            &&& d.fatal is None
        }),
{
    reveal_with_fuel(spec_drain, 3);
    lemma_recover_discards(junk, input, space);
    let tail = input.drop_first().drop_first();
    assert(tail.len() == BUF_CAPACITY + 1);
    assert forall|j: int| 0 <= j < BUF_CAPACITY implies tail[j] == Ok::<u8, u8>(body[j]) by {
        assert(input[j + 2] == Ok::<u8, u8>(body[j]));
    }
    assert(tail[tail.len() - 1] == input[input.len() - 1]);
    assert(body.take(0) =~= Seq::<u8>::empty());
    lemma_collect_tail(body, tail, space, 0);
}

} // verus!

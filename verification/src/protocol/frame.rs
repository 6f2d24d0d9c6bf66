//! Length-prefixed framing: every frame is `[u32 LE length][payload]`.
//!
//! Messages are serialized elsewhere; this module frames payload bytes for the
//! transport and cuts an incoming byte stream back into payloads.

use vstd::bytes::{
    lemma_auto_spec_u32_to_from_le_bytes, spec_u32_from_le_bytes, spec_u32_to_le_bytes,
    u32_from_le_bytes, u32_to_le_bytes,
};
use vstd::prelude::*;

verus! {

// ---------------------------------------------------------------------------
// The buffer type of the `bytes` crate
// ---------------------------------------------------------------------------

#[verifier::external_type_specification]
#[verifier::external_body]
pub struct ExBytesMut(bytes::BytesMut);

/// The bytes that a `BytesMut` holds, in order.
pub uninterp spec fn bytes_mut_contents(b: bytes::BytesMut) -> Seq<u8>;

/// `BytesMut::with_capacity`: an empty buffer. The allocation panics on a
/// capacity beyond `isize::MAX` bytes, which the requirement rules out.
#[verifier::external_body]
fn bytes_mut_with_capacity(capacity: usize) -> (b: bytes::BytesMut)
    requires
        capacity <= isize::MAX,
    ensures
        bytes_mut_contents(b) == Seq::<u8>::empty(),
{
    bytes::BytesMut::with_capacity(capacity)
}

/// `BytesMut::len`: the number of bytes held.
#[verifier::external_body]
fn bytes_mut_len(b: &bytes::BytesMut) -> (n: usize)
    ensures
        n as nat == bytes_mut_contents(*b).len(),
{
    b.len()
}

/// `BytesMut::extend_from_slice`: appends `data` after the bytes held.
///
/// The buffer grows by reallocation; the requirement keeps the new length
/// within what a slice can address.
#[verifier::external_body]
fn bytes_mut_extend_from_slice(b: &mut bytes::BytesMut, data: &[u8])
    requires
        bytes_mut_contents(*old(b)).len() + data@.len() <= isize::MAX,
    ensures
        bytes_mut_contents(*final(b)) == bytes_mut_contents(*old(b)) + data@,
{
    b.extend_from_slice(data)
}

/// The byte at index `i`, through `BytesMut`'s `Deref` to a slice.
#[verifier::external_body]
fn bytes_mut_byte(b: &bytes::BytesMut, i: usize) -> (x: u8)
    requires
        i < bytes_mut_contents(*b).len(),
    ensures
        x == bytes_mut_contents(*b)[i as int],
{
    b[i]
}

/// `Buf::advance` for `BytesMut`: drops the first `count` bytes.
#[verifier::external_body]
fn bytes_mut_advance(b: &mut bytes::BytesMut, count: usize)
    requires
        count <= bytes_mut_contents(*old(b)).len(),
    ensures
        bytes_mut_contents(*final(b)) == bytes_mut_contents(*old(b)).skip(count as int),
{
    bytes::Buf::advance(b, count)
}

/// `BytesMut::split_to`: removes the first `at` bytes and returns them.
#[verifier::external_body]
fn bytes_mut_split_to(b: &mut bytes::BytesMut, at: usize) -> (front: bytes::BytesMut)
    requires
        at <= bytes_mut_contents(*old(b)).len(),
    ensures
        bytes_mut_contents(front) == bytes_mut_contents(*old(b)).take(at as int),
        bytes_mut_contents(*final(b)) == bytes_mut_contents(*old(b)).skip(at as int),
{
    b.split_to(at)
}

/// The bytes held, copied into a `Vec` (`<[u8]>::to_vec` through `Deref`).
#[verifier::external_body]
fn bytes_mut_to_vec(b: &bytes::BytesMut) -> (v: Vec<u8>)
    ensures
        v@ == bytes_mut_contents(*b),
{
    b.to_vec()
}

// ---------------------------------------------------------------------------
// The frame format
// ---------------------------------------------------------------------------

/// The size of the length prefix.
pub const HEADER_LEN: usize = 4;

/// The frame that carries `payload`.
pub open spec fn frame_of(payload: Seq<u8>) -> Seq<u8> {
    spec_u32_to_le_bytes(payload.len() as u32) + payload
}

/// The payload length announced by the prefix of `buf`.
pub open spec fn announced_len(buf: Seq<u8>) -> int {
    spec_u32_from_le_bytes(buf.take(4)) as int
}

/// The first complete frame of `buf`: its payload and the bytes after it, or
/// `None` while the prefix or the payload is still incomplete.
pub open spec fn first_frame(buf: Seq<u8>) -> Option<(Seq<u8>, Seq<u8>)> {
    if buf.len() < 4 {
        None
    } else if buf.len() < 4 + announced_len(buf) {
        None
    } else {
        Some(
            (
                buf.subrange(4, 4 + announced_len(buf)),
                buf.skip(4 + announced_len(buf)),
            ),
        )
    }
}

/// Why a payload cannot be framed.
#[derive(Debug, PartialEq, Eq, Structural)]
pub enum FrameError {
    /// The payload is longer than a `u32` length prefix can announce.
    SerializeBufferFull,
}

/// Frames `payload`: its length as a little-endian `u32`, then the payload.
///
/// Fails exactly when the length does not fit in a `u32`.
pub fn encode(payload: &[u8]) -> (r: Result<Vec<u8>, FrameError>)
    ensures
        payload@.len() > u32::MAX ==> r == Err::<Vec<u8>, FrameError>(
            FrameError::SerializeBufferFull,
        ),
        payload@.len() <= u32::MAX ==> (r matches Ok(v) && v@ == frame_of(payload@)),
{
    let len = match u32::try_from(payload.len()) {
        Ok(n) => n,
        Err(_) => return Err(FrameError::SerializeBufferFull),
    };
    let mut buf = u32_to_le_bytes(len);
    buf.extend_from_slice(payload);
    Ok(buf)
}

/// Incremental frame reader: buffers incoming bytes and yields complete
/// payloads in the order in which they arrived.
pub struct FrameReader {
    buf: bytes::BytesMut,
}

impl View for FrameReader {
    type V = Seq<u8>;

    /// The bytes received and not yet taken as frames.
    closed spec fn view(&self) -> Seq<u8> {
        bytes_mut_contents(self.buf)
    }
}

impl FrameReader {
    /// A reader that holds no bytes.
    pub fn new() -> (r: Self)
        ensures
            r@ == Seq::<u8>::empty(),
    {
        FrameReader { buf: bytes_mut_with_capacity(8192) }
    }

    /// Appends raw bytes from the transport.
    pub fn extend(&mut self, data: &[u8])
        requires
            old(self)@.len() + data@.len() <= isize::MAX,
        ensures
            final(self)@ == old(self)@ + data@,
    {
        bytes_mut_extend_from_slice(&mut self.buf, data);
    }

    /// The number of bytes held.
    pub fn buffered_len(&self) -> (n: usize)
        ensures
            n as nat == self@.len(),
    {
        bytes_mut_len(&self.buf)
    }

    /// Takes the next complete frame and returns its payload (without the
    /// length prefix); `None`, leaving the bytes as they are, while the next
    /// frame is still incomplete.
    pub fn next_frame(&mut self) -> (r: Option<Vec<u8>>)
        ensures
            match first_frame(old(self)@) {
                None => r is None && final(self)@ == old(self)@,
                Some((payload, rest)) => r matches Some(v) && v@ == payload && final(self)@
                    == rest,
            },
    {
        let n = bytes_mut_len(&self.buf);
        if n < HEADER_LEN {
            return None;
        }
        let b0 = bytes_mut_byte(&self.buf, 0);
        let b1 = bytes_mut_byte(&self.buf, 1);
        let b2 = bytes_mut_byte(&self.buf, 2);
        let b3 = bytes_mut_byte(&self.buf, 3);
        let header = [b0, b1, b2, b3];
        proof {
            assert(header@ =~= self@.take(4));
        }
        let len = u32_from_le_bytes(&header) as usize;
        if n - HEADER_LEN < len {
            return None;
        }
        let ghost before = self@;
        bytes_mut_advance(&mut self.buf, HEADER_LEN);
        let front = bytes_mut_split_to(&mut self.buf, len);
        let payload = bytes_mut_to_vec(&front);
        proof {
            assert(payload@ =~= before.subrange(4, 4 + len));
            assert(self@ =~= before.skip(4 + len));
        }
        Some(payload)
    }
}

/// Frame writer: frames payloads into a reusable buffer.
pub struct FrameWriter {
    buf: Vec<u8>,
}

impl View for FrameWriter {
    type V = Seq<u8>;

    /// The frame most recently written.
    closed spec fn view(&self) -> Seq<u8> {
        self.buf@
    }
}

impl FrameWriter {
    /// A writer that has written nothing yet.
    pub fn new() -> (w: Self)
        ensures
            w@ == Seq::<u8>::empty(),
    {
        FrameWriter { buf: Vec::with_capacity(8192) }
    }

    /// Frames `payload` and returns the frame bytes; the writer keeps a copy.
    pub fn encode(&mut self, payload: &[u8]) -> (r: Result<Vec<u8>, FrameError>)
        ensures
            payload@.len() > u32::MAX ==> r == Err::<Vec<u8>, FrameError>(
                FrameError::SerializeBufferFull,
            ) && final(self)@ == Seq::<u8>::empty(),
            payload@.len() <= u32::MAX ==> (r matches Ok(v) && v@ == frame_of(payload@)
                && final(self)@ == v@),
    {
        self.buf.clear();
        let len = match u32::try_from(payload.len()) {
            Ok(n) => n,
            Err(_) => return Err(FrameError::SerializeBufferFull),
        };
        let header = u32_to_le_bytes(len);
        self.buf.extend_from_slice(header.as_slice());
        self.buf.extend_from_slice(payload);
        proof {
            assert(self.buf@ =~= frame_of(payload@));
        }
        Ok(self.buf.clone())
    }
}

impl Default for FrameReader {
    fn default() -> (r: Self)
        ensures
            r@ == Seq::<u8>::empty(),
    {
        FrameReader::new()
    }
}

impl Default for FrameWriter {
    fn default() -> (w: Self)
        ensures
            w@ == Seq::<u8>::empty(),
    {
        FrameWriter::new()
    }
}

// ---------------------------------------------------------------------------
// Laws of the frame format
// ---------------------------------------------------------------------------

/// A frame announces its own payload: reading from a buffer that starts with
/// the frame of `payload` gives back `payload`, followed by exactly the bytes
/// that came after the frame.
pub proof fn lemma_frame_roundtrip(payload: Seq<u8>, rest: Seq<u8>)
    requires
        payload.len() <= u32::MAX,
    ensures
        first_frame(frame_of(payload) + rest) == Some((payload, rest)),
{
    lemma_auto_spec_u32_to_from_le_bytes();
    let buf = frame_of(payload) + rest;
    let header = spec_u32_to_le_bytes(payload.len() as u32);
    assert(buf.take(4) =~= header);
    assert(announced_len(buf) == payload.len());
    assert(buf.subrange(4, 4 + payload.len() as int) =~= payload);
    assert(buf.skip(4 + payload.len() as int) =~= rest);
}

/// Bytes that arrive after a complete frame never change it: the frame is the
/// same, and the later bytes stay behind it.
pub proof fn lemma_first_frame_stable(buf: Seq<u8>, more: Seq<u8>)
    requires
        first_frame(buf) is Some,
    ensures
        ({
            let (payload, rest) = first_frame(buf).unwrap();
            first_frame(buf + more) == Some((payload, rest + more))
        }),
{
    let whole = buf + more;
    assert(whole.take(4) =~= buf.take(4));
    let n: int = announced_len(buf);
    assert(whole.subrange(4, 4 + n) =~= buf.subrange(4, 4 + n));
    assert(whole.skip(4 + n) =~= buf.skip(4 + n) + more);
}

/// The payloads of a sequence of frames.
pub open spec fn frames_of(payloads: Seq<Seq<u8>>) -> Seq<u8>
    decreases payloads.len(),
{
    if payloads.len() == 0 {
        Seq::empty()
    } else {
        frame_of(payloads[0]) + frames_of(payloads.drop_first())
    }
}

/// Cuts `buf` into its complete frames: the payloads in order, and the bytes
/// of the incomplete frame that remain.
pub open spec fn all_frames(buf: Seq<u8>) -> (Seq<Seq<u8>>, Seq<u8>)
    decreases buf.len(),
{
    match first_frame(buf) {
        None => (Seq::empty(), buf),
        Some((payload, rest)) => {
            if rest.len() < buf.len() {
                let (more, tail) = all_frames(rest);
                (seq![payload] + more, tail)
            } else {
                (Seq::empty(), buf)
            }
        },
    }
}

/// A stream of frames is read back as the payloads that were framed, in the
/// order in which they were framed, with the bytes of an incomplete last
/// frame left over.
pub proof fn lemma_frames_read_in_order(payloads: Seq<Seq<u8>>, tail: Seq<u8>)
    requires
        forall|i: int| 0 <= i < payloads.len() ==> (#[trigger] payloads[i]).len() <= u32::MAX,
        first_frame(tail) is None,
    ensures
        all_frames(frames_of(payloads) + tail) == (payloads, tail),
    decreases payloads.len(),
{
    if payloads.len() == 0 {
        assert(frames_of(payloads) + tail =~= tail);
    } else {
        let p = payloads[0];
        let others = payloads.drop_first();
        assert forall|i: int| 0 <= i < others.len() implies (#[trigger] others[i]).len()
            <= u32::MAX by {
            assert(others[i] == payloads[i + 1]);
        }
        lemma_frames_read_in_order(others, tail);
        let rest = frames_of(others) + tail;
        assert(frames_of(payloads) + tail =~= frame_of(p) + rest);
        lemma_frame_roundtrip(p, rest);
        lemma_auto_spec_u32_to_from_le_bytes();
        assert(rest.len() < (frame_of(p) + rest).len());
        assert(seq![p] + others =~= payloads);
    }
}

} // verus!

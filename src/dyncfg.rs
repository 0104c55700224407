//! Framing of the requests sent to the dataplane's control socket and of
//! the responses read back: a two-byte big-endian length, then that many
//! bytes of payload.
use byteorder::{ByteOrder, NetworkEndian};
use vstd::prelude::*;

verus! {

/// Size of the length field that starts every frame.
pub const HEADER_LEN: usize = 2;

/// Largest payload a frame may carry: one less than the largest `u16`.
pub const MAX_MSG_LEN: u16 = 65534;

/// A script too large to be sent in one frame.
#[derive(Debug, PartialEq, Eq)]
pub struct SizeError {
    pub script: String,
    pub size: u64,
}

/// The two header bytes announcing a payload of `n` bytes, most
/// significant first.
pub open spec fn header_of(n: nat) -> Seq<u8> {
    seq![(n / 256) as u8, (n % 256) as u8]
}

/// The length announced by a header.
pub open spec fn announced_len(header: Seq<u8>) -> nat
    recommends
        header.len() >= 2,
{
    (header[0] as nat) * 256 + (header[1] as nat)
}

/// A complete frame carrying `payload`.
pub open spec fn frame(payload: Seq<u8>) -> Seq<u8> {
    header_of(payload.len()) + payload
}

/// The payload of a buffer that starts with a complete frame, if it does.
pub open spec fn unframe(bytes: Seq<u8>) -> Option<Seq<u8>> {
    if bytes.len() >= 2 && bytes.len() - 2 >= announced_len(bytes) {
        Some(bytes.subrange(2, 2 + announced_len(bytes) as int))
    } else {
        None
    }
}

/// Text obtained from bytes read as UTF-8, each invalid sequence replaced by
/// U+FFFD.
pub uninterp spec fn utf8_lossy(bytes: Seq<u8>) -> Seq<char>;

/// Relies on byteorder's `NetworkEndian::write_u16`: the value, most
/// significant byte first, in the first two bytes of the buffer.
#[verifier::external_body]
fn be_bytes(n: u16) -> (r: [u8; 2])
    ensures
        r@ == header_of(n as nat),
{
    let mut buf = [0u8; 2];
    NetworkEndian::write_u16(&mut buf, n);
    buf
}

/// Relies on byteorder's `NetworkEndian::read_u16`: the first two bytes of
/// the buffer read most significant first; it panics on a shorter buffer.
#[verifier::external_body]
fn be_u16(buf: &[u8]) -> (r: u16)
    requires
        buf@.len() >= 2,
    ensures
        r as nat == announced_len(buf@),
{
    NetworkEndian::read_u16(buf)
}

/// Relies on `String::from_utf8_lossy`: the bytes decoded as UTF-8, with
/// invalid sequences replaced; no bytes give no text.
#[verifier::external_body]
fn lossy_text(bytes: &[u8]) -> (r: String)
    ensures
        r@ == utf8_lossy(bytes@),
        bytes@.len() == 0 ==> r@.len() == 0,
{
    String::from_utf8_lossy(bytes).into_owned()
}

/// Accepts a script of `size` bytes for sending and gives the length to put
/// in its header, or names the script when it is too large for one frame.
pub fn check_script_size(script: &str, size: u64) -> (r: Result<u16, SizeError>)
    ensures
        size <= MAX_MSG_LEN ==> r == Ok::<u16, SizeError>(size as u16),
        size > MAX_MSG_LEN ==> (r matches Err(e) && e.script@ == script@ && e.size == size),
{
    if size > MAX_MSG_LEN as u64 {
        Err(SizeError { script: script.to_owned(), size })
    } else {
        Ok(size as u16)
    }
}

/// Builds the frame that carries `payload`.
pub fn create_packet(payload: &[u8]) -> (r: Vec<u8>)
    requires
        payload@.len() <= MAX_MSG_LEN,
    ensures
        r@ == frame(payload@),
{
    let len = payload.len() as u16;
    let header = be_bytes(len);
    let mut packet: Vec<u8> = Vec::with_capacity(HEADER_LEN + payload.len());
    packet.push(header[0]);
    packet.push(header[1]);
    let mut i: usize = 0;
    while i < payload.len()
        invariant
            i <= payload@.len(),
            packet@ == header_of(payload@.len()) + payload@.subrange(0, i as int),
        decreases payload@.len() - i,
    {
        packet.push(payload[i]);
        i += 1;
        assert(payload@.subrange(0, i as int) == payload@.subrange(0, i - 1) + seq![payload@[i - 1]]);
    }
    assert(payload@.subrange(0, payload@.len() as int) == payload@);
    packet
}

/// The payload length announced by the first two bytes of a frame.
pub fn response_len(header: &[u8]) -> (r: usize)
    requires
        header@.len() >= HEADER_LEN,
    ensures
        r as nat == announced_len(header@),
{
    be_u16(header) as usize
}

/// Takes the payload out of a buffer that starts with a complete frame;
/// `None` when the buffer is shorter than its header announces.
pub fn read_frame(bytes: &[u8]) -> (r: Option<Vec<u8>>)
    ensures
        r matches Some(p) ==> unframe(bytes@) == Some(p@),
        r is None ==> unframe(bytes@) is None,
{
    if bytes.len() < HEADER_LEN {
        return None;
    }
    let len = response_len(bytes);
    if bytes.len() - HEADER_LEN < len {
        return None;
    }
    let mut payload: Vec<u8> = Vec::with_capacity(len);
    let mut i: usize = 0;
    while i < len
        invariant
            i <= len,
            2 + len <= bytes.len(),
            payload@ == bytes@.subrange(2, 2 + i),
        decreases len - i,
    {
        payload.push(bytes[2 + i]);
        i += 1;
    }
    Some(payload)
}

/// The text of a response payload.
pub fn decode_response(payload: &[u8]) -> (r: String)
    ensures
        r@ == utf8_lossy(payload@),
{
    lossy_text(payload)
}

/// Every payload the protocol admits comes back unchanged from its frame.
pub proof fn lemma_frame_round_trip(payload: Seq<u8>)
    requires
        payload.len() <= MAX_MSG_LEN,
    ensures
        unframe(frame(payload)) == Some(payload),
{
    let f = frame(payload);
    let n = payload.len();
    assert(f[0] == (n / 256) as u8 && f[1] == (n % 256) as u8);
    assert(announced_len(f) == n);
    assert(f.subrange(2, 2 + n as int) =~= payload);
}

} // verus!

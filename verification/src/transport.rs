//! The frame format of the serial protocol.
//!
//! A frame is `68 n n 68 payload checksum 0D`, where `n` is the payload length
//! (one byte, written twice) and the checksum is the sum of the payload bytes
//! modulo 256. A request payload starts with the function code and the device
//! type; the rest is the data field.
use vstd::prelude::*;

use crate::text::{hex_byte, hex_digit, push_char, push_hex_byte, trim, trimmed_chars};

verus! {

/// The byte that opens a frame (and closes its header).
pub const SOF: u8 = 0x68;

/// The byte that closes a frame.
pub const EOF: u8 = 0x0D;

/// Why a received frame was refused.
#[derive(Debug, Clone, Copy, PartialEq, Eq, Structural)]
pub enum FrameError {
    /// The header does not start and end with `SOF`; the four header bytes.
    InvalidSof(u8, u8, u8, u8),
    /// The two length bytes of the header differ.
    LengthMismatch(u8, u8),
    /// The byte after the checksum is not `EOF`; that byte.
    InvalidEof(u8),
    /// The checksum byte does not match the payload.
    ChecksumMismatch { expected: u8, got: u8 },
}

/// The sum of all bytes of `s`.
pub open spec fn byte_sum(s: Seq<u8>) -> nat
    decreases s.len(),
{
    if s.len() == 0 {
        0
    } else {
        byte_sum(s.drop_last()) + s.last() as nat
    }
}

/// The checksum of a payload: the sum of its bytes modulo 256.
pub open spec fn spec_checksum(payload: Seq<u8>) -> u8 {
    (byte_sum(payload) % 256) as u8
}

/// The length byte written for a payload: its length modulo 256.
pub open spec fn length_byte(payload: Seq<u8>) -> u8 {
    (payload.len() % 256) as u8
}

/// The frame that carries `payload`.
pub open spec fn spec_frame(payload: Seq<u8>) -> Seq<u8> {
    seq![SOF, length_byte(payload), length_byte(payload), SOF] + payload + seq![
        spec_checksum(payload),
        EOF,
    ]
}

/// The payload of a request: function code, device type, then the data field.
pub open spec fn request_payload(func: u8, device_type: u8, data: Seq<u8>) -> Seq<u8> {
    seq![func, device_type] + data
}

/// What the four header bytes of a received frame say: the payload length, or
/// why the frame is refused.
pub open spec fn spec_frame_header(header: Seq<u8>) -> Result<nat, FrameError>
    recommends
        header.len() == 4,
{
    if header[0] != SOF || header[3] != SOF {
        Err(FrameError::InvalidSof(header[0], header[1], header[2], header[3]))
    } else if header[1] != header[2] {
        Err(FrameError::LengthMismatch(header[1], header[2]))
    } else {
        Ok(header[1] as nat)
    }
}

/// What the `len + 2` bytes after the header say: the payload, or why the
/// frame is refused.
pub open spec fn spec_frame_tail(len: nat, tail: Seq<u8>) -> Result<Seq<u8>, FrameError>
    recommends
        tail.len() == len + 2,
{
    let payload = tail.take(len as int);
    let ch = tail[len as int];
    let eof = tail[len as int + 1];
    if eof != EOF {
        Err(FrameError::InvalidEof(eof))
    } else if spec_checksum(payload) != ch {
        Err(FrameError::ChecksumMismatch { expected: spec_checksum(payload), got: ch })
    } else {
        Ok(payload)
    }
}

/// The hexadecimal dump of `bytes`: two upper-case digits per byte, separated by
/// single spaces.
pub open spec fn spec_to_hex(bytes: Seq<u8>) -> Seq<char>
    decreases bytes.len(),
{
    if bytes.len() == 0 {
        Seq::empty()
    } else if bytes.len() == 1 {
        hex_byte(bytes[0])
    } else {
        spec_to_hex(bytes.drop_last()).push(' ') + hex_byte(bytes.last())
    }
}

proof fn lemma_take_last<T>(s: Seq<T>, i: int)
    requires
        0 <= i < s.len(),
    ensures
        s.take(i + 1).drop_last() == s.take(i),
        s.take(i + 1).last() == s[i],
{
    assert(s.take(i + 1).drop_last() =~= s.take(i));
}

/// Appends all bytes of `src` to `dst`.
fn push_all(dst: &mut Vec<u8>, src: &[u8])
    ensures
        final(dst)@ == old(dst)@ + src@,
{
    let ghost start = dst@;
    let mut i: usize = 0;
    while i < src.len()
        invariant
            i <= src.len(),
            dst@ == start + src@.take(i as int),
        decreases src.len() - i,
    {
        dst.push(src[i]);
        proof {
            lemma_take_last(src@, i as int);
            assert(dst@ =~= start + src@.take(i + 1));
        }
        i += 1;
    }
    assert(src@.take(src.len() as int) =~= src@);
}

/// The checksum of a payload: the sum of its bytes modulo 256.
pub fn checksum(payload: &[u8]) -> (ch: u8)
    ensures
        ch == spec_checksum(payload@),
{
    let mut acc: u32 = 0;
    let mut i: usize = 0;
    while i < payload.len()
        invariant
            i <= payload.len(),
            acc < 256,
            acc == byte_sum(payload@.take(i as int)) % 256,
        decreases payload.len() - i,
    {
        proof {
            lemma_take_last(payload@, i as int);
            let prev = byte_sum(payload@.take(i as int));
            vstd::arithmetic::div_mod::lemma_add_mod_noop(prev as int, payload@[i as int] as int, 256);
        }
        acc = (acc + payload[i] as u32) % 256;
        i += 1;
    }
    assert(payload@.take(payload.len() as int) =~= payload@);
    acc as u8
}

/// The frame that carries `payload`.
fn frame_of(payload: &[u8]) -> (frame: Vec<u8>)
    requires
        payload.len() + 6 <= usize::MAX,
    ensures
        frame@ == spec_frame(payload@),
{
    let n = (payload.len() % 256) as u8;
    let ch = checksum(payload);
    let mut frame: Vec<u8> = Vec::with_capacity(payload.len() + 6);
    frame.push(SOF);
    frame.push(n);
    frame.push(n);
    frame.push(SOF);
    push_all(&mut frame, payload);
    frame.push(ch);
    frame.push(EOF);
    assert(frame@ =~= spec_frame(payload@));
    frame
}

/// Builds the request frame for function `func` on a device of type
/// `device_type`, with `ddf_and_data` as the data field.
///
/// The length byte is the payload length modulo 256, so a payload longer than
/// 255 bytes is framed with a length the receiver will misread.
pub fn build_frame(func: u8, device_type: u8, ddf_and_data: &[u8]) -> (frame: Vec<u8>)
    requires
        ddf_and_data.len() + 8 <= usize::MAX,
    ensures
        frame@ == spec_frame(request_payload(func, device_type, ddf_and_data@)),
{
    let mut payload: Vec<u8> = Vec::with_capacity(2 + ddf_and_data.len());
    payload.push(func);
    payload.push(device_type);
    push_all(&mut payload, ddf_and_data);
    assert(payload@ =~= request_payload(func, device_type, ddf_and_data@));
    frame_of(payload.as_slice())
}

/// Reads the four header bytes of a received frame: the payload length that
/// follows, or why the frame is refused.
pub fn parse_frame_header(header: &[u8]) -> (res: Result<usize, FrameError>)
    requires
        header.len() == 4,
    ensures
        match res {
            Ok(n) => spec_frame_header(header@) == Ok::<nat, FrameError>(n as nat),
            Err(e) => spec_frame_header(header@) == Err::<nat, FrameError>(e),
        },
{
    if header[0] != SOF || header[3] != SOF {
        return Err(FrameError::InvalidSof(header[0], header[1], header[2], header[3]));
    }
    if header[1] != header[2] {
        return Err(FrameError::LengthMismatch(header[1], header[2]));
    }
    Ok(header[1] as usize)
}

/// Reads the `len + 2` bytes that follow the header (payload, checksum, `EOF`):
/// the payload, or why the frame is refused.
pub fn parse_frame_tail(len: usize, tail: &[u8]) -> (res: Result<Vec<u8>, FrameError>)
    requires
        tail.len() == len + 2,
    ensures
        match res {
            Ok(p) => spec_frame_tail(len as nat, tail@) == Ok::<Seq<u8>, FrameError>(p@),
            Err(e) => spec_frame_tail(len as nat, tail@) == Err::<Seq<u8>, FrameError>(e),
        },
{
    let payload = vstd::slice::slice_subrange(tail, 0, len);
    let ch = tail[len];
    let eof = tail[len + 1];
    if eof != EOF {
        return Err(FrameError::InvalidEof(eof));
    }
    let calc = checksum(payload);
    if calc != ch {
        return Err(FrameError::ChecksumMismatch { expected: calc, got: ch });
    }
    let mut out: Vec<u8> = Vec::new();
    push_all(&mut out, payload);
    assert(out@ =~= tail@.take(len as int));
    Ok(out)
}

/// The hexadecimal dump of `bytes`, as `"68 03 03 68"`.
pub fn to_hex(bytes: &[u8]) -> (s: String)
    ensures
        s@ == spec_to_hex(bytes@),
{
    let mut s = String::new();
    let mut i: usize = 0;
    while i < bytes.len()
        invariant
            i <= bytes.len(),
            s@ == spec_to_hex(bytes@.take(i as int)),
        decreases bytes.len() - i,
    {
        proof {
            lemma_take_last(bytes@, i as int);
        }
        if i > 0 {
            push_char(&mut s, ' ');
        }
        push_hex_byte(&mut s, bytes[i]);
        proof {
            if i == 0 {
                assert(s@ =~= spec_to_hex(bytes@.take(1)));
            }
        }
        i += 1;
    }
    assert(bytes@.take(bytes.len() as int) =~= bytes@);
    s
}

/// The hexadecimal dump of the frame that carries `payload`.
pub fn to_hex_payload(payload: &[u8]) -> (s: String)
    requires
        payload.len() + 6 <= usize::MAX,
    ensures
        s@ == spec_to_hex(spec_frame(payload@)),
{
    let frame = frame_of(payload);
    to_hex(frame.as_slice())
}

/// The scheme prefix that may stand before a bridge address.
pub open spec fn tcp_scheme() -> Seq<char> {
    seq!['t', 'c', 'p', ':', '/', '/']
}

/// `s` without every leading repetition of `tcp://` (as `trim_start_matches`).
pub open spec fn strip_tcp_scheme(s: Seq<char>) -> Seq<char>
    decreases s.len(),
{
    if s.len() >= 6 && s.take(6) == tcp_scheme() {
        strip_tcp_scheme(s.skip(6))
    } else {
        s
    }
}

/// The address to connect to: `addr` trimmed of white space, then without
/// every leading `tcp://`.
pub open spec fn spec_connect_target(addr: Seq<char>) -> Seq<char> {
    strip_tcp_scheme(trim(addr))
}

/// Whether `tcp://` stands in `t` at `i`.
fn scheme_at(t: &[char], i: usize) -> (b: bool)
    requires
        i <= t.len(),
    ensures
        b == (t@.skip(i as int).len() >= 6 && t@.skip(i as int).take(6) == tcp_scheme()),
{
    if t.len() - i < 6 {
        return false;
    }
    let b = t[i] == 't' && t[i + 1] == 'c' && t[i + 2] == 'p' && t[i + 3] == ':' && t[i + 4] == '/'
        && t[i + 5] == '/';
    proof {
        let w = t@.skip(i as int).take(6);
        if b {
            assert(w =~= tcp_scheme());
        } else {
            assert(w != tcp_scheme()) by {
                if w == tcp_scheme() {
                    assert(w[0] == 't' && w[1] == 'c' && w[2] == 'p');
                    assert(w[3] == ':' && w[4] == '/' && w[5] == '/');
                }
            }
        }
    }
    b
}

/// The address to connect to for `addr` (see `spec_connect_target`).
pub fn connect_target(addr: &str) -> (target: String)
    ensures
        target@ == spec_connect_target(addr@),
{
    let t = trimmed_chars(addr);
    let mut i: usize = 0;
    assert(t@.skip(0) =~= t@);
    while scheme_at(t.as_slice(), i)
        invariant
            i <= t.len(),
            strip_tcp_scheme(t@) == strip_tcp_scheme(t@.skip(i as int)),
        decreases t.len() - i,
    {
        assert(t@.skip(i as int).skip(6) =~= t@.skip(i + 6));
        i += 6;
    }
    let mut target = String::new();
    let mut j: usize = i;
    while j < t.len()
        invariant
            i <= j <= t.len(),
            target@ == t@.subrange(i as int, j as int),
        decreases t.len() - j,
    {
        push_char(&mut target, t[j]);
        assert(target@ =~= t@.subrange(i as int, j + 1));
        j += 1;
    }
    assert(t@.subrange(i as int, t.len() as int) =~= t@.skip(i as int));
    target
}

/// The checksum is the sum of all payload bytes modulo 256, whatever the
/// payload's length: the sum of no bytes is 0, appending a byte adds it to the
/// sum, and appending a byte adds it to the checksum modulo 256.
pub proof fn lemma_checksum_sums_every_byte(payload: Seq<u8>, b: u8)
    ensures
        byte_sum(Seq::<u8>::empty()) == 0,
        byte_sum(payload.push(b)) == byte_sum(payload) + b,
        spec_checksum(Seq::<u8>::empty()) == 0,
        spec_checksum(payload) as int == byte_sum(payload) % 256,
        spec_checksum(payload.push(b)) as int == (spec_checksum(payload) + b) % 256,
{
    assert(payload.push(b).drop_last() =~= payload);
    vstd::arithmetic::div_mod::lemma_add_mod_noop(byte_sum(payload) as int, b as int, 256);
}

/// The bytes of a frame: start byte, the length byte twice, start byte, the
/// payload, the sum of the payload bytes modulo 256, end byte.
pub proof fn lemma_frame_bytes(payload: Seq<u8>)
    ensures
        ({
            let f = spec_frame(payload);
            let n = payload.len();
            &&& f.len() == n + 6
            &&& f[0] == 0x68 && f[3] == 0x68
            &&& f[1] as int == n % 256 && f[2] as int == n % 256
            &&& f.subrange(4, 4 + n as int) == payload
            &&& f[4 + n as int] as int == byte_sum(payload) % 256
            &&& f[5 + n as int] == 0x0D
        }),
{
    assert(spec_frame(payload).subrange(4, 4 + payload.len() as int) =~= payload);
}

/// The hexadecimal dump of `n` bytes has `3n - 1` characters (none for no
/// byte): byte `i` is written at positions `3i` and `3i + 1`, high digit first,
/// and a space follows every byte but the last.
pub proof fn lemma_to_hex_layout(bytes: Seq<u8>)
    ensures
        spec_to_hex(bytes).len() == if bytes.len() == 0 {
            0
        } else {
            3 * bytes.len() - 1
        },
        forall|i: int|
            0 <= i < bytes.len() ==> spec_to_hex(bytes)[3 * i] == hex_digit(#[trigger] bytes[i] / 16)
                && spec_to_hex(bytes)[3 * i + 1] == hex_digit(bytes[i] % 16),
        forall|i: int| 0 <= i < bytes.len() - 1 ==> #[trigger] spec_to_hex(bytes)[3 * i + 2] == ' ',
    decreases bytes.len(),
{
    let n = bytes.len() as int;
    if n <= 1 {
        if n == 1 {
            assert(spec_to_hex(bytes) == hex_byte(bytes[0]));
        }
    } else {
        let p = bytes.drop_last();
        lemma_to_hex_layout(p);
        let h = spec_to_hex(bytes);
        let ph = spec_to_hex(p);
        assert(h == ph.push(' ') + hex_byte(bytes.last()));
        assert forall|i: int| 0 <= i < n implies h[3 * i] == hex_digit(#[trigger] bytes[i] / 16)
            && h[3 * i + 1] == hex_digit(bytes[i] % 16) by {
            if i < n - 1 {
                assert(p[i] == bytes[i]);
                assert(h[3 * i] == ph[3 * i]);
                assert(h[3 * i + 1] == ph[3 * i + 1]);
            }
        }
        assert forall|i: int| 0 <= i < n - 1 implies #[trigger] h[3 * i + 2] == ' ' by {
            if i < n - 2 {
                assert(h[3 * i + 2] == ph[3 * i + 2]);
            }
        }
    }
}

/// Stripping the scheme removes whole `tcp://` prefixes from the front of `s`
/// and nothing else: what remains ends `s`, the part removed is `tcp://`
/// repeated, and what remains does not start with `tcp://`.
pub proof fn lemma_strip_tcp_scheme(s: Seq<char>)
    ensures
        ({
            let r = strip_tcp_scheme(s);
            let cut = s.len() - r.len();
            &&& tcp_scheme() == seq!['t', 'c', 'p', ':', '/', '/']
            &&& r.len() <= s.len()
            &&& r == s.skip(cut)
            &&& cut % 6 == 0
            &&& forall|j: int| 0 <= j < cut / 6 ==> #[trigger] s.subrange(6 * j, 6 * j + 6) == tcp_scheme()
            &&& !(r.len() >= 6 && r.take(6) == tcp_scheme())
        }),
    decreases s.len(),
{
    if s.len() >= 6 && s.take(6) == tcp_scheme() {
        let t = s.skip(6);
        lemma_strip_tcp_scheme(t);
        let r = strip_tcp_scheme(s);
        let cut = s.len() - r.len();
        assert(r == strip_tcp_scheme(t));
        assert(r =~= s.skip(cut));
        assert forall|j: int| 0 <= j < cut / 6 implies #[trigger] s.subrange(6 * j, 6 * j + 6)
            == tcp_scheme() by {
            if j == 0 {
                assert(s.subrange(0, 6) =~= s.take(6));
            } else {
                assert(s.subrange(6 * j, 6 * j + 6) =~= t.subrange(6 * (j - 1), 6 * (j - 1) + 6));
            }
        }
    } else {
        assert(s.skip(0) =~= s);
    }
}

/// Every payload of at most 255 bytes comes back unchanged from the frame that
/// carries it: its header gives its length, and the rest gives the payload.
pub proof fn lemma_frame_roundtrip(payload: Seq<u8>)
    requires
        payload.len() <= 255,
    ensures
        spec_frame(payload).len() == payload.len() + 6,
        spec_frame_header(spec_frame(payload).take(4)) == Ok::<nat, FrameError>(payload.len()),
        spec_frame_tail(payload.len(), spec_frame(payload).skip(4)) == Ok::<Seq<u8>, FrameError>(
            payload,
        ),
{
    let f = spec_frame(payload);
    let tail = f.skip(4);
    assert(tail.take(payload.len() as int) =~= payload);
    assert(tail[payload.len() as int] == spec_checksum(payload));
    assert(tail[payload.len() as int + 1] == EOF);
}

/// A frame is accepted only as it is built: when its header and the bytes that
/// follow are accepted with payload `payload`, the frame is the one that carries
/// `payload`.
pub proof fn lemma_frame_accepted_only_as_built(frame: Seq<u8>, payload: Seq<u8>)
    requires
        frame.len() >= 4,
        spec_frame_header(frame.take(4)) is Ok,
        frame.len() == 4 + spec_frame_header(frame.take(4))->Ok_0 + 2,
        spec_frame_tail(spec_frame_header(frame.take(4))->Ok_0, frame.skip(4)) == Ok::<
            Seq<u8>,
            FrameError,
        >(payload),
    ensures
        frame == spec_frame(payload),
{
    let n = spec_frame_header(frame.take(4))->Ok_0;
    assert(payload.len() == n);
    assert(frame =~= spec_frame(payload));
}

} // verus!

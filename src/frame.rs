//! The self-describing frame that the local backend writes for each file:
//!
//! `[u32 header length][header][body][u32 footer length][footer]`
//!
//! All integers are big-endian. The header holds the relative path (a `u32` length and
//! its UTF-8 bytes), the size and the modification time (`u64` each) and a compression
//! flag byte. The body is the payload, or, when the flag is set, the whole payload
//! compressed as one deflate stream (not chunk by chunk), so the decoder inflates it in
//! one piece. The footer always has the same length: the CRC-32 (`u32`) and the SHA-256
//! digest of the uncompressed payload. So the body is whatever lies between the header
//! and the footer's length prefix.

use crate::bytes::{
    be32,
    be64,
    get_be32,
    get_be64,
    lemma_be32_round_trip,
    lemma_be64_round_trip,
    push_be32,
    push_be64,
    read_be32,
    read_be64,
};
use crate::checksum::{crc32, crc32_of, sha256, sha256_of};
use crate::compress::{bytes_opt, deflate, deflate_of, inflate, inflate_of};
use vstd::prelude::*;
use vstd::slice::{slice_subrange, slice_to_vec};
use vstd::utf8::{decode_utf8, encode_utf8, encode_utf8_decode_utf8, encode_utf8_valid_utf8, valid_utf8};

verus! {

/// Length of the footer: a CRC-32 and a SHA-256 digest.
pub const FOOTER_LEN: u32 = 36;

/// What a header says, as plain values.
pub struct HeaderView {
    pub path: Seq<char>,
    pub size: u64,
    pub modified_at: u64,
    pub compressed: bool,
}

/// The metadata written at the start of a frame.
#[derive(Debug, Clone)]
pub struct FrameHeader {
    pub relative_path: String,
    pub size: u64,
    pub modified_at: u64,
    pub compressed: bool,
}

impl View for FrameHeader {
    type V = HeaderView;

    open spec fn view(&self) -> HeaderView {
        HeaderView {
            path: self.relative_path@,
            size: self.size,
            modified_at: self.modified_at,
            compressed: self.compressed,
        }
    }
}

#[derive(Debug, Clone, Copy, PartialEq, Eq, Structural)]
pub enum FrameError {
    /// The bytes do not have the frame's layout.
    Malformed,
    /// The body does not give back the payload that the footer's checksums describe: it
    /// does not inflate, or the recomputed checksums differ from the footer's.
    Integrity,
}

/// The header's encoding fits its `u32` length prefix.
pub open spec fn header_fits(h: HeaderView) -> bool {
    encode_utf8(h.path).len() + 21 <= u32::MAX
}

pub open spec fn flag_byte(compressed: bool) -> u8 {
    if compressed {
        1
    } else {
        0
    }
}

#[verifier::opaque]
pub open spec fn header_bytes(h: HeaderView) -> Seq<u8> {
    let pb = encode_utf8(h.path);
    be32(pb.len() as u32) + pb + be64(h.size) + be64(h.modified_at) + seq![flag_byte(h.compressed)]
}

pub open spec fn body_bytes(h: HeaderView, p: Seq<u8>) -> Seq<u8> {
    if h.compressed {
        deflate_of(p)
    } else {
        p
    }
}

pub open spec fn footer_bytes(p: Seq<u8>) -> Seq<u8> {
    be32(crc32_of(p)) + sha256_of(p)
}

/// The frame of payload `p` under header `h`.
#[verifier::opaque]
pub open spec fn frame_bytes(h: HeaderView, p: Seq<u8>) -> Seq<u8> {
    let hb = header_bytes(h);
    let body = body_bytes(h, p);
    be32(hb.len() as u32) + hb + body + be32(FOOTER_LEN) + footer_bytes(p)
}

/// Cuts a frame into header bytes, body, footer length and footer: the header comes
/// first, the footer and its length prefix are the last bytes, and the body lies between.
#[verifier::opaque]
pub open spec fn split_frame(b: Seq<u8>) -> Option<(Seq<u8>, Seq<u8>, u32, Seq<u8>)> {
    if b.len() < 8 + FOOTER_LEN {
        None
    } else {
        let hl = read_be32(b.subrange(0, 4)) as int;
        let n = b.len() as int;
        if n < 8 + FOOTER_LEN + hl {
            None
        } else {
            Some(
                (
                    b.subrange(4, 4 + hl),
                    b.subrange(4 + hl, n - 4 - FOOTER_LEN),
                    read_be32(b.subrange(n - 4 - FOOTER_LEN, n - FOOTER_LEN)),
                    b.subrange(n - FOOTER_LEN, n),
                ),
            )
        }
    }
}

/// The header that `hb` encodes, if it is one.
#[verifier::opaque]
pub open spec fn parse_header_spec(hb: Seq<u8>) -> Option<HeaderView> {
    if hb.len() < 21 {
        None
    } else {
        let l = read_be32(hb.subrange(0, 4)) as int;
        if hb.len() != l + 21 {
            None
        } else {
            let pb = hb.subrange(4, 4 + l);
            let flag = hb[l + 20];
            if !valid_utf8(pb) || flag > 1 {
                None
            } else {
                Some(
                    HeaderView {
                        path: decode_utf8(pb),
                        size: read_be64(hb.subrange(4 + l, 12 + l)),
                        modified_at: read_be64(hb.subrange(12 + l, 20 + l)),
                        compressed: flag == 1,
                    },
                )
            }
        }
    }
}

/// The payload that a body holds under a header's compression flag.
pub open spec fn payload_of(compressed: bool, body: Seq<u8>) -> Option<Seq<u8>> {
    if compressed {
        inflate_of(body)
    } else {
        Some(body)
    }
}

/// The footer holds the CRC-32 and the SHA-256 of `p`.
pub open spec fn footer_matches(fb: Seq<u8>, p: Seq<u8>) -> bool {
    &&& read_be32(fb.subrange(0, 4)) == crc32_of(p)
    &&& fb.subrange(4, FOOTER_LEN as int) == sha256_of(p)
}

/// What decoding the bytes `b` gives.
pub open spec fn decode_spec(b: Seq<u8>) -> Result<(HeaderView, Seq<u8>), FrameError> {
    match split_frame(b) {
        None => Err(FrameError::Malformed),
        Some((hb, body, fl, fb)) => match parse_header_spec(hb) {
            None => Err(FrameError::Malformed),
            Some(h) => if fl != FOOTER_LEN {
                Err(FrameError::Malformed)
            } else {
                match payload_of(h.compressed, body) {
                    None => Err(FrameError::Integrity),
                    Some(p) => if !footer_matches(fb, p) {
                        Err(FrameError::Integrity)
                    } else {
                        Ok((h, p))
                    },
                }
            },
        },
    }
}

/// A successful decoding into header `h` and payload `p`.
pub open spec fn decoded_as(h: HeaderView, p: Seq<u8>) -> Result<(HeaderView, Seq<u8>), FrameError> {
    Ok((h, p))
}

pub open spec fn decoded_view(r: Result<(FrameHeader, Vec<u8>), FrameError>) -> Result<
    (HeaderView, Seq<u8>),
    FrameError,
> {
    match r {
        Ok((h, p)) => Ok((h@, p@)),
        Err(e) => Err(e),
    }
}

pub open spec fn string_opt(s: Option<String>) -> Option<Seq<char>> {
    match s {
        Some(t) => Some(t@),
        None => None,
    }
}

/// Relies on `std::str::from_utf8`: it accepts exactly the valid UTF-8 byte sequences
/// and then holds the characters they encode.
#[verifier::external_body]
fn utf8_string(b: &[u8]) -> (r: Option<String>)
    ensures
        string_opt(r) == (if valid_utf8(b@) {
            Some(decode_utf8(b@))
        } else {
            None
        }),
{
    std::str::from_utf8(b).ok().map(|s| s.to_string())
}

/// Encodes a header.
pub fn encode_header(h: &FrameHeader) -> (r: Vec<u8>)
    requires
        header_fits(h@),
    ensures
        r@ == header_bytes(h@),
{
    reveal(header_bytes);
    let pb = h.relative_path.as_str().as_bytes();
    let mut out: Vec<u8> = Vec::new();
    push_be32(&mut out, pb.len() as u32);
    let mut i: usize = 0;
    while i < pb.len()
        invariant
            i <= pb@.len(),
            out@ == be32(pb@.len() as u32) + pb@.subrange(0, i as int),
        decreases pb@.len() - i,
    {
        out.push(pb[i]);
        assert(pb@.subrange(0, i + 1) =~= pb@.subrange(0, i as int).push(pb@[i as int]));
        i = i + 1;
    }
    assert(pb@.subrange(0, pb@.len() as int) =~= pb@);
    push_be64(&mut out, h.size);
    push_be64(&mut out, h.modified_at);
    out.push(if h.compressed {
        1u8
    } else {
        0u8
    });
    assert(out@ =~= header_bytes(h@));
    out
}

/// Decodes header bytes.
pub fn parse_header(hb: &[u8]) -> (r: Option<FrameHeader>)
    ensures
        match r {
            Some(h) => parse_header_spec(hb@) == Some(h@),
            None => parse_header_spec(hb@) is None,
        },
{
    reveal(parse_header_spec);
    let n = hb.len();
    if n < 21 {
        return None;
    }
    let l = get_be32(hb, 0) as usize;
    if l > n - 21 || n - 21 != l {
        return None;
    }
    let flag = hb[l + 20];
    if flag > 1 {
        return None;
    }
    let pb = slice_subrange(hb, 4, 4 + l);
    match utf8_string(pb) {
        None => None,
        Some(path) => {
            let size = get_be64(hb, 4 + l);
            let modified_at = get_be64(hb, 12 + l);
            Some(FrameHeader { relative_path: path, size, modified_at, compressed: flag == 1 })
        },
    }
}

/// Whether two byte slices hold the same bytes.
pub fn bytes_equal(a: &[u8], b: &[u8]) -> (r: bool)
    ensures
        r == (a@ == b@),
{
    if a.len() != b.len() {
        return false;
    }
    let mut i: usize = 0;
    while i < a.len()
        invariant
            a@.len() == b@.len(),
            i <= a@.len(),
            forall|k: int| 0 <= k < i ==> a@[k] == b@[k],
        decreases a@.len() - i,
    {
        if a[i] != b[i] {
            return false;
        }
        i = i + 1;
    }
    assert(a@ =~= b@);
    true
}

/// Encodes payload `payload` under header `h`: header, body, then the checksums of the
/// uncompressed payload.
pub fn encode_frame(h: &FrameHeader, payload: &[u8]) -> (r: Vec<u8>)
    requires
        header_fits(h@),
    ensures
        r@ == frame_bytes(h@, payload@),
        sha256_of(payload@).len() == 32,
{
    reveal(frame_bytes);
    let hb = encode_header(h);
    let body = if h.compressed {
        deflate(payload)
    } else {
        slice_to_vec(payload)
    };
    let crc = crc32(payload);
    let sha = sha256(payload);
    let mut out: Vec<u8> = Vec::new();
    push_be32(&mut out, hb.len() as u32);
    let mut hb2 = hb;
    out.append(&mut hb2);
    let mut body2 = body;
    out.append(&mut body2);
    push_be32(&mut out, FOOTER_LEN);
    push_be32(&mut out, crc);
    let mut sha2 = sha;
    out.append(&mut sha2);
    assert(out@ =~= frame_bytes(h@, payload@));
    out
}

/// Header bytes parse back to the header they encode.
pub proof fn lemma_header_round_trip(h: HeaderView)
    requires
        header_fits(h),
    ensures
        parse_header_spec(header_bytes(h)) == Some(h),
        header_bytes(h).len() == encode_utf8(h.path).len() + 21,
{
    reveal(header_bytes);
    reveal(parse_header_spec);
    let pb = encode_utf8(h.path);
    let l = pb.len() as int;
    let hb = header_bytes(h);
    lemma_be32_round_trip(l as u32);
    lemma_be64_round_trip(h.size);
    lemma_be64_round_trip(h.modified_at);
    assert(hb.subrange(0, 4) =~= be32(l as u32));
    assert(hb.subrange(4, 4 + l) =~= pb);
    assert(hb.subrange(4 + l, 12 + l) =~= be64(h.size));
    assert(hb.subrange(12 + l, 20 + l) =~= be64(h.modified_at));
    assert(hb[l + 20] == flag_byte(h.compressed));
    encode_utf8_valid_utf8(h.path);
    encode_utf8_decode_utf8(h.path);
}

/// Header bytes, a body and footer bytes laid out as a frame.
pub open spec fn layout(hb: Seq<u8>, body: Seq<u8>, fb: Seq<u8>) -> Seq<u8> {
    be32(hb.len() as u32) + hb + body + be32(FOOTER_LEN) + fb
}

/// Laid-out parts cut back into those parts.
pub proof fn lemma_split_layout(hb: Seq<u8>, body: Seq<u8>, fb: Seq<u8>)
    requires
        hb.len() <= u32::MAX,
        fb.len() == FOOTER_LEN,
    ensures
        split_frame(layout(hb, body, fb)) == Some((hb, body, FOOTER_LEN, fb)),
{
    reveal(split_frame);
    let b = layout(hb, body, fb);
    lemma_be32_round_trip(hb.len() as u32);
    lemma_be32_round_trip(FOOTER_LEN);
    let hl = hb.len() as int;
    let n = b.len() as int;
    assert(n == 8 + FOOTER_LEN + hl + body.len());
    assert(b.subrange(0, 4) =~= be32(hb.len() as u32));
    assert(b.subrange(4, 4 + hl) =~= hb);
    assert(b.subrange(4 + hl, n - 4 - FOOTER_LEN) =~= body);
    assert(b.subrange(n - 4 - FOOTER_LEN, n - FOOTER_LEN) =~= be32(FOOTER_LEN));
    assert(b.subrange(n - FOOTER_LEN, n) =~= fb);
}

/// What the footer of the frame of `p` says.
pub proof fn lemma_footer(p: Seq<u8>)
    ensures
        footer_bytes(p).len() == 4 + sha256_of(p).len(),
        read_be32(footer_bytes(p).subrange(0, 4)) == crc32_of(p),
        footer_bytes(p).subrange(4, footer_bytes(p).len() as int) == sha256_of(p),
{
    lemma_be32_round_trip(crc32_of(p));
    assert(footer_bytes(p).subrange(0, 4) =~= be32(crc32_of(p)));
    assert(footer_bytes(p).subrange(4, footer_bytes(p).len() as int) =~= sha256_of(p));
}

/// A frame cuts back into the header bytes, the body and the footer it was built from,
/// and its header bytes parse back to the header.
pub proof fn lemma_split_frame(h: HeaderView, p: Seq<u8>)
    requires
        header_fits(h),
        sha256_of(p).len() == 32,
    ensures
        frame_bytes(h, p) == layout(header_bytes(h), body_bytes(h, p), footer_bytes(p)),
        split_frame(frame_bytes(h, p)) == Some(
            (header_bytes(h), body_bytes(h, p), FOOTER_LEN, footer_bytes(p)),
        ),
        parse_header_spec(header_bytes(h)) == Some(h),
{
    lemma_header_round_trip(h);
    lemma_footer(p);
    reveal(frame_bytes);
    lemma_split_layout(header_bytes(h), body_bytes(h, p), footer_bytes(p));
}

/// Where byte `i` of the body of a frame under `h` stands.
pub open spec fn body_offset(h: HeaderView, i: int) -> int {
    4 + header_bytes(h).len() + i
}

/// Changing one byte of a frame's body is caught: the altered frame decodes only to a
/// payload with the same CRC-32 and the same SHA-256 as the unaltered payload, and for an
/// uncompressed frame that payload is the altered one.
pub proof fn lemma_payload_change_caught(h: HeaderView, p: Seq<u8>, i: int, v: u8)
    requires
        header_fits(h),
        sha256_of(p).len() == 32,
        0 <= i < body_bytes(h, p).len(),
    ensures
        decode_spec(frame_bytes(h, p).update(body_offset(h, i), v)) matches Ok((h2, q)) ==> (
        crc32_of(q) == crc32_of(p) && sha256_of(q) == sha256_of(p) && (!h.compressed ==> q
            == p.update(i, v))),
{
    lemma_split_frame(h, p);
    lemma_header_round_trip(h);
    lemma_footer(p);
    let hb = header_bytes(h);
    let fb = footer_bytes(p);
    let body2 = body_bytes(h, p).update(i, v);
    let b2 = frame_bytes(h, p).update(body_offset(h, i), v);
    assert(b2 =~= layout(hb, body2, fb));
    lemma_split_layout(hb, body2, fb);
    assert(fb.subrange(4, FOOTER_LEN as int) == sha256_of(p));
    if let Ok((h2, q)) = decode_spec(b2) {
        assert(payload_of(h.compressed, body2) == Some(q));
        assert(footer_matches(fb, q));
    }
}

/// The payload that a body holds: the body itself, or what inflating it gives.
fn payload_from_body(compressed: bool, body: &[u8]) -> (r: Option<Vec<u8>>)
    ensures
        bytes_opt(r) == payload_of(compressed, body@),
        compressed ==> forall|x: Seq<u8>| #[trigger]
            deflate_of(x) == body@ ==> inflate_of(body@) == Some(x),
{
    if compressed {
        inflate(body)
    } else {
        Some(slice_to_vec(body))
    }
}

/// Cuts `b` into header bytes, body, footer length and footer.
fn split_frame_exec(b: &[u8]) -> (r: Option<(&[u8], &[u8], u32, &[u8])>)
    ensures
        match r {
            None => split_frame(b@) is None,
            Some((hb, body, fl, fb)) => split_frame(b@) == Some((hb@, body@, fl, fb@)) && fb@.len()
                == FOOTER_LEN,
        },
{
    reveal(split_frame);
    let n = b.len();
    if n < 44 {
        return None;
    }
    let hl = get_be32(b, 0) as usize;
    if hl > n - 44 {
        return None;
    }
    let hb = slice_subrange(b, 4, 4 + hl);
    let body = slice_subrange(b, 4 + hl, n - 40);
    let fl = get_be32(b, n - 40);
    let fb = slice_subrange(b, n - 36, n);
    Some((hb, body, fl, fb))
}

/// Every frame of a header that fits splits and parses back into its parts.
proof fn lemma_frames_split(b: Seq<u8>)
    ensures
        forall|h: HeaderView, p: Seq<u8>|
            header_fits(h) && sha256_of(p).len() == 32 && #[trigger] frame_bytes(h, p) == b
                ==> split_frame(b) == Some(
                (header_bytes(h), body_bytes(h, p), FOOTER_LEN, footer_bytes(p)),
            ) && parse_header_spec(header_bytes(h)) == Some(h),
{
    assert forall|h: HeaderView, p: Seq<u8>|
        header_fits(h) && sha256_of(p).len() == 32 && #[trigger] frame_bytes(h, p)
            == b implies split_frame(b) == Some(
        (header_bytes(h), body_bytes(h, p), FOOTER_LEN, footer_bytes(p)),
    ) && parse_header_spec(header_bytes(h)) == Some(h) by {
        lemma_split_frame(h, p);
    }
}

/// Once `b` has split and parsed, and its body has given up its payload, a frame of any
/// `h` and `p` decodes to `h` and `p`.
proof fn lemma_frames_decode(b: Seq<u8>, body: Seq<u8>, hv: HeaderView, pay: Seq<u8>)
    requires
        split_frame(b) matches Some((hb, bd, fl, fb)) && bd == body && parse_header_spec(hb)
            == Some(hv),
        payload_of(hv.compressed, body) == Some(pay),
        hv.compressed ==> forall|x: Seq<u8>| #[trigger]
            deflate_of(x) == body ==> inflate_of(body) == Some(x),
    ensures
        forall|h: HeaderView, p: Seq<u8>|
            header_fits(h) && sha256_of(p).len() == 32 && #[trigger] frame_bytes(h, p) == b
                ==> decode_spec(b) == decoded_as(h, p),
{
    assert forall|h: HeaderView, p: Seq<u8>|
        header_fits(h) && sha256_of(p).len() == 32 && #[trigger] frame_bytes(h, p)
            == b implies decode_spec(b) == decoded_as(h, p) by {
        lemma_split_frame(h, p);
        lemma_footer(p);
        assert(hv == h);
        assert(body == body_bytes(h, p));
        if h.compressed {
            assert(deflate_of(p) == body);
        }
        assert(pay == p);
        assert(footer_matches(footer_bytes(p), p));
    }
}

/// Decodes a frame and checks the payload against the footer's checksums. A frame that
/// `encode_frame` wrote decodes to its header and payload, compressed or not.
pub fn decode_frame(b: &[u8]) -> (r: Result<(FrameHeader, Vec<u8>), FrameError>)
    ensures
        decoded_view(r) == decode_spec(b@),
        forall|h: HeaderView, p: Seq<u8>|
            header_fits(h) && sha256_of(p).len() == 32 && #[trigger] frame_bytes(h, p) == b@
                ==> decode_spec(b@) == decoded_as(h, p),
{
    proof {
        lemma_frames_split(b@);
    }
    let (hb, body, fl, fb) = match split_frame_exec(b) {
        None => {
            return Err(FrameError::Malformed);
        },
        Some(parts) => parts,
    };
    let header = match parse_header(hb) {
        None => {
            return Err(FrameError::Malformed);
        },
        Some(h) => h,
    };
    if fl != FOOTER_LEN {
        return Err(FrameError::Malformed);
    }
    let payload = match payload_from_body(header.compressed, body) {
        None => {
            proof {
                assert forall|h: HeaderView, p: Seq<u8>|
                    header_fits(h) && sha256_of(p).len() == 32 && #[trigger] frame_bytes(h, p)
                        == b@ implies decode_spec(b@) == decoded_as(h, p) by {
                    if h.compressed {
                        assert(deflate_of(p) == body@);
                    }
                }
            }
            return Err(FrameError::Integrity);
        },
        Some(p) => p,
    };
    proof {
        lemma_frames_decode(b@, body@, header@, payload@);
    }
    let crc = crc32(payload.as_slice());
    let sha = sha256(payload.as_slice());
    let stored_crc = get_be32(fb, 0);
    let stored_sha = slice_subrange(fb, 4, 36);
    if stored_crc != crc || !bytes_equal(stored_sha, sha.as_slice()) {
        return Err(FrameError::Integrity);
    }
    Ok((header, payload))
}

} // verus!

use vstd::prelude::*;
use vstd::string::StringSliceAdditionalSpecFns;
use vstd::utf8::encode_utf8;
use crate::frames::{AudioRaw, CHANNELS, MAX_FRAMES};
use base64::engine::general_purpose;
use base64::Engine;
use flate2::write::ZlibEncoder;
use flate2::Compression;
use std::io::Write;

verus! {

broadcast use vstd::string::is_ascii_spec_bytes;

// ---------------------------------------------------------------------------
// The binary form: a CBOR map with the buffer's six fields.

/// The low `n` bytes of `v`, most significant first.
pub open spec fn be_bytes(v: nat, n: nat) -> Seq<u8>
    decreases n,
{
    if n == 0 {
        Seq::empty()
    } else {
        be_bytes(v / 256, (n - 1) as nat).push((v % 256) as u8)
    }
}

/// The shortest CBOR head of major type `major` with argument `arg`.
pub open spec fn head(major: u8, arg: nat) -> Seq<u8> {
    let m = (major * 32) as u8;
    if arg < 24 {
        seq![(m + arg) as u8]
    } else if arg < 0x100 {
        seq![(m + 24) as u8] + be_bytes(arg, 1)
    } else if arg < 0x1_0000 {
        seq![(m + 25) as u8] + be_bytes(arg, 2)
    } else if arg < 0x1_0000_0000 {
        seq![(m + 26) as u8] + be_bytes(arg, 4)
    } else {
        seq![(m + 27) as u8] + be_bytes(arg, 8)
    }
}

/// A CBOR integer: major type 0 for `v >= 0`, major type 1 with `-1 - v` below.
pub open spec fn int_item(v: int) -> Seq<u8> {
    if v >= 0 {
        head(0, v as nat)
    } else {
        head(1, (-1 - v) as nat)
    }
}

/// A CBOR text string: its length in bytes, then its UTF-8 bytes.
pub open spec fn text_item(s: Seq<char>) -> Seq<u8> {
    head(3, encode_utf8(s).len()) + encode_utf8(s)
}

/// The samples of one frame, in channel order.
pub open spec fn row_items(row: Seq<i16>) -> Seq<u8>
    decreases row.len(),
{
    if row.len() == 0 {
        Seq::empty()
    } else {
        row_items(row.drop_last()) + int_item(row.last() as int)
    }
}

/// All samples of the matrix, frame by frame.
pub open spec fn matrix_items(m: Seq<Seq<i16>>) -> Seq<u8>
    decreases m.len(),
{
    if m.len() == 0 {
        Seq::empty()
    } else {
        matrix_items(m.drop_last()) + row_items(m.last())
    }
}

/// The head of the matrix map: format version 1, the dimensions
/// `[frames, channels]`, and the head of the sample array.
pub open spec fn matrix_prefix(frames: nat, channels: nat) -> Seq<u8> {
    head(5, 3) + text_item("v"@) + int_item(1) + text_item("dim"@) + head(4, 2)
        + int_item(frames as int) + int_item(channels as int) + text_item("data"@)
        + head(4, frames * channels)
}

/// The matrix as a three-field map whose samples come frame-major.
pub open spec fn matrix_cbor(m: Seq<Seq<i16>>, frames: nat, channels: nat) -> Seq<u8> {
    matrix_prefix(frames, channels) + matrix_items(m)
}

/// The fields `rt` and `ml`.
pub open spec fn tags_cbor(rt: Seq<char>, ml: Seq<char>) -> Seq<u8> {
    text_item("rt"@) + text_item(rt) + text_item("ml"@) + text_item(ml)
}

/// The fields `cc`, `sc` and `sr`.
pub open spec fn counts_cbor(cc: nat, sc: nat, sr: int) -> Seq<u8> {
    text_item("cc"@) + int_item(cc as int) + text_item("sc"@) + int_item(sc as int)
        + text_item("sr"@) + int_item(sr)
}

/// The whole buffer as a six-field map keyed `r`, `rt`, `ml`, `cc`, `sc`, `sr`.
pub open spec fn audio_raw_cbor(ar: AudioRaw) -> Seq<u8> {
    head(5, 6) + text_item("r"@) + matrix_cbor(ar.matrix(), ar.sc as nat, ar.cc as nat)
        + tags_cbor(ar.rt@, ar.ml@) + counts_cbor(ar.cc as nat, ar.sc as nat, ar.sr as int)
}

fn push_be(out: &mut Vec<u8>, v: u64, n: usize)
    requires
        n <= 8,
    ensures
        final(out)@ == old(out)@ + be_bytes(v as nat, n as nat),
    decreases n,
{
    if n > 0 {
        push_be(out, v / 256, n - 1);
        out.push((v % 256) as u8);
        assert(final(out)@ =~= old(out)@ + be_bytes(v as nat, n as nat));
    } else {
        assert(out@ =~= old(out)@ + be_bytes(v as nat, n as nat));
    }
}

fn push_head(out: &mut Vec<u8>, major: u8, arg: u64)
    requires
        major < 8,
    ensures
        final(out)@ == old(out)@ + head(major, arg as nat),
{
    let m: u8 = major * 32;
    if arg < 24 {
        out.push(m + arg as u8);
    } else if arg < 0x100 {
        out.push(m + 24);
        push_be(out, arg, 1);
    } else if arg < 0x1_0000 {
        out.push(m + 25);
        push_be(out, arg, 2);
    } else if arg < 0x1_0000_0000 {
        out.push(m + 26);
        push_be(out, arg, 4);
    } else {
        out.push(m + 27);
        push_be(out, arg, 8);
    }
    assert(final(out)@ =~= old(out)@ + head(major, arg as nat));
}

fn push_int(out: &mut Vec<u8>, v: i64)
    ensures
        final(out)@ == old(out)@ + int_item(v as int),
{
    if v >= 0 {
        push_head(out, 0, v as u64);
    } else {
        push_head(out, 1, (-1 - v) as u64);
    }
}

fn push_text(out: &mut Vec<u8>, s: &str)
    ensures
        final(out)@ == old(out)@ + text_item(s@),
{
    let b = s.as_bytes();
    push_head(out, 3, b.len() as u64);
    let ghost start = out@;
    let mut i: usize = 0;
    while i < b.len()
        invariant
            b@ == s.spec_bytes(),
            s.spec_bytes() == encode_utf8(s@),
            i <= b@.len(),
            start == old(out)@ + head(3, encode_utf8(s@).len()),
            out@ == start + b@.take(i as int),
        decreases b@.len() - i,
    {
        out.push(b[i]);
        i = i + 1;
        assert(out@ =~= start + b@.take(i as int));
    }
    assert(b@.take(i as int) =~= b@);
}

fn push_matrix_prefix(out: &mut Vec<u8>, frames: usize, channels: usize)
    requires
        frames <= MAX_FRAMES,
        channels == CHANNELS,
    ensures
        final(out)@ == old(out)@ + matrix_prefix(frames as nat, channels as nat),
{
    push_head(out, 5, 3);
    push_text(out, "v");
    push_int(out, 1);
    push_text(out, "dim");
    push_head(out, 4, 2);
    push_int(out, frames as i64);
    push_int(out, channels as i64);
    push_text(out, "data");
    push_head(out, 4, (frames as u64) * (channels as u64));
    assert(final(out)@ =~= old(out)@ + matrix_prefix(frames as nat, channels as nat));
}

fn push_matrix_items(out: &mut Vec<u8>, ar: &AudioRaw)
    requires
        ar.wf(),
    ensures
        final(out)@ == old(out)@ + matrix_items(ar.matrix()),
{
    let ghost start = out@;
    let mut f: usize = 0;
    while f < ar.sc
        invariant
            ar.wf(),
            f <= ar.sc,
            start == old(out)@,
            out@ == start + matrix_items(ar.matrix().take(f as int)),
        decreases ar.sc - f,
    {
        let ghost before = out@;
        let ghost row = ar.matrix()[f as int];
        let mut c: usize = 0;
        while c < CHANNELS
            invariant
                ar.wf(),
                f < ar.sc,
                row == ar.matrix()[f as int],
                row.len() == CHANNELS,
                c <= CHANNELS,
                out@ == before + row_items(row.take(c as int)),
            decreases CHANNELS - c,
        {
            let v = ar.r.get(f, c);
            push_int(out, v as i64);
            proof {
                let t = row.take(c + 1);
                assert(t.drop_last() =~= row.take(c as int));
            }
            c = c + 1;
            assert(out@ =~= before + row_items(row.take(c as int)));
        }
        proof {
            let t = ar.matrix().take(f + 1);
            assert(t.drop_last() =~= ar.matrix().take(f as int));
            assert(row.take(c as int) =~= row);
        }
        f = f + 1;
        assert(out@ =~= start + matrix_items(ar.matrix().take(f as int)));
    }
    assert(ar.matrix().take(f as int) =~= ar.matrix());
}

fn push_tags(out: &mut Vec<u8>, rt: &str, ml: &str)
    ensures
        final(out)@ == old(out)@ + tags_cbor(rt@, ml@),
{
    push_text(out, "rt");
    push_text(out, rt);
    push_text(out, "ml");
    push_text(out, ml);
    assert(final(out)@ =~= old(out)@ + tags_cbor(rt@, ml@));
}

fn push_counts(out: &mut Vec<u8>, cc: usize, sc: usize, sr: i32)
    requires
        cc == CHANNELS,
        sc <= MAX_FRAMES,
    ensures
        final(out)@ == old(out)@ + counts_cbor(cc as nat, sc as nat, sr as int),
{
    push_text(out, "cc");
    push_int(out, cc as i64);
    push_text(out, "sc");
    push_int(out, sc as i64);
    push_text(out, "sr");
    push_int(out, sr as i64);
    assert(final(out)@ =~= old(out)@ + counts_cbor(cc as nat, sc as nat, sr as int));
}

/// The binary form of a buffer: a CBOR map of its six fields, the matrix
/// written as its format version, dimensions and samples.
pub fn encode_audio_raw(ar: &AudioRaw) -> (bytes: Vec<u8>)
    requires
        ar.wf(),
    ensures
        bytes@ == audio_raw_cbor(*ar),
{
    let mut out: Vec<u8> = Vec::new();
    push_head(&mut out, 5, 6);
    push_text(&mut out, "r");
    push_matrix_prefix(&mut out, ar.sc, ar.cc);
    push_matrix_items(&mut out, ar);
    push_tags(&mut out, ar.rt.as_str(), ar.ml.as_str());
    push_counts(&mut out, ar.cc, ar.sc, ar.sr);
    assert(out@ =~= audio_raw_cbor(*ar));
    out
}

// ---------------------------------------------------------------------------
// The text form: compressed, then URL-safe base64 without padding.

/// Inputs that the base64 encoder can size without overflow.
pub const MAX_TEXT_INPUT: usize = usize::MAX / 2;

/// The URL-safe base64 alphabet, digit values 0 to 63 in order.
pub open spec fn url_safe_alphabet() -> Seq<char> {
    "ABCDEFGHIJKLMNOPQRSTUVWXYZabcdefghijklmnopqrstuvwxyz0123456789-_"@
}

pub open spec fn b64_digit(v: int) -> char {
    url_safe_alphabet()[v]
}

/// URL-safe base64 of `s` without padding: four digits for each three
/// bytes, and two or three digits for a final group of one or two bytes.
pub open spec fn b64url(s: Seq<u8>) -> Seq<char>
    decreases s.len(),
{
    let a = s[0] as int;
    let b = s[1] as int;
    let c = s[2] as int;
    if s.len() == 0 {
        Seq::empty()
    } else if s.len() == 1 {
        seq![b64_digit(a / 4), b64_digit((a % 4) * 16)]
    } else if s.len() == 2 {
        seq![b64_digit(a / 4), b64_digit((a % 4) * 16 + b / 16), b64_digit((b % 16) * 4)]
    } else {
        seq![
            b64_digit(a / 4),
            b64_digit((a % 4) * 16 + b / 16),
            b64_digit((b % 16) * 4 + c / 64),
            b64_digit(c % 64),
        ] + b64url(s.skip(3))
    }
}

/// The value of a URL-safe base64 digit.
pub open spec fn b64_value(ch: char) -> int {
    let n = ch as int;
    if 65 <= n <= 90 {
        n - 65
    } else if 97 <= n <= 122 {
        n - 71
    } else if 48 <= n <= 57 {
        n + 4
    } else if n == 45 {
        62
    } else {
        63
    }
}

/// Bytes back from URL-safe base64 without padding: three bytes for each
/// four digits, and one or two bytes for a final group of two or three.
pub open spec fn b64url_decode(t: Seq<char>) -> Seq<u8>
    decreases t.len(),
{
    let d0 = b64_value(t[0]);
    let d1 = b64_value(t[1]);
    let d2 = b64_value(t[2]);
    let d3 = b64_value(t[3]);
    if t.len() < 2 {
        Seq::empty()
    } else if t.len() == 2 {
        seq![(d0 * 4 + d1 / 16) as u8]
    } else if t.len() == 3 {
        seq![(d0 * 4 + d1 / 16) as u8, ((d1 % 16) * 16 + d2 / 4) as u8]
    } else {
        seq![
            (d0 * 4 + d1 / 16) as u8,
            ((d1 % 16) * 16 + d2 / 4) as u8,
            ((d2 % 4) * 64 + d3) as u8,
        ] + b64url_decode(t.skip(4))
    }
}

proof fn lemma_digit_reads_back(v: int)
    requires
        0 <= v < 64,
    ensures
        b64_value(b64_digit(v)) == v,
{
    reveal_strlit("ABCDEFGHIJKLMNOPQRSTUVWXYZabcdefghijklmnopqrstuvwxyz0123456789-_");
    assert(url_safe_alphabet().len() == 64);
}

proof fn lemma_group_reads_back(x: int, y: int, z: int)
    requires
        0 <= x < 256,
        0 <= y < 256,
        0 <= z < 256,
    ensures
        0 <= x / 4 < 64,
        0 <= (x % 4) * 16 + y / 16 < 64,
        0 <= (y % 16) * 4 + z / 64 < 64,
        0 <= (x % 4) * 16 < 64,
        0 <= (y % 16) * 4 < 64,
        (x / 4) * 4 + ((x % 4) * 16 + y / 16) / 16 == x,
        (x / 4) * 4 + ((x % 4) * 16) / 16 == x,
        (((x % 4) * 16 + y / 16) % 16) * 16 + ((y % 16) * 4 + z / 64) / 4 == y,
        (((x % 4) * 16 + y / 16) % 16) * 16 + ((y % 16) * 4) / 4 == y,
        (((y % 16) * 4 + z / 64) % 4) * 64 + z % 64 == z,
{
    assert(0 <= (x % 4) * 16 + y / 16 < 64) by (nonlinear_arith)
        requires 0 <= x < 256, 0 <= y < 256;
    assert(0 <= (y % 16) * 4 + z / 64 < 64) by (nonlinear_arith)
        requires 0 <= y < 256, 0 <= z < 256;
    assert((x / 4) * 4 + ((x % 4) * 16 + y / 16) / 16 == x) by (nonlinear_arith)
        requires 0 <= x < 256, 0 <= y < 256;
    assert((x / 4) * 4 + ((x % 4) * 16) / 16 == x) by (nonlinear_arith)
        requires 0 <= x < 256;
    assert((((x % 4) * 16 + y / 16) % 16) * 16 + ((y % 16) * 4 + z / 64) / 4 == y) by (nonlinear_arith)
        requires 0 <= x < 256, 0 <= y < 256, 0 <= z < 256;
    assert((((x % 4) * 16 + y / 16) % 16) * 16 + ((y % 16) * 4) / 4 == y) by (nonlinear_arith)
        requires 0 <= x < 256, 0 <= y < 256;
    assert((((y % 16) * 4 + z / 64) % 4) * 64 + z % 64 == z) by (nonlinear_arith)
        requires 0 <= y < 256, 0 <= z < 256;
}

/// The text form decodes back: URL-safe base64 without padding loses
/// nothing of the bytes it was written from.
pub proof fn lemma_text_decodes_back(s: Seq<u8>)
    ensures
        b64url_decode(b64url(s)) == s,
    decreases s.len(),
{
    if s.len() > 0 {
        let x = s[0] as int;
        let y = if s.len() > 1 { s[1] as int } else { 0 };
        let z = if s.len() > 2 { s[2] as int } else { 0 };
        lemma_group_reads_back(x, y, z);
        lemma_digit_reads_back(x / 4);
        lemma_digit_reads_back((x % 4) * 16 + y / 16);
        lemma_digit_reads_back((y % 16) * 4 + z / 64);
        lemma_digit_reads_back((x % 4) * 16);
        lemma_digit_reads_back((y % 16) * 4);
        lemma_digit_reads_back(z % 64);
        let t = b64url(s);
        if s.len() >= 3 {
            lemma_text_decodes_back(s.skip(3));
            assert(t.skip(4) =~= b64url(s.skip(3)));
            assert(s =~= seq![s[0], s[1], s[2]] + s.skip(3));
        }
        assert(b64url_decode(t) =~= s);
    }
}

/// What a zlib stream at the default compression level holds for `data`.
/// The encoder is deterministic, so this is a function of `data` alone.
pub uninterp spec fn zlib_of(data: Seq<u8>) -> Seq<u8>;

/// Relies on flate2's `ZlibEncoder` over a `Vec<u8>` at `Compression::default()`:
/// `write_all` of the data, then `finish`. A failed write leaves what was
/// flushed so far, which `finish` closes; a failed `finish` leaves nothing.
#[verifier::external_body]
fn zlib_compress(data: &[u8]) -> (compressed: Vec<u8>)
    ensures
        compressed@ == zlib_of(data@),
{
    let mut encoder = ZlibEncoder::new(Vec::new(), Compression::default());
    let _ = encoder.write_all(data);
    encoder.finish().unwrap_or_default()
}

/// Relies on base64's `general_purpose::URL_SAFE_NO_PAD.encode`, which
/// panics only where the output length overflows `usize`.
#[verifier::external_body]
fn base64_url_encode(bytes: &[u8]) -> (text: String)
    requires
        bytes@.len() <= MAX_TEXT_INPUT,
    ensures
        text@ == b64url(bytes@),
{
    general_purpose::URL_SAFE_NO_PAD.encode(bytes)
}

/// The text form of compressed bytes.
pub fn payload_text(compressed: &Vec<u8>) -> (text: String)
    requires
        compressed@.len() <= MAX_TEXT_INPUT,
    ensures
        text@ == b64url(compressed@),
{
    base64_url_encode(compressed.as_slice())
}

/// The text that carries a buffer: its binary form, compressed with zlib,
/// in URL-safe base64 without padding. `None` only where the compressed
/// form is too long to be sized as text.
pub fn convert_audio_raw_struct_to_base64_string(ar: AudioRaw) -> (text: Option<String>)
    requires
        ar.wf(),
    ensures
        zlib_of(audio_raw_cbor(ar)).len() <= MAX_TEXT_INPUT <==> text.is_some(),
        text matches Some(t) ==> t@ == b64url(zlib_of(audio_raw_cbor(ar))),
{
    let data = encode_audio_raw(&ar);
    let compressed = zlib_compress(data.as_slice());
    if compressed.len() <= MAX_TEXT_INPUT {
        Some(payload_text(&compressed))
    } else {
        None
    }
}

/// Two buffers with the same samples, tags, counts and rate.
pub open spec fn same_buffer(a: AudioRaw, b: AudioRaw) -> bool {
    &&& a.matrix() == b.matrix()
    &&& a.rt@ == b.rt@
    &&& a.ml@ == b.ml@
    &&& a.cc == b.cc
    &&& a.sc == b.sc
    &&& a.sr == b.sr
}

/// Encoding is deterministic: equal buffers give the same binary form, the
/// same compressed bytes and the same text.
pub proof fn lemma_encoding_deterministic(a: AudioRaw, b: AudioRaw)
    requires
        a.wf(),
        b.wf(),
        same_buffer(a, b),
    ensures
        audio_raw_cbor(a) == audio_raw_cbor(b),
        b64url(zlib_of(audio_raw_cbor(a))) == b64url(zlib_of(audio_raw_cbor(b))),
{
}

} // verus!

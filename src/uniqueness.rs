use vstd::prelude::*;
use crate::frames::{AudioRaw, CHANNELS, format_tag, layout_tag};
use crate::payload::{
    be_bytes, head, int_item, text_item, row_items, matrix_items, matrix_prefix, tags_cbor,
    counts_cbor, audio_raw_cbor, same_buffer,
};

verus! {

/// `256` to the power `n`.
pub open spec fn radix(n: nat) -> nat
    decreases n,
{
    if n == 0 {
        1
    } else {
        256 * radix((n - 1) as nat)
    }
}

/// The number that bytes stand for, most significant first.
pub open spec fn be_value(s: Seq<u8>) -> nat
    decreases s.len(),
{
    if s.len() == 0 {
        0
    } else {
        be_value(s.drop_last()) * 256 + s.last() as nat
    }
}

/// The length of a CBOR head, read from its first byte.
pub open spec fn head_len(b0: u8) -> nat {
    let a = b0 % 32;
    if a < 24 {
        1
    } else if a == 24 {
        2
    } else if a == 25 {
        3
    } else if a == 26 {
        5
    } else {
        9
    }
}

/// The argument of the CBOR head that starts `b`.
pub open spec fn head_arg(b: Seq<u8>) -> nat {
    let a = b[0] % 32;
    if a < 24 {
        a as nat
    } else {
        be_value(b.subrange(1, head_len(b[0]) as int))
    }
}

proof fn lemma_be_round_trip(v: nat, n: nat)
    requires
        v < radix(n),
    ensures
        be_bytes(v, n).len() == n,
        be_value(be_bytes(v, n)) == v,
    decreases n,
{
    if n > 0 {
        let r = radix((n - 1) as nat);
        assert(v / 256 < r) by (nonlinear_arith)
            requires v < 256 * r;
        lemma_be_round_trip(v / 256, (n - 1) as nat);
        let s = be_bytes(v, n);
        assert(s.drop_last() =~= be_bytes(v / 256, (n - 1) as nat));
        assert(v == (v / 256) * 256 + v % 256) by (nonlinear_arith);
    }
}

proof fn lemma_radix_values()
    ensures
        radix(1) == 0x100,
        radix(2) == 0x1_0000,
        radix(4) == 0x1_0000_0000,
        radix(8) == 0x1_0000_0000_0000_0000,
{
    reveal_with_fuel(radix, 9);
}

proof fn lemma_head_reads_back(major: u8, x: nat, s: Seq<u8>)
    requires
        major < 8,
        x < 0x1_0000_0000_0000_0000,
    ensures
        (head(major, x) + s)[0] / 32 == major,
        head_len((head(major, x) + s)[0]) == head(major, x).len(),
        head_arg(head(major, x) + s) == x,
{
    lemma_radix_values();
    let b = head(major, x) + s;
    let m = (major * 32) as u8;
    assert(major * 32 + 27 < 256) by (nonlinear_arith)
        requires major < 8;
    if x < 24 {
        assert(b[0] == (m + x) as u8);
        assert(b[0] % 32 == x && b[0] / 32 == major) by (nonlinear_arith)
            requires b[0] == major * 32 + x, x < 24;
    } else {
        let n: nat = if x < 0x100 { 1 } else if x < 0x1_0000 { 2 } else if x < 0x1_0000_0000 { 4 } else { 8 };
        let k: int = if x < 0x100 { 24 } else if x < 0x1_0000 { 25 } else if x < 0x1_0000_0000 { 26 } else { 27 };
        assert(head(major, x) == seq![(m + k) as u8] + be_bytes(x, n));
        lemma_be_round_trip(x, n);
        assert(b[0] == major * 32 + k);
        assert(b[0] % 32 == k && b[0] / 32 == major) by (nonlinear_arith)
            requires b[0] == major * 32 + k, 24 <= k < 28;
        assert(b.subrange(1, 1 + n as int) =~= be_bytes(x, n));
    }
}

/// Equal sequences that start with heads of one major type start with the
/// same head.
proof fn lemma_head_injective(major: u8, x: nat, s: Seq<u8>, y: nat, t: Seq<u8>)
    requires
        major < 8,
        x < 0x1_0000_0000_0000_0000,
        y < 0x1_0000_0000_0000_0000,
        head(major, x) + s == head(major, y) + t,
    ensures
        x == y,
        s == t,
{
    lemma_head_reads_back(major, x, s);
    lemma_head_reads_back(major, y, t);
    assert(s =~= (head(major, x) + s).skip(head(major, x).len() as int));
    assert(t =~= (head(major, y) + t).skip(head(major, y).len() as int));
}

proof fn lemma_int_injective(x: int, s: Seq<u8>, y: int, t: Seq<u8>)
    requires
        -0x8000_0000_0000_0000 <= x < 0x8000_0000_0000_0000,
        -0x8000_0000_0000_0000 <= y < 0x8000_0000_0000_0000,
        int_item(x) + s == int_item(y) + t,
    ensures
        x == y,
        s == t,
{
    let mx: u8 = if x >= 0 { 0 } else { 1 };
    let my: u8 = if y >= 0 { 0 } else { 1 };
    let ax: nat = if x >= 0 { x as nat } else { (-1 - x) as nat };
    let ay: nat = if y >= 0 { y as nat } else { (-1 - y) as nat };
    lemma_head_reads_back(mx, ax, s);
    lemma_head_reads_back(my, ay, t);
    assert(mx == my);
    lemma_head_injective(mx, ax, s, ay, t);
}

proof fn lemma_skip_common_prefix(p: Seq<u8>, s: Seq<u8>, t: Seq<u8>)
    requires
        p + s == p + t,
    ensures
        s == t,
{
    assert(s =~= (p + s).skip(p.len() as int));
    assert(t =~= (p + t).skip(p.len() as int));
}

proof fn lemma_matrix_items_front(m: Seq<Seq<i16>>)
    requires
        m.len() > 0,
    ensures
        matrix_items(m) == row_items(m[0]) + matrix_items(m.skip(1)),
    decreases m.len(),
{
    if m.len() == 1 {
        assert(m.drop_last() =~= Seq::<Seq<i16>>::empty());
        assert(m.skip(1) =~= Seq::<Seq<i16>>::empty());
        assert(matrix_items(m) =~= row_items(m[0]) + matrix_items(m.skip(1)));
    } else {
        lemma_matrix_items_front(m.drop_last());
        assert(m.drop_last().skip(1) =~= m.skip(1).drop_last());
        assert(m.skip(1).last() == m.last());
        assert(matrix_items(m) =~= row_items(m[0]) + matrix_items(m.skip(1)));
    }
}

proof fn lemma_pair_items(row: Seq<i16>)
    requires
        row.len() == 2,
    ensures
        row_items(row) == int_item(row[0] as int) + int_item(row[1] as int),
{
    let r1 = row.drop_last();
    assert(r1.drop_last() =~= Seq::<i16>::empty());
    assert(row_items(r1.drop_last()) == Seq::<u8>::empty());
    assert(r1.last() == row[0]);
    assert(row_items(r1) == row_items(r1.drop_last()) + int_item(r1.last() as int));
    assert(row_items(r1) =~= int_item(row[0] as int));
    assert(row_items(row) == row_items(r1) + int_item(row.last() as int));
}

proof fn lemma_matrix_injective(ma: Seq<Seq<i16>>, s: Seq<u8>, mb: Seq<Seq<i16>>, t: Seq<u8>)
    requires
        ma.len() == mb.len(),
        forall|f: int| 0 <= f < ma.len() ==> (#[trigger] ma[f]).len() == CHANNELS,
        forall|f: int| 0 <= f < mb.len() ==> (#[trigger] mb[f]).len() == CHANNELS,
        matrix_items(ma) + s == matrix_items(mb) + t,
    ensures
        ma == mb,
        s == t,
    decreases ma.len(),
{
    if ma.len() == 0 {
        assert(matrix_items(ma) + s =~= s);
        assert(matrix_items(mb) + t =~= t);
        assert(ma =~= mb);
    } else {
        lemma_matrix_items_front(ma);
        lemma_matrix_items_front(mb);
        lemma_pair_items(ma[0]);
        lemma_pair_items(mb[0]);
        let ra = matrix_items(ma.skip(1)) + s;
        let rb = matrix_items(mb.skip(1)) + t;
        let a0 = ma[0][0] as int;
        let a1 = ma[0][1] as int;
        let b0 = mb[0][0] as int;
        let b1 = mb[0][1] as int;
        assert(int_item(a0) + (int_item(a1) + ra) =~= matrix_items(ma) + s);
        assert(int_item(b0) + (int_item(b1) + rb) =~= matrix_items(mb) + t);
        lemma_int_injective(a0, int_item(a1) + ra, b0, int_item(b1) + rb);
        lemma_int_injective(a1, ra, b1, rb);
        lemma_matrix_injective(ma.skip(1), s, mb.skip(1), t);
        assert(ma[0] =~= mb[0]);
        assert forall|f: int| 0 <= f < ma.len() implies ma[f] == mb[f] by {
            if f > 0 {
                assert(ma[f] == ma.skip(1)[f - 1]);
                assert(mb[f] == mb.skip(1)[f - 1]);
            }
        }
        assert(ma =~= mb);
    }
}

/// The part of the binary form before the frame count.
spec fn opening() -> Seq<u8> {
    head(5, 6) + text_item("r"@) + head(5, 3) + text_item("v"@) + int_item(1) + text_item("dim"@)
        + head(4, 2)
}

/// The part between the frame count and the samples.
spec fn middle(sc: nat) -> Seq<u8> {
    int_item(CHANNELS as int) + text_item("data"@) + head(4, sc * CHANNELS as nat)
}

/// The part between the samples and the sample rate.
spec fn closing(sc: nat) -> Seq<u8> {
    tags_cbor(format_tag(), layout_tag()) + text_item("cc"@) + int_item(CHANNELS as int)
        + text_item("sc"@) + int_item(sc as int) + text_item("sr"@)
}

#[verifier::rlimit(50)]
proof fn lemma_regroup(x: AudioRaw)
    requires
        x.wf(),
    ensures
        audio_raw_cbor(x) == opening() + (int_item(x.sc as int) + (middle(x.sc as nat) + (
        matrix_items(x.matrix()) + (closing(x.sc as nat) + int_item(x.sr as int))))),
{
    let m = x.matrix();
    let sc = x.sc as nat;
    assert(matrix_prefix(sc, CHANNELS as nat) =~= head(5, 3) + text_item("v"@) + int_item(1)
        + text_item("dim"@) + head(4, 2) + (int_item(sc as int) + middle(sc)));
    assert(counts_cbor(CHANNELS as nat, sc, x.sr as int) =~= text_item("cc"@) + int_item(CHANNELS as int)
        + text_item("sc"@) + int_item(sc as int) + text_item("sr"@) + int_item(x.sr as int));
    assert(audio_raw_cbor(x) =~= opening() + (int_item(x.sc as int) + (middle(sc) + (
        matrix_items(m) + (closing(sc) + int_item(x.sr as int))))));
}

/// The binary form determines the buffer: two well-formed buffers with the
/// same binary form have the same samples, tags, counts and rate, so that
/// decoding the bytes gives back the buffer they were written from.
pub proof fn lemma_binary_form_determines_buffer(a: AudioRaw, b: AudioRaw)
    requires
        a.wf(),
        b.wf(),
        audio_raw_cbor(a) == audio_raw_cbor(b),
    ensures
        same_buffer(a, b),
{
    lemma_regroup(a);
    lemma_regroup(b);
    let ta = closing(a.sc as nat) + int_item(a.sr as int);
    let tb = closing(b.sc as nat) + int_item(b.sr as int);
    let ra = middle(a.sc as nat) + (matrix_items(a.matrix()) + ta);
    let rb = middle(b.sc as nat) + (matrix_items(b.matrix()) + tb);
    lemma_skip_common_prefix(opening(), int_item(a.sc as int) + ra, int_item(b.sc as int) + rb);
    lemma_int_injective(a.sc as int, ra, b.sc as int, rb);
    lemma_skip_common_prefix(middle(a.sc as nat), matrix_items(a.matrix()) + ta, matrix_items(b.matrix()) + tb);
    lemma_matrix_injective(a.matrix(), ta, b.matrix(), tb);
    lemma_skip_common_prefix(closing(a.sc as nat), int_item(a.sr as int), int_item(b.sr as int));
    assert(int_item(a.sr as int) + Seq::<u8>::empty() =~= int_item(a.sr as int));
    assert(int_item(b.sr as int) + Seq::<u8>::empty() =~= int_item(b.sr as int));
    lemma_int_injective(a.sr as int, Seq::empty(), b.sr as int, Seq::empty());
}

} // verus!

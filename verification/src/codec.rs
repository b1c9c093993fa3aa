//! SCALE-compatible wire encoding primitives.
//!
//! Every value that the key-value store holds is written with these
//! little-endian, length-prefixed encoders.  Each decoder is specified
//! against a spec-level decoding function, and a round-trip lemma per
//! primitive shows that decoding an encoding yields the value back, so
//! composite round trips (pieces, confidence records, sidecars) follow
//! by composition.

use vstd::prelude::*;

verus! {

/// Little-endian four-byte encoding of a `u32`.
pub open spec fn spec_enc_u32(x: u32) -> Seq<u8> {
    seq![
        (x as int % 256) as u8,
        (x as int / 256 % 256) as u8,
        (x as int / 65536 % 256) as u8,
        (x as int / 16777216) as u8,
    ]
}

/// Value read back from four little-endian bytes.
pub open spec fn spec_dec_u32_val(s: Seq<u8>) -> u32
    recommends
        s.len() == 4,
{
    (s[0] as int + s[1] as int * 256 + s[2] as int * 65536 + s[3] as int * 16777216) as u32
}

pub proof fn lemma_u32_round_trip(x: u32)
    ensures
        spec_enc_u32(x).len() == 4,
        spec_dec_u32_val(spec_enc_u32(x)) == x,
{
    assert(x as int == x as int % 256 + (x as int / 256 % 256) * 256 + (x as int / 65536 % 256)
        * 65536 + (x as int / 16777216) * 16777216) by (nonlinear_arith);
}

/// Appends the four little-endian bytes of `x` to `out`.
pub fn encode_u32(out: &mut Vec<u8>, x: u32)
    ensures
        final(out)@ == old(out)@ + spec_enc_u32(x),
{
    out.push((x % 256) as u8);
    out.push((x / 256 % 256) as u8);
    out.push((x / 65536 % 256) as u8);
    out.push((x / 16777216) as u8);
    assert(out@ =~= old(out)@ + spec_enc_u32(x));
}

/// Reads a `u32` at `pos`; `None` when fewer than four bytes remain.
pub fn decode_u32(bytes: &[u8], pos: usize) -> (r: Option<(u32, usize)>)
    ensures
        r is Some <==> pos + 4 <= bytes@.len(),
        r matches Some(p) ==> p.0 == spec_dec_u32_val(bytes@.subrange(pos as int, pos as int + 4))
            && p.1 == pos + 4,
{
    if pos < bytes.len() && bytes.len() - pos >= 4 {
        let b0 = bytes[pos] as u32;
        let b1 = bytes[pos + 1] as u32;
        let b2 = bytes[pos + 2] as u32;
        let b3 = bytes[pos + 3] as u32;
        let v: u32 = b0 + b1 * 256 + b2 * 65536 + b3 * 16777216;
        Some((v, pos + 4))
    } else {
        None
    }
}

/// Big-endian four-byte encoding of a `u32`.
pub open spec fn spec_enc_u32_be(x: u32) -> Seq<u8> {
    seq![
        (x as int / 16777216) as u8,
        (x as int / 65536 % 256) as u8,
        (x as int / 256 % 256) as u8,
        (x as int % 256) as u8,
    ]
}

/// Appends the four big-endian bytes of `x` to `out`.
pub fn encode_u32_be(out: &mut Vec<u8>, x: u32)
    ensures
        final(out)@ == old(out)@ + spec_enc_u32_be(x),
{
    out.push((x / 16777216) as u8);
    out.push((x / 65536 % 256) as u8);
    out.push((x / 256 % 256) as u8);
    out.push((x % 256) as u8);
    assert(out@ =~= old(out)@ + spec_enc_u32_be(x));
}

/// Compact (variable-length) encoding of a `u32`: the two low bits of the
/// first byte select a one, two, four or five byte form.
pub open spec fn spec_enc_compact(x: u32) -> Seq<u8> {
    if x < 64 {
        seq![(x * 4) as u8]
    } else if x < 16384 {
        seq![((x * 4 + 1) % 256) as u8, ((x * 4 + 1) / 256) as u8]
    } else if x < 1073741824 {
        spec_enc_u32((x * 4 + 2) as u32)
    } else {
        seq![3u8] + spec_enc_u32(x)
    }
}

/// Spec-level compact decoder: the value and the number of bytes read.
pub open spec fn spec_dec_compact(s: Seq<u8>) -> Option<(u32, int)> {
    if s.len() < 1 {
        None
    } else {
        let b0 = s[0] as int;
        if b0 % 4 == 0 {
            Some(((b0 / 4) as u32, 1int))
        } else if b0 % 4 == 1 {
            if s.len() >= 2 {
                Some((((b0 + s[1] as int * 256) / 4) as u32, 2int))
            } else {
                None
            }
        } else if b0 % 4 == 2 {
            if s.len() >= 4 {
                Some(((spec_dec_u32_val(s.subrange(0, 4)) as int / 4) as u32, 4int))
            } else {
                None
            }
        } else {
            if b0 == 3 && s.len() >= 5 {
                Some((spec_dec_u32_val(s.subrange(1, 5)), 5int))
            } else {
                None
            }
        }
    }
}

pub proof fn lemma_compact_round_trip(x: u32, rest: Seq<u8>)
    ensures
        1 <= spec_enc_compact(x).len() <= 5,
        spec_dec_compact(spec_enc_compact(x) + rest) == Some(
            (x, spec_enc_compact(x).len() as int),
        ),
{
    let e = spec_enc_compact(x);
    let s = e + rest;
    if x < 64 {
        assert(s[0] == (x * 4) as u8);
        assert((x * 4) % 4 == 0 && (x * 4) / 4 == x as int) by (nonlinear_arith);
    } else if x < 16384 {
        let v = x * 4 + 1;
        assert(s[0] == (v % 256) as u8 && s[1] == (v / 256) as u8);
        assert((v % 256) % 4 == 1) by (nonlinear_arith)
            requires
                v == x * 4 + 1 && x < 16384,
        ;
        assert(v % 256 + (v / 256) * 256 == v) by (nonlinear_arith);
        assert(v / 4 == x as int) by (nonlinear_arith)
            requires
                v == x * 4 + 1,
        ;
    } else if x < 1073741824 {
        let v: u32 = (x * 4 + 2) as u32;
        lemma_u32_round_trip(v);
        assert(s.subrange(0, 4) =~= spec_enc_u32(v));
        assert(s[0] == spec_enc_u32(v)[0]);
        assert((v as int % 256) % 4 == 2) by (nonlinear_arith)
            requires
                v == x * 4 + 2 && x < 1073741824,
        ;
        assert(v as int / 4 == x as int) by (nonlinear_arith)
            requires
                v == x * 4 + 2,
        ;
    } else {
        lemma_u32_round_trip(x);
        assert(s[0] == 3u8);
        assert(s.subrange(1, 5) =~= spec_enc_u32(x));
    }
}

/// Appends the compact encoding of `x` to `out`.
pub fn encode_compact(out: &mut Vec<u8>, x: u32)
    ensures
        final(out)@ == old(out)@ + spec_enc_compact(x),
{
    if x < 64 {
        out.push((x * 4) as u8);
    } else if x < 16384 {
        let v: u32 = x * 4 + 1;
        out.push((v % 256) as u8);
        out.push((v / 256) as u8);
    } else if x < 1073741824 {
        encode_u32(out, x * 4 + 2);
    } else {
        out.push(3u8);
        encode_u32(out, x);
    }
    assert(out@ =~= old(out)@ + spec_enc_compact(x));
}

/// Reads a compact integer at `pos`.
pub fn decode_compact(bytes: &[u8], pos: usize) -> (r: Option<(u32, usize)>)
    requires
        pos <= bytes@.len(),
    ensures
        ({
            let d = spec_dec_compact(bytes@.skip(pos as int));
            &&& (d is Some <==> r is Some)
            &&& (d matches Some(p) ==> r matches Some(q) && q.0 == p.0 && q.1 == pos + p.1)
            &&& (r matches Some(q) ==> pos < q.1 <= bytes@.len())
        }),
{
    let ghost tail = bytes@.skip(pos as int);
    if pos >= bytes.len() {
        return None;
    }
    let b0 = bytes[pos];
    assert(tail[0] == bytes@[pos as int]);
    if b0 % 4 == 0 {
        Some(((b0 / 4) as u32, pos + 1))
    } else if b0 % 4 == 1 {
        if bytes.len() - pos >= 2 {
            let b1 = bytes[pos + 1];
            assert(tail[1] == bytes@[pos as int + 1]);
            let v: u32 = b0 as u32 + b1 as u32 * 256;
            Some((v / 4, pos + 2))
        } else {
            None
        }
    } else if b0 % 4 == 2 {
        if bytes.len() - pos >= 4 {
            let d = decode_u32(bytes, pos);
            match d {
                Some((v, next)) => {
                    assert(bytes@.subrange(pos as int, pos as int + 4) =~= tail.subrange(0, 4));
                    Some((v / 4, next))
                },
                None => None,
            }
        } else {
            None
        }
    } else {
        if b0 == 3 && bytes.len() - pos >= 5 {
            let d = decode_u32(bytes, pos + 1);
            match d {
                Some((v, next)) => {
                    assert(bytes@.subrange(pos as int + 1, pos as int + 5) =~= tail.subrange(
                        1,
                        5,
                    ));
                    Some((v, next))
                },
                None => None,
            }
        } else {
            None
        }
    }
}

/// Appends every byte of `data` to `out`.
pub fn encode_raw(out: &mut Vec<u8>, data: &[u8])
    ensures
        final(out)@ == old(out)@ + data@,
{
    let n = data.len();
    for i in 0..n
        invariant
            n == data@.len(),
            out@ == old(out)@ + data@.subrange(0, i as int),
    {
        out.push(data[i]);
        assert(out@ =~= old(out)@ + data@.subrange(0, i as int + 1));
    }
    assert(out@ =~= old(out)@ + data@);
}

/// Copies `n` bytes starting at `pos`; `None` when fewer remain.
pub fn decode_raw(bytes: &[u8], pos: usize, n: usize) -> (r: Option<(Vec<u8>, usize)>)
    ensures
        r is Some <==> pos + n <= bytes@.len(),
        r matches Some(p) ==> p.0@ == bytes@.subrange(pos as int, pos as int + n as int) && p.1
            == pos + n,
{
    if pos <= bytes.len() && bytes.len() - pos >= n {
        let mut out: Vec<u8> = Vec::new();
        let end = pos + n;
        for j in pos..end
            invariant
                end == pos + n <= bytes@.len(),
                out@ == bytes@.subrange(pos as int, j as int),
        {
            out.push(bytes[j]);
            assert(out@ =~= bytes@.subrange(pos as int, j as int + 1));
        }
        Some((out, end))
    } else {
        None
    }
}

/// Concatenation of a list of byte blocks.
pub open spec fn spec_enc_blocks(s: Seq<Seq<u8>>) -> Seq<u8>
    decreases s.len(),
{
    if s.len() == 0 {
        Seq::empty()
    } else {
        s[0] + spec_enc_blocks(s.skip(1))
    }
}

pub proof fn lemma_enc_blocks_push(s: Seq<Seq<u8>>, x: Seq<u8>)
    ensures
        spec_enc_blocks(s.push(x)) == spec_enc_blocks(s) + x,
    decreases s.len(),
{
    if s.len() == 0 {
        assert(s.push(x)[0] == x);
        assert(s.push(x).skip(1) =~= Seq::<Seq<u8>>::empty());
        assert(spec_enc_blocks(s.push(x)) == x + spec_enc_blocks(Seq::<Seq<u8>>::empty()));
        assert(spec_enc_blocks(Seq::<Seq<u8>>::empty()) == Seq::<u8>::empty());
        assert(spec_enc_blocks(s.push(x)) =~= spec_enc_blocks(s) + x);
    } else {
        assert(s.push(x)[0] == s[0]);
        assert(s.push(x).skip(1) =~= s.skip(1).push(x));
        lemma_enc_blocks_push(s.skip(1), x);
        assert(spec_enc_blocks(s.push(x)) == s[0] + (spec_enc_blocks(s.skip(1)) + x));
        assert(spec_enc_blocks(s) == s[0] + spec_enc_blocks(s.skip(1)));
        assert(s[0] + (spec_enc_blocks(s.skip(1)) + x) =~= (s[0] + spec_enc_blocks(s.skip(1)))
            + x);
    }
}

/// Reads `n` blocks of `width` bytes each.
pub open spec fn spec_dec_blocks(s: Seq<u8>, n: nat, width: nat) -> Option<(Seq<Seq<u8>>, int)>
    decreases n,
{
    if n == 0 {
        Some((Seq::empty(), 0int))
    } else if s.len() >= width {
        match spec_dec_blocks(s.skip(width as int), (n - 1) as nat, width) {
            Some(p) => Some((Seq::empty().push(s.take(width as int)) + p.0, width + p.1)),
            None => None,
        }
    } else {
        None
    }
}

/// Decoding block-encoded data yields the blocks back.
pub proof fn lemma_dec_enc_blocks(s: Seq<Seq<u8>>, rest: Seq<u8>, width: nat)
    requires
        forall|i: int| 0 <= i < s.len() ==> (#[trigger] s[i]).len() == width,
    ensures
        spec_enc_blocks(s).len() == s.len() * width,
        spec_dec_blocks(spec_enc_blocks(s) + rest, s.len(), width) == Some(
            (s, (s.len() * width) as int),
        ),
    decreases s.len(),
{
    if s.len() == 0 {
        assert(spec_enc_blocks(s) + rest =~= rest);
        assert(spec_dec_blocks(rest, 0, width) == Some((Seq::<Seq<u8>>::empty(), 0int)));
        assert(s =~= Seq::<Seq<u8>>::empty());
    } else {
        lemma_dec_enc_blocks(s.skip(1), rest, width);
        let whole = spec_enc_blocks(s) + rest;
        assert(whole =~= s[0] + (spec_enc_blocks(s.skip(1)) + rest));
        assert(whole.take(width as int) =~= s[0]);
        assert(whole.skip(width as int) =~= spec_enc_blocks(s.skip(1)) + rest);
        assert(Seq::empty().push(s[0]) + s.skip(1) =~= s);
        assert(s.len() * width == width + (s.len() - 1) * width) by (nonlinear_arith);
    }
}

/// A successful block decode yields `n` blocks of `width` bytes and
/// consumes `n * width` bytes.
pub proof fn lemma_dec_blocks_shape(s: Seq<u8>, n: nat, width: nat)
    requires
        spec_dec_blocks(s, n, width) is Some,
    ensures
        ({
            let p = spec_dec_blocks(s, n, width)->Some_0;
            &&& p.0.len() == n
            &&& (forall|i: int| 0 <= i < p.0.len() ==> (#[trigger] p.0[i]).len() == width)
            &&& p.1 == n * width
            &&& 0 <= p.1 <= s.len()
        }),
    decreases n,
{
    if n == 0 {
        assert(0 * width == 0) by (nonlinear_arith);
    } else {
        lemma_dec_blocks_shape(s.skip(width as int), (n - 1) as nat, width);
        assert(n * width == (n - 1) * width + width) by (nonlinear_arith);
    }
}

/// Appends every block of `blocks` to `out`.
pub fn encode_raw_blocks(out: &mut Vec<u8>, blocks: &Vec<Vec<u8>>)
    ensures
        final(out)@ == old(out)@ + spec_enc_blocks(blocks@.map_values(|b: Vec<u8>| b@)),
{
    let ghost bviews = blocks@.map_values(|b: Vec<u8>| b@);
    let n = blocks.len();
    for i in 0..n
        invariant
            n == blocks@.len(),
            bviews == blocks@.map_values(|b: Vec<u8>| b@),
            out@ == old(out)@ + spec_enc_blocks(bviews.take(i as int)),
    {
        encode_raw(out, blocks[i].as_slice());
        proof {
            assert(bviews.take(i as int).push(bviews[i as int]) =~= bviews.take(i as int + 1));
            lemma_enc_blocks_push(bviews.take(i as int), bviews[i as int]);
        }
    }
    proof {
        assert(bviews.take(n as int) =~= bviews);
    }
}

/// Reads `n` blocks of `width` bytes each at `pos`.
pub fn decode_raw_blocks(bytes: &[u8], pos: usize, n: usize, width: usize) -> (r: Option<
    (Vec<Vec<u8>>, usize),
>)
    requires
        pos <= bytes@.len(),
        width >= 1,
    ensures
        ({
            let d = spec_dec_blocks(bytes@.skip(pos as int), n as nat, width as nat);
            &&& (d is Some <==> r is Some)
            &&& (d matches Some(p) ==> r matches Some(q) && q.0@.map_values(|b: Vec<u8>| b@) == p.0
                && q.1 == pos + p.1)
            &&& (r matches Some(q) ==> q.1 <= bytes@.len())
        }),
{
    let mut out: Vec<Vec<u8>> = Vec::new();
    let mut cur: usize = pos;
    let ghost tail0 = bytes@.skip(pos as int);
    for i in 0..n
        invariant
            pos <= cur <= bytes@.len(),
            width >= 1,
            tail0 == bytes@.skip(pos as int),
            out@.len() == i,
            cur == pos + i * width,
            ({
                let d0 = spec_dec_blocks(tail0, n as nat, width as nat);
                let d1 = spec_dec_blocks(
                    bytes@.skip(cur as int),
                    (n - i) as nat,
                    width as nat,
                );
                match d1 {
                    Some(p) => d0 == Some(
                        (out@.map_values(|b: Vec<u8>| b@) + p.0, (cur - pos) + p.1),
                    ),
                    None => d0 is None,
                }
            }),
        decreases n - i,
    {
        let ghost tail = bytes@.skip(cur as int);
        let d = decode_raw(bytes, cur, width);
        match d {
            Some((block, next)) => {
                proof {
                    assert(tail.len() >= width);
                    assert(tail.take(width as int) =~= bytes@.subrange(
                        cur as int,
                        cur as int + width as int,
                    ));
                    assert(tail.skip(width as int) =~= bytes@.skip(cur as int + width as int));
                    let ov = out@.map_values(|b: Vec<u8>| b@);
                    assert(out@.push(block).map_values(|b: Vec<u8>| b@) =~= ov.push(block@));
                }
                out.push(block);
                cur = next;
                proof {
                    assert((i + 1) * width == i * width + width) by (nonlinear_arith);
                    let ov = out@.map_values(|b: Vec<u8>| b@);
                    let d1 = spec_dec_blocks(
                        bytes@.skip(cur as int),
                        (n - i - 1) as nat,
                        width as nat,
                    );
                    match d1 {
                        Some(p) => {
                            assert(ov + p.0 =~= ov.drop_last() + (Seq::empty().push(
                                ov.last(),
                            ) + p.0));
                        },
                        None => {},
                    }
                }
            },
            None => {
                proof {
                    assert(tail.len() < width);
                }
                return None;
            },
        }
    }
    proof {
        let d1 = spec_dec_blocks(bytes@.skip(cur as int), 0, width as nat);
        assert(d1 == Some((Seq::<Seq<u8>>::empty(), 0int)));
        assert(out@.map_values(|b: Vec<u8>| b@) + Seq::<Seq<u8>>::empty() =~= out@.map_values(
            |b: Vec<u8>| b@,
        ));
    }
    Some((out, cur))
}

/// Appends a single byte standing for a boolean.
pub fn encode_bool(out: &mut Vec<u8>, b: bool)
    ensures
        final(out)@ == old(out)@ + seq![(if b { 1u8 } else { 0u8 })],
{
    out.push(if b { 1u8 } else { 0u8 });
    assert(out@ =~= old(out)@ + seq![(if b { 1u8 } else { 0u8 })]);
}

/// Reads a boolean byte at `pos`: zero is `false`, one is `true`,
/// anything else is malformed.
pub fn decode_bool(bytes: &[u8], pos: usize) -> (r: Option<(bool, usize)>)
    ensures
        r is Some <==> pos + 1 <= bytes@.len() && (bytes@[pos as int] == 0u8 || bytes@[pos as int]
            == 1u8),
        r matches Some(p) ==> p.0 == (bytes@[pos as int] == 1u8) && p.1 == pos + 1,
{
    if pos < bytes.len() {
        if bytes[pos] == 1 {
            Some((true, pos + 1))
        } else if bytes[pos] == 0 {
            Some((false, pos + 1))
        } else {
            None
        }
    } else {
        None
    }
}

} // verus!

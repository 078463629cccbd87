//! The canonical byte format shared by digests and the wire.
//!
//! A length-prefixed, field-ordered binary format: fixed-width integers are
//! little-endian, sequences are prefixed by a `uleb128` length, maps are
//! serialized as sequences of pairs in insertion order, and enums are
//! prefixed by a `uleb128` variant tag.
//!
//! Each shape has a spec-level serializer (total) and parser (partial), an
//! executable encoder and decoder proved against them, and a round-trip
//! lemma showing that parsing an encoding yields the encoded value back.

use vstd::prelude::*;

verus! {

/// 256 raised to `k`: the number of values a `k`-byte little-endian field
/// can hold.
pub open spec fn pow256(k: nat) -> nat
    decreases k,
{
    if k == 0 {
        1
    } else {
        256 * pow256((k - 1) as nat)
    }
}

pub proof fn lemma_pow256_8()
    ensures
        pow256(8) == 0x1_0000_0000_0000_0000,
        pow256(4) == 0x1_0000_0000,
        pow256(2) == 0x1_0000,
        pow256(1) == 0x100,
{
    assert(pow256(0) == 1);
    assert(pow256(1) == 0x100);
    assert(pow256(2) == 0x1_0000);
    assert(pow256(3) == 0x100_0000);
    assert(pow256(4) == 0x1_0000_0000);
    assert(pow256(5) == 0x100_0000_0000);
    assert(pow256(6) == 0x1_0000_0000_0000);
    assert(pow256(7) == 0x100_0000_0000_0000);
    assert(pow256(8) == 0x1_0000_0000_0000_0000);
}

/// The `k`-byte little-endian serialization of `n`.
pub open spec fn le_bytes(n: nat, k: nat) -> Seq<u8>
    decreases k,
{
    if k == 0 {
        Seq::empty()
    } else {
        seq![(n % 256) as u8] + le_bytes(n / 256, (k - 1) as nat)
    }
}

pub proof fn lemma_le_bytes_len(n: nat, k: nat)
    ensures
        le_bytes(n, k).len() == k,
    decreases k,
{
    if k > 0 {
        lemma_le_bytes_len(n / 256, (k - 1) as nat);
    }
}

/// The value of the `k`-byte little-endian field of `b` at `pos`.
/// Meaningful when `pos + k <= b.len()`.
pub open spec fn parse_le_val(b: Seq<u8>, pos: int, k: nat) -> nat
    decreases k,
{
    if k == 0 {
        0
    } else {
        (b[pos] as nat) + 256 * parse_le_val(b, pos + 1, (k - 1) as nat)
    }
}

pub proof fn lemma_parse_le_bound(b: Seq<u8>, pos: int, k: nat)
    requires
        0 <= pos,
        pos + k <= b.len(),
    ensures
        parse_le_val(b, pos, k) < pow256(k),
    decreases k,
{
    if k > 0 {
        lemma_parse_le_bound(b, pos + 1, (k - 1) as nat);
    }
}

/// Parsing a little-endian field recovers the value it was built from.
pub proof fn lemma_le_roundtrip(b: Seq<u8>, pos: int, n: nat, k: nat)
    requires
        n < pow256(k),
        0 <= pos,
        pos + k <= b.len(),
        b.subrange(pos, pos + k) == le_bytes(n, k),
    ensures
        parse_le_val(b, pos, k) == n,
    decreases k,
{
    lemma_le_bytes_len(n, k);
    if k > 0 {
        lemma_le_bytes_len(n / 256, (k - 1) as nat);
        assert(b.subrange(pos, pos + k)[0] == b[pos]);
        assert(b[pos] == (n % 256) as u8);
        assert(b.subrange(pos + 1, pos + k) =~= le_bytes(n / 256, (k - 1) as nat)) by {
            assert forall|j: int| 0 <= j < k - 1 implies #[trigger] b.subrange(
                pos + 1,
                pos + k,
            )[j] == le_bytes(n / 256, (k - 1) as nat)[j] by {
                assert(b.subrange(pos + 1, pos + k)[j] == b.subrange(pos, pos + k)[j + 1]);
            }
        }
        lemma_le_roundtrip(b, pos + 1, n / 256, (k - 1) as nat);
    }
}

/// Append the `k`-byte little-endian serialization of `n`.
pub fn encode_uint_le(out: &mut Vec<u8>, n: u64, k: usize)
    requires
        (n as nat) < pow256(k as nat),
    ensures
        final(out)@ == old(out)@ + le_bytes(n as nat, k as nat),
{
    let ghost orig = out@;
    let mut x: u64 = n;
    let mut i: usize = 0;
    while i < k
        invariant
            i <= k,
            out@.len() == orig.len() + i,
            out@.subrange(0, orig.len() as int) =~= orig,
            le_bytes(n as nat, k as nat) =~= out@.skip(orig.len() as int) + le_bytes(
                x as nat,
                (k - i) as nat,
            ),
        decreases k - i,
    {
        let b: u8 = (x % 256) as u8;
        proof {
            assert(le_bytes(x as nat, (k - i) as nat) =~= seq![b] + le_bytes(
                (x as nat) / 256,
                (k - i - 1) as nat,
            ));
        }
        out.push(b);
        x = x / 256;
        i = i + 1;
        proof {
            assert(le_bytes(n as nat, k as nat) =~= out@.skip(orig.len() as int) + le_bytes(
                x as nat,
                (k - i) as nat,
            ));
        }
    }
    proof {
        assert(le_bytes(x as nat, 0) =~= Seq::<u8>::empty());
        assert(out@ =~= orig + le_bytes(n as nat, k as nat));
    }
}

/// Read the `k`-byte little-endian field at `pos`; `None` when the buffer is
/// too short.
pub fn decode_uint_le(buf: &Vec<u8>, pos: usize, k: usize) -> (r: Option<(u64, usize)>)
    requires
        k <= 8,
    ensures
        r is Some <==> pos + k <= buf.len(),
        r is Some ==> {
            &&& r.unwrap().0 == parse_le_val(buf@, pos as int, k as nat)
            &&& r.unwrap().1 == pos + k
        },
{
    if pos > buf.len() || k > buf.len() - pos {
        return None;
    }
    let mut v: u64 = 0;
    let mut i: usize = k;
    proof {
        lemma_pow256_8();
    }
    while i > 0
        invariant
            i <= k,
            k <= 8,
            pos + k <= buf.len(),
            v == parse_le_val(buf@, pos + i, (k - i) as nat),
            (v as nat) < pow256((k - i) as nat),
            pow256(8) == 0x1_0000_0000_0000_0000,
        decreases i,
    {
        proof {
            lemma_pow256_mono((k - i) as nat, 7);
            assert(pow256(7) * 256 == pow256(8)) by {
                assert(pow256(8) == 256 * pow256(7));
            }
        }
        i = i - 1;
        v = v * 256 + (buf[pos + i] as u64);
        proof {
            assert(v == parse_le_val(buf@, pos + i, (k - i) as nat));
        }
    }
    Some((v, pos + k))
}

pub proof fn lemma_pow256_mono(a: nat, b: nat)
    requires
        a <= b,
    ensures
        pow256(a) <= pow256(b),
    decreases b,
{
    if a < b {
        lemma_pow256_mono(a, (b - 1) as nat);
        assert(pow256(b) == 256 * pow256((b - 1) as nat));
    }
}

/// The canonical `uleb128` serialization of `n`: 7-bit groups little-endian,
/// the high bit marking continuation.
pub open spec fn uleb(n: nat) -> Seq<u8>
    decreases n,
{
    if n < 128 {
        seq![n as u8]
    } else {
        seq![(n % 128 + 128) as u8] + uleb(n / 128)
    }
}

/// The `uleb128` value starting at `pos`, with the position just after it.
pub open spec fn parse_uleb(b: Seq<u8>, pos: int) -> Option<(nat, int)>
    decreases b.len() - pos,
{
    if pos < 0 || pos >= b.len() {
        None
    } else if b[pos] < 128 {
        Some((b[pos] as nat, pos + 1))
    } else {
        match parse_uleb(b, pos + 1) {
            Some((m, e)) => Some((((b[pos] - 128) + 128 * m) as nat, e)),
            None => None,
        }
    }
}

/// Parsing a `uleb128` field recovers the value it was built from.
pub proof fn lemma_uleb_roundtrip(b: Seq<u8>, pos: int, n: nat)
    requires
        0 <= pos,
        pos + uleb(n).len() <= b.len(),
        b.subrange(pos, pos + uleb(n).len()) == uleb(n),
    ensures
        parse_uleb(b, pos) == Some((n, pos + uleb(n).len())),
    decreases n,
{
    if n < 128 {
        assert(b[pos] == uleb(n)[0]);
    } else {
        let rest = uleb(n / 128);
        assert(b[pos] == uleb(n)[0]);
        assert(b[pos] == (n % 128 + 128) as u8);
        assert(b.subrange(pos + 1, pos + 1 + rest.len()) =~= rest) by {
            assert forall|j: int| 0 <= j < rest.len() implies #[trigger] b.subrange(
                pos + 1,
                pos + 1 + rest.len(),
            )[j] == rest[j] by {
                assert(b.subrange(pos + 1, pos + 1 + rest.len())[j] == b.subrange(
                    pos,
                    pos + uleb(n).len(),
                )[j + 1]);
            }
        }
        lemma_uleb_roundtrip(b, pos + 1, n / 128);
    }
}

/// Append the `uleb128` serialization of `n`.
pub fn encode_uleb(out: &mut Vec<u8>, n: u64)
    ensures
        final(out)@ == old(out)@ + uleb(n as nat),
    decreases n,
{
    if n < 128 {
        out.push(n as u8);
        proof {
            assert(out@ =~= old(out)@ + uleb(n as nat));
        }
    } else {
        out.push((n % 128 + 128) as u8);
        let ghost mid = out@;
        encode_uleb(out, n / 128);
        proof {
            assert(out@ =~= old(out)@ + uleb(n as nat));
        }
    }
}

/// Read the `uleb128` field at `pos`; `None` when the buffer ends inside it
/// or the value does not fit in a `u64`.
pub fn decode_uleb(buf: &Vec<u8>, pos: usize) -> (r: Option<(u64, usize)>)
    ensures
        r is Some ==> {
            &&& parse_uleb(buf@, pos as int) == Some(
                (r.unwrap().0 as nat, r.unwrap().1 as int),
            )
            &&& pos < r.unwrap().1 <= buf.len()
        },
        r is None ==> (parse_uleb(buf@, pos as int) is None || parse_uleb(
            buf@,
            pos as int,
        ).unwrap().0 > u64::MAX),
    decreases buf.len() - pos,
{
    if pos >= buf.len() {
        return None;
    }
    let b = buf[pos];
    if b < 128 {
        return Some((b as u64, pos + 1));
    }
    match decode_uleb(buf, pos + 1) {
        None => None,
        Some((m, e)) => {
            if m > (u64::MAX - 127) / 128 {
                proof {
                    assert(parse_uleb(buf@, pos as int).unwrap().0 > u64::MAX);
                }
                None
            } else {
                Some(((b - 128) as u64 + 128 * m, e))
            }
        },
    }
}

/// A successful `uleb128` parse lands strictly beyond `pos`, within the
/// buffer.
pub proof fn lemma_parse_uleb_bounds(b: Seq<u8>, pos: int)
    ensures
        parse_uleb(b, pos) matches Some(p) ==> pos < p.1 <= b.len(),
    decreases b.len() - pos,
{
    if 0 <= pos < b.len() && b[pos] >= 128 {
        lemma_parse_uleb_bounds(b, pos + 1);
    }
}

/// A byte string: its length as `uleb128`, then its bytes.
pub open spec fn ser_bytes(s: Seq<u8>) -> Seq<u8> {
    uleb(s.len()) + s
}

/// The byte string starting at `pos`.
pub open spec fn parse_bytes(b: Seq<u8>, pos: int) -> Option<(Seq<u8>, int)> {
    match parse_uleb(b, pos) {
        Some((n, p)) => if p + n <= b.len() {
            Some((b.subrange(p, p + n), p + n))
        } else {
            None
        },
        None => None,
    }
}

/// Parsing a byte string recovers the one it was built from.
pub proof fn lemma_bytes_roundtrip(b: Seq<u8>, pos: int, s: Seq<u8>)
    requires
        0 <= pos,
        pos + ser_bytes(s).len() <= b.len(),
        b.subrange(pos, pos + ser_bytes(s).len()) == ser_bytes(s),
    ensures
        parse_bytes(b, pos) == Some((s, pos + ser_bytes(s).len())),
{
    let l = uleb(s.len()).len() as int;
    lemma_concat_split(b, pos, uleb(s.len()), s);
    lemma_uleb_roundtrip(b, pos, s.len());
    assert(b.subrange(pos + l, pos + l + s.len()) == s);
}

/// Splitting a matched concatenation into its two matched halves.
pub proof fn lemma_concat_split(b: Seq<u8>, pos: int, s1: Seq<u8>, s2: Seq<u8>)
    requires
        0 <= pos,
        pos + s1.len() + s2.len() <= b.len(),
        b.subrange(pos, pos + s1.len() + s2.len()) == s1 + s2,
    ensures
        b.subrange(pos, pos + s1.len()) == s1,
        b.subrange(pos + s1.len(), pos + s1.len() + s2.len()) == s2,
{
    let whole = b.subrange(pos, pos + s1.len() + s2.len());
    assert(b.subrange(pos, pos + s1.len()) =~= s1) by {
        assert forall|j: int| 0 <= j < s1.len() implies #[trigger] b.subrange(
            pos,
            pos + s1.len(),
        )[j] == s1[j] by {
            assert(whole[j] == (s1 + s2)[j]);
        }
    }
    assert(b.subrange(pos + s1.len(), pos + s1.len() + s2.len()) =~= s2) by {
        assert forall|j: int| 0 <= j < s2.len() implies #[trigger] b.subrange(
            pos + s1.len(),
            pos + s1.len() + s2.len(),
        )[j] == s2[j] by {
            assert(whole[s1.len() + j] == (s1 + s2)[s1.len() + j]);
        }
    }
}

/// Append a byte string with its length prefix.
pub fn encode_bytes(out: &mut Vec<u8>, s: &Vec<u8>)
    ensures
        final(out)@ == old(out)@ + ser_bytes(s@),
{
    encode_uleb(out, s.len() as u64);
    let ghost mid = out@;
    append_raw(out, s);
    proof {
        assert(out@ =~= old(out)@ + ser_bytes(s@));
    }
}

/// Append raw bytes with no prefix.
pub fn append_raw(out: &mut Vec<u8>, s: &Vec<u8>)
    ensures
        final(out)@ == old(out)@ + s@,
{
    let mut i: usize = 0;
    while i < s.len()
        invariant
            i <= s.len(),
            out@ =~= old(out)@ + s@.take(i as int),
        decreases s.len() - i,
    {
        out.push(s[i]);
        i = i + 1;
        proof {
            assert(old(out)@ + s@.take(i as int) =~= (old(out)@ + s@.take(i - 1)).push(
                s@[i - 1],
            ));
        }
    }
    proof {
        assert(s@.take(s@.len() as int) =~= s@);
    }
}

/// Append a fixed 32-byte field (digests carry no length prefix).
pub fn append_digest(out: &mut Vec<u8>, d: &[u8; 32])
    ensures
        final(out)@ == old(out)@ + d@,
{
    let mut i: usize = 0;
    while i < 32
        invariant
            i <= 32,
            out@ =~= old(out)@ + d@.take(i as int),
        decreases 32 - i,
    {
        out.push(d[i]);
        i = i + 1;
        proof {
            assert(old(out)@ + d@.take(i as int) =~= (old(out)@ + d@.take(i - 1)).push(
                d@[i - 1],
            ));
        }
    }
    proof {
        assert(d@.take(d@.len() as int) =~= d@);
    }
}

/// Append a fixed-width byte field (no length prefix).
pub fn append_fixed<const N: usize>(out: &mut Vec<u8>, d: &[u8; N])
    ensures
        final(out)@ == old(out)@ + d@,
{
    let mut i: usize = 0;
    while i < N
        invariant
            i <= N,
            out@ =~= old(out)@ + d@.take(i as int),
        decreases N - i,
    {
        out.push(d[i]);
        i = i + 1;
        proof {
            assert(old(out)@ + d@.take(i as int) =~= (old(out)@ + d@.take(i - 1)).push(
                d@[i - 1],
            ));
        }
    }
    proof {
        assert(d@.take(d@.len() as int) =~= d@);
    }
}

/// Read a byte string with its length prefix; `None` when the buffer ends
/// inside it.
pub fn decode_bytes(buf: &Vec<u8>, pos: usize) -> (r: Option<(Vec<u8>, usize)>)
    ensures
        r is Some ==> {
            &&& parse_bytes(buf@, pos as int) is Some
            &&& r.unwrap().0@ == parse_bytes(buf@, pos as int).unwrap().0
            &&& r.unwrap().1 == parse_bytes(buf@, pos as int).unwrap().1
            &&& pos < r.unwrap().1 <= buf.len()
        },
        r is None ==> parse_bytes(buf@, pos as int) is None || (parse_uleb(
            buf@,
            pos as int,
        ) matches Some(p) && p.0 > u64::MAX),
{
    match decode_uleb(buf, pos) {
        None => None,
        Some((n, p)) => {
            if n > (buf.len() - p) as u64 {
                return None;
            }
            let end = p + (n as usize);
            let mut v: Vec<u8> = Vec::new();
            let mut i: usize = p;
            while i < end
                invariant
                    p <= i <= end,
                    end <= buf.len(),
                    v@ =~= buf@.subrange(p as int, i as int),
                decreases end - i,
            {
                v.push(buf[i]);
                i = i + 1;
                proof {
                    assert(buf@.subrange(p as int, i as int) =~= buf@.subrange(
                        p as int,
                        i - 1,
                    ).push(buf@[i - 1]));
                }
            }
            Some((v, end))
        },
    }
}

/// A boolean: one byte, 0 or 1.
pub open spec fn ser_bool(v: bool) -> Seq<u8> {
    if v {
        seq![1u8]
    } else {
        seq![0u8]
    }
}

/// The boolean at `pos`; bytes other than 0 and 1 are rejected.
pub open spec fn parse_bool(b: Seq<u8>, pos: int) -> Option<(bool, int)> {
    if 0 <= pos < b.len() {
        if b[pos] == 0 {
            Some((false, pos + 1))
        } else if b[pos] == 1 {
            Some((true, pos + 1))
        } else {
            None
        }
    } else {
        None
    }
}

pub fn encode_bool(out: &mut Vec<u8>, v: bool)
    ensures
        final(out)@ == old(out)@ + ser_bool(v),
{
    if v {
        out.push(1u8);
    } else {
        out.push(0u8);
    }
    proof {
        assert(out@ =~= old(out)@ + ser_bool(v));
    }
}

pub fn decode_bool(buf: &Vec<u8>, pos: usize) -> (r: Option<(bool, usize)>)
    ensures
        r is Some ==> {
            &&& parse_bool(buf@, pos as int) == Some((r.unwrap().0, r.unwrap().1 as int))
            &&& pos < r.unwrap().1 <= buf.len()
        },
        r is None ==> parse_bool(buf@, pos as int) is None,
{
    if pos >= buf.len() {
        return None;
    }
    let b = buf[pos];
    if b == 0 {
        Some((false, pos + 1))
    } else if b == 1 {
        Some((true, pos + 1))
    } else {
        None
    }
}


/// A sequence of byte strings, each with its own length prefix, without the
/// count prefix.
pub open spec fn ser_bytes_seq(s: Seq<Seq<u8>>) -> Seq<u8>
    decreases s.len(),
{
    if s.len() == 0 {
        Seq::empty()
    } else {
        ser_bytes(s[0]) + ser_bytes_seq(s.subrange(1, s.len() as int))
    }
}

/// `n` consecutive byte strings starting at `pos`.
pub open spec fn parse_bytes_seq(b: Seq<u8>, pos: int, n: nat) -> Option<(Seq<Seq<u8>>, int)>
    decreases n,
{
    if n == 0 {
        Some((Seq::empty(), pos))
    } else {
        match parse_bytes(b, pos) {
            Some((s0, p)) => match parse_bytes_seq(b, p, (n - 1) as nat) {
                Some((rest, end)) => Some((seq![s0] + rest, end)),
                None => None,
            },
            None => None,
        }
    }
}

/// Parsing serialized byte strings recovers them.
pub proof fn lemma_bytes_seq_roundtrip(b: Seq<u8>, pos: int, s: Seq<Seq<u8>>)
    requires
        0 <= pos,
        pos + ser_bytes_seq(s).len() <= b.len(),
        b.subrange(pos, pos + ser_bytes_seq(s).len()) == ser_bytes_seq(s),
    ensures
        parse_bytes_seq(b, pos, s.len()) == Some((s, pos + ser_bytes_seq(s).len())),
    decreases s.len(),
{
    if s.len() > 0 {
        let rest = s.subrange(1, s.len() as int);
        assert(ser_bytes_seq(s) =~= ser_bytes(s[0]) + ser_bytes_seq(rest));
        lemma_concat_split(b, pos, ser_bytes(s[0]), ser_bytes_seq(rest));
        lemma_bytes_roundtrip(b, pos, s[0]);
        lemma_bytes_seq_roundtrip(b, pos + ser_bytes(s[0]).len(), rest);
        assert(parse_bytes_seq(b, pos, s.len()).unwrap().0 =~= s);
    }
}

/// Append byte strings, each with its length prefix, without a count.
pub fn encode_bytes_vec(out: &mut Vec<u8>, items: &Vec<Vec<u8>>)
    ensures
        final(out)@ == old(out)@ + ser_bytes_seq(items@.map_values(|v: Vec<u8>| v@)),
{
    let ghost s = items@.map_values(|v: Vec<u8>| v@);
    let ghost head = out@;
    proof {
        assert(s.skip(0) =~= s);
        assert(out@.skip(head.len() as int) =~= Seq::<u8>::empty());
        assert(ser_bytes_seq(s) =~= out@.skip(head.len() as int) + ser_bytes_seq(s.skip(0)));
    }
    let mut i: usize = 0;
    while i < items.len()
        invariant
            i <= items.len(),
            s == items@.map_values(|v: Vec<u8>| v@),
            ser_bytes_seq(s) =~= out@.skip(head.len() as int) + ser_bytes_seq(s.skip(i as int)),
            out@.subrange(0, head.len() as int) =~= head,
            out@.len() >= head.len(),
        decreases items.len() - i,
    {
        proof {
            assert(s.skip(i as int)[0] == s[i as int]);
            assert(s.skip(i as int).subrange(1, s.skip(i as int).len() as int) =~= s.skip(i + 1));
        }
        encode_bytes(out, &items[i]);
        i = i + 1;
        proof {
            assert(ser_bytes_seq(s) =~= out@.skip(head.len() as int) + ser_bytes_seq(
                s.skip(i as int),
            ));
            assert(out@.subrange(0, head.len() as int) =~= head);
        }
    }
    proof {
        assert(s.skip(s.len() as int) =~= Seq::<Seq<u8>>::empty());
        assert(out@ =~= head + ser_bytes_seq(s));
    }
}

/// Read `n` byte strings at `pos`.
pub fn decode_bytes_vec(buf: &Vec<u8>, pos: usize, n: u64) -> (r: Option<(Vec<Vec<u8>>, usize)>)
    ensures
        r is Some <==> parse_bytes_seq(buf@, pos as int, n as nat) is Some,
        r is Some ==> {
            let (s, end) = parse_bytes_seq(buf@, pos as int, n as nat).unwrap();
            &&& r.unwrap().0@.map_values(|v: Vec<u8>| v@) == s
            &&& r.unwrap().1 == end
        },
    decreases n,
{
    if n == 0 {
        let v: Vec<Vec<u8>> = Vec::new();
        proof {
            assert(v@.map_values(|x: Vec<u8>| x@) =~= Seq::<Seq<u8>>::empty());
        }
        return Some((v, pos));
    }
    let blen = buf.len();
    let first = match decode_bytes(buf, pos) {
        None => {
            proof {
                assert(buf@.len() == blen);
                if parse_uleb(buf@, pos as int) matches Some(q) && q.0 > u64::MAX {
                    lemma_parse_uleb_bounds(buf@, pos as int);
                    assert(parse_bytes(buf@, pos as int) is None);
                }
            }
            return None;
        },
        Some(t) => t,
    };
    let (v0, p) = first;
    match decode_bytes_vec(buf, p, n - 1) {
        Some((mut rest, end)) => {
            rest.insert(0, v0);
            proof {
                let (s, _e) = parse_bytes_seq(buf@, pos as int, n as nat).unwrap();
                assert(rest@.map_values(|x: Vec<u8>| x@) =~= s);
            }
            Some((rest, end))
        },
        None => None,
    }
}

} // verus!

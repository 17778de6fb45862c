//! Bijective varints.
//!
//! A varint stores a `u64` in 1 to 9 bytes. Each byte is a little-endian base-128 digit that
//! counts with its full value (including its high bit); a byte below 0x80 ends the varint, and the
//! ninth byte, when reached, always ends it and uses all eight bits. Every value has exactly one
//! encoding, and every byte string that decodes without error is the encoding of its value.
use crate::byte_bufs::{bytes_advance, bytes_as_slice, bytes_contents, bytes_mut_contents, bytes_mut_put_slice};
use crate::buf::ReverseBuf;
use crate::error::{DecodeError, DecodeErrorKind};
use bytes::{Bytes, BytesMut};
use vstd::prelude::*;

verus! {

/// The number that a string of varint digits denotes: little-endian base 128, each byte counted
/// with its full value.
pub open spec fn varint_value(s: Seq<u8>) -> nat
    decreases s.len(),
{
    if s.len() == 0 {
        0
    } else {
        s[0] as nat + 128 * varint_value(s.drop_first())
    }
}

/// The encoding of `v` when at most `slots` bytes may be used; the last allowed byte takes all
/// that is left.
pub open spec fn encoding_within(v: nat, slots: nat) -> Seq<u8>
    decreases slots,
{
    if slots <= 1 || v < 128 {
        seq![v as u8]
    } else {
        seq![(v % 128 + 128) as u8] + encoding_within((v / 128 - 1) as nat, (slots - 1) as nat)
    }
}

/// The varint encoding of `v`.
pub open spec fn varint_encoding(v: u64) -> Seq<u8> {
    encoding_within(v as nat, 9)
}

/// How many bytes the varint at the start of `s` spans when it may use at most `slots` bytes, or
/// `None` when `s` ends first.
pub open spec fn varint_extent(s: Seq<u8>, slots: nat) -> Option<nat>
    decreases slots,
{
    if s.len() == 0 || slots == 0 {
        None
    } else if slots == 1 || s[0] < 128 {
        Some(1)
    } else {
        match varint_extent(s.drop_first(), (slots - 1) as nat) {
            Some(n) => Some(n + 1),
            None => None,
        }
    }
}

/// Decoding a varint from the start of `s`: its value and the number of bytes it spans, or the
/// kind of error.
pub open spec fn varint_decode(s: Seq<u8>) -> Result<(u64, nat), DecodeErrorKind> {
    match varint_extent(s, 9) {
        None => Err(DecodeErrorKind::Truncated),
        Some(n) => if varint_value(s.take(n as int)) <= u64::MAX {
            Ok((varint_value(s.take(n as int)) as u64, n))
        } else {
            Err(DecodeErrorKind::InvalidVarint)
        },
    }
}

/// The smallest value whose encoding needs more than `k` bytes (for `k` below 9).
pub open spec fn varint_threshold(k: nat) -> nat
    decreases k,
{
    if k == 0 {
        0
    } else {
        128 * varint_threshold((k - 1) as nat) + 128
    }
}

proof fn lemma_value_prepend(b: u8, rest: Seq<u8>)
    ensures
        varint_value(seq![b] + rest) == b as nat + 128 * varint_value(rest),
{
    assert((seq![b] + rest).drop_first() =~= rest);
}

/// The length of `encoding_within(v, slots)` lies in `1..=slots` and is at most `k` exactly when
/// `v` is below the `k`-byte threshold.
proof fn lemma_encoding_len(v: nat, slots: nat)
    requires
        slots >= 1,
    ensures
        1 <= encoding_within(v, slots).len() <= slots,
        forall|k: nat|
            1 <= k < slots ==> (encoding_within(v, slots).len() <= k <==> v < varint_threshold(k)),
    decreases slots,
{
    if slots <= 1 || v < 128 {
        assert forall|k: nat| 1 <= k < slots implies v < varint_threshold(k) by {
            lemma_threshold_at_least(k);
        }
    } else {
        let w = (v / 128 - 1) as nat;
        lemma_encoding_len(w, (slots - 1) as nat);
        assert forall|k: nat| 1 <= k < slots implies (encoding_within(v, slots).len() <= k <==> v
            < varint_threshold(k)) by {
            if k == 1 {
            } else {
                assert(varint_threshold(k) == 128 * varint_threshold((k - 1) as nat) + 128);
            }
        }
    }
}

proof fn lemma_threshold_at_least(k: nat)
    requires
        k >= 1,
    ensures
        varint_threshold(k) >= 128,
    decreases k,
{
    if k > 1 {
        lemma_threshold_at_least((k - 1) as nat);
    }
}

/// The largest value (plus one) that `slots` bytes can hold.
spec fn encodable_below(slots: nat) -> nat
    decreases slots,
{
    if slots <= 1 {
        256
    } else {
        128 * (encodable_below((slots - 1) as nat) + 1)
    }
}

proof fn lemma_encoding_value(v: nat, slots: nat)
    requires
        slots >= 1,
        v < encodable_below(slots),
    ensures
        varint_value(encoding_within(v, slots)) == v,
    decreases slots,
{
    if slots <= 1 || v < 128 {
        lemma_value_prepend(v as u8, Seq::empty());
        assert(seq![v as u8] + Seq::<u8>::empty() =~= seq![v as u8]);
    } else {
        let w = (v / 128 - 1) as nat;
        lemma_encoding_value(w, (slots - 1) as nat);
        lemma_value_prepend((v % 128 + 128) as u8, encoding_within(w, (slots - 1) as nat));
    }
}

proof fn lemma_encoding_extent(v: nat, slots: nat, rest: Seq<u8>)
    requires
        slots >= 1,
    ensures
        varint_extent(encoding_within(v, slots) + rest, slots) == Some(
            encoding_within(v, slots).len(),
        ),
    decreases slots,
{
    let e = encoding_within(v, slots);
    if slots <= 1 || v < 128 {
    } else {
        let w = (v / 128 - 1) as nat;
        lemma_encoding_extent(w, (slots - 1) as nat, rest);
        assert((e + rest).drop_first() =~= encoding_within(w, (slots - 1) as nat) + rest);
    }
}

proof fn lemma_extent_bound(s: Seq<u8>, slots: nat)
    requires
        varint_extent(s, slots) is Some,
    ensures
        1 <= varint_extent(s, slots)->0 <= s.len(),
        varint_extent(s, slots)->0 <= slots,
    decreases slots,
{
    if !(slots == 1 || s[0] < 128) {
        lemma_extent_bound(s.drop_first(), (slots - 1) as nat);
    }
}

/// A span that the extent marks is the encoding, within the same number of slots, of its value.
proof fn lemma_extent_canonical(s: Seq<u8>, slots: nat)
    requires
        varint_extent(s, slots) is Some,
    ensures
        encoding_within(
            varint_value(s.take(varint_extent(s, slots)->0 as int)),
            slots,
        ) == s.take(varint_extent(s, slots)->0 as int),
    decreases slots,
{
    let n = varint_extent(s, slots)->0;
    let t = s.take(n as int);
    lemma_extent_bound(s, slots);
    if slots == 1 || s[0] < 128 {
        lemma_value_prepend(s[0], Seq::empty());
        assert(t =~= seq![s[0]] + Seq::<u8>::empty());
        assert(t =~= seq![s[0]]);
    } else {
        let s2 = s.drop_first();
        lemma_extent_canonical(s2, (slots - 1) as nat);
        let t2 = s2.take((n - 1) as int);
        assert(t =~= seq![s[0]] + t2);
        lemma_value_prepend(s[0], t2);
        let v = varint_value(t);
        assert(v % 128 == s[0] - 128);
        assert(v / 128 - 1 == varint_value(t2));
        assert(seq![(v % 128 + 128) as u8] =~= seq![s[0]]);
    }
}

proof fn lemma_encodable_below_nine()
    ensures
        encodable_below(9) > u64::MAX,
{
    reveal_with_fuel(encodable_below, 10);
}

/// Values below the threshold of `k` bytes: the exact constants of the length table.
proof fn lemma_thresholds()
    ensures
        varint_threshold(1) == 0x80,
        varint_threshold(2) == 0x4080,
        varint_threshold(3) == 0x20_4080,
        varint_threshold(4) == 0x1020_4080,
        varint_threshold(5) == 0x08_1020_4080,
        varint_threshold(6) == 0x0408_1020_4080,
        varint_threshold(7) == 0x02_0408_1020_4080,
        varint_threshold(8) == 0x0102_0408_1020_4080,
{
    reveal_with_fuel(varint_threshold, 9);
}

/// Every varint encoding is one to nine bytes long.
pub proof fn lemma_varint_encoding_len(v: u64)
    ensures
        1 <= varint_encoding(v).len() <= 9,
{
    lemma_encoding_len(v as nat, 9);
}

/// Decoding the encoding of `v`, followed by any bytes at all, gives back `v` and consumes
/// exactly the encoding.
pub proof fn lemma_varint_roundtrip(v: u64, rest: Seq<u8>)
    ensures
        varint_decode(varint_encoding(v) + rest) == Ok::<(u64, nat), DecodeErrorKind>(
            (v, varint_encoding(v).len()),
        ),
{
    let e = varint_encoding(v);
    lemma_encoding_extent(v as nat, 9, rest);
    lemma_encodable_below_nine();
    lemma_encoding_value(v as nat, 9);
    assert((e + rest).take(e.len() as int) =~= e);
}

/// Whatever decodes without error is exactly the encoding of the decoded value: no value has two
/// encodings.
pub proof fn lemma_varint_canonical(s: Seq<u8>)
    requires
        varint_decode(s) is Ok,
    ensures
        s.take(varint_decode(s)->Ok_0.1 as int) == varint_encoding(varint_decode(s)->Ok_0.0),
{
    lemma_extent_canonical(s, 9);
}

/// A varint that decodes spans at least one byte and no more than what is there.
pub proof fn lemma_varint_decode_extent(s: Seq<u8>)
    requires
        varint_decode(s) is Ok,
    ensures
        1 <= varint_decode(s)->Ok_0.1 <= s.len(),
{
    lemma_extent_bound(s, 9);
}

proof fn lemma_extent_some_when_long(s: Seq<u8>, slots: nat)
    requires
        1 <= slots <= s.len(),
    ensures
        varint_extent(s, slots) is Some,
    decreases slots,
{
    if !(slots == 1 || s[0] < 128) {
        lemma_extent_some_when_long(s.drop_first(), (slots - 1) as nat);
    }
}

proof fn lemma_value_below(t: Seq<u8>)
    ensures
        varint_value(t) < digits_below(t.len()),
    decreases t.len(),
{
    if t.len() > 0 {
        lemma_value_below(t.drop_first());
    }
}

/// Decoding fails with `Truncated` exactly when fewer than nine bytes are there and none of them
/// ends the varint, and with `InvalidVarint` only when nine or more bytes are there: a shorter
/// input that fails needs more bytes, a longer one is corrupt.
pub proof fn lemma_varint_error_kinds(s: Seq<u8>)
    ensures
        varint_decode(s) matches Err(k) ==> (k == DecodeErrorKind::Truncated <==> s.len() < 9),
        varint_decode(s) matches Err(k) ==> (k == DecodeErrorKind::InvalidVarint <==> s.len()
            >= 9),
        varint_decode(s) matches Err(k) ==> (k == DecodeErrorKind::Truncated || k
            == DecodeErrorKind::InvalidVarint),
{
    if s.len() >= 9 {
        lemma_extent_some_when_long(s, 9);
    }
    if varint_extent(s, 9) is Some {
        let n = varint_extent(s, 9)->0;
        lemma_extent_bound(s, 9);
        if n <= 8 {
            lemma_value_below(s.take(n as int));
            lemma_digits_below_monotone(n, 8);
            reveal_with_fuel(digits_below, 9);
        }
    }
}

/// Distinct values have distinct encodings.
pub proof fn lemma_varint_injective(a: u64, b: u64)
    requires
        varint_encoding(a) == varint_encoding(b),
    ensures
        a == b,
{
    lemma_varint_roundtrip(a, Seq::empty());
    lemma_varint_roundtrip(b, Seq::empty());
}

/// Larger values never have shorter encodings.
pub proof fn lemma_varint_len_monotone(a: u64, b: u64)
    requires
        a <= b,
    ensures
        varint_encoding(a).len() <= varint_encoding(b).len(),
{
    lemma_encoding_len(a as nat, 9);
    lemma_encoding_len(b as nat, 9);
    let lb = varint_encoding(b).len();
    if lb < 9 {
        assert(b < varint_threshold(lb));
    }
}

/// Every length threshold is a multiple of four, so the two low bits of a value never change how
/// many bytes it takes: a value and the same value with its two low bits cleared have encodings of
/// one length.
pub proof fn lemma_varint_len_low_bits(v: u64, b: u64)
    requires
        v % 4 == 0,
        b < 4,
    ensures
        varint_encoding(v).len() == varint_encoding((v + b) as u64).len(),
{
    let w = (v + b) as u64;
    lemma_encoding_len(v as nat, 9);
    lemma_encoding_len(w as nat, 9);
    lemma_thresholds();
    assert forall|k: nat| 1 <= k < 9 implies (v < varint_threshold(k) <==> w < varint_threshold(k)) by {
        assert(varint_threshold(k) % 4 == 0) by {
            if k == 1 {} else if k == 2 {} else if k == 3 {} else if k == 4 {} else if k == 5 {}
            else if k == 6 {} else if k == 7 {} else {}
        }
    }
    let la = varint_encoding(v).len();
    let lb = varint_encoding(w).len();
    if la < lb {
        assert(v < varint_threshold(la));
    } else if lb < la {
        assert(w < varint_threshold(lb));
    }
}

/// Returns the encoded length of a varint: between 1 and 9 bytes.
pub fn encoded_len_varint(value: u64) -> (r: usize)
    ensures
        r == varint_encoding(value).len(),
        1 <= r <= 9,
{
    proof {
        lemma_encoding_len(value as nat, 9);
        lemma_thresholds();
    }
    if value < 0x80 {
        1
    } else if value < 0x4080 {
        2
    } else if value < 0x20_4080 {
        3
    } else if value < 0x1020_4080 {
        4
    } else if value < 0x08_1020_4080 {
        5
    } else if value < 0x0408_1020_4080 {
        6
    } else if value < 0x02_0408_1020_4080 {
        7
    } else if value < 0x0102_0408_1020_4080 {
        8
    } else {
        9
    }
}

/// The bytes of the varint encoding of `value`, in order.
fn varint_bytes(value: u64) -> (r: Vec<u8>)
    ensures
        r@ == varint_encoding(value),
{
    let mut out: Vec<u8> = Vec::new();
    let mut v: u64 = value;
    let mut i: usize = 0;
    while i < 8 && v >= 0x80
        invariant
            i <= 8,
            out@ + encoding_within(v as nat, (9 - i) as nat) == varint_encoding(value),
        decreases 8 - i,
    {
        let ghost old_out = out@;
        out.push((v % 128 + 128) as u8);
        proof {
            assert(out@ + encoding_within((v / 128 - 1) as nat, (9 - i - 1) as nat) =~= old_out
                + encoding_within(v as nat, (9 - i) as nat));
        }
        v = v / 128 - 1;
        i = i + 1;
    }
    let ghost before = out@;
    out.push(v as u8);
    proof {
        assert(out@ =~= before + encoding_within(v as nat, (9 - i) as nat));
    }
    out
}

/// Encodes an integer value into a varint at the end of the buffer.
pub fn encode_varint(value: u64, buf: &mut BytesMut)
    requires
        bytes_mut_contents(*old(buf)).len() + varint_encoding(value).len() <= isize::MAX,
    ensures
        bytes_mut_contents(*final(buf)) == bytes_mut_contents(*old(buf)) + varint_encoding(value),
{
    let bytes = varint_bytes(value);
    bytes_mut_put_slice(buf, bytes.as_slice());
}

/// Prepends the varint encoding of an integer value to the buffer.
pub fn prepend_varint<B: ReverseBuf>(value: u64, buf: &mut B)
    requires
        old(buf).is_valid(),
        varint_encoding(value).len() <= old(buf).writable(),
    ensures
        final(buf).is_valid(),
        final(buf).contents() == varint_encoding(value) + old(buf).contents(),
        final(buf).writable() == old(buf).writable() - varint_encoding(value).len(),
        varint_encoding(value).len() <= old(buf).spare() ==> final(buf).allocations() == old(
            buf,
        ).allocations() && final(buf).spare() == old(buf).spare() - varint_encoding(value).len(),
{
    let bytes = varint_bytes(value);
    buf.prepend_slice(bytes.as_slice());
}

proof fn lemma_extent_skip(s: Seq<u8>, slots: nat, i: nat)
    requires
        i < slots,
        i <= s.len(),
        forall|j: int| 0 <= j < i ==> s[j] >= 128,
    ensures
        varint_extent(s, slots) == (match varint_extent(s.skip(i as int), (slots - i) as nat) {
            Some(n) => Some(n + i),
            None => None::<nat>,
        }),
    decreases i,
{
    if i > 0 {
        let s2 = s.drop_first();
        assert forall|j: int| 0 <= j < i - 1 implies s2[j] >= 128 by {
            assert(s2[j] == s[j + 1]);
        }
        lemma_extent_skip(s2, (slots - 1) as nat, (i - 1) as nat);
        assert(s2.skip(i - 1) =~= s.skip(i as int));
    } else {
        assert(s.skip(0) =~= s);
    }
}

proof fn lemma_value_step(s: Seq<u8>, j: int, n: int)
    requires
        0 <= j < n <= s.len(),
    ensures
        varint_value(s.subrange(j, n)) == s[j] as nat + 128 * varint_value(s.subrange(j + 1, n)),
{
    assert(s.subrange(j, n).drop_first() =~= s.subrange(j + 1, n));
}

/// Bounds on the value of a short digit string, so that accumulating it cannot overflow.
spec fn digits_below(k: nat) -> nat
    decreases k,
{
    if k == 0 {
        1
    } else {
        128 * (digits_below((k - 1) as nat) + 1)
    }
}

proof fn lemma_digits_below_monotone(a: nat, b: nat)
    requires
        a <= b,
    ensures
        digits_below(a) <= digits_below(b),
    decreases b,
{
    if a < b {
        lemma_digits_below_monotone(a, (b - 1) as nat);
    }
}

/// Decodes a varint from the start of a byte slice, returning its value and how many bytes it
/// spans.
pub fn decode_varint_slice(bytes: &[u8]) -> (r: Result<(u64, usize), DecodeError>)
    ensures
        match varint_decode(bytes@) {
            Ok((v, n)) => r matches Ok((x, m)) && x == v && m == n && m <= bytes@.len(),
            Err(k) => r matches Err(e) && e.spec_kind() == k && e.spec_path().len() == 0,
        },
{
    let len = bytes.len();
    let mut i: usize = 0;
    while i < 8 && i < len && bytes[i] >= 0x80
        invariant
            i <= 8,
            i <= len,
            len == bytes@.len(),
            forall|j: int| 0 <= j < i ==> bytes@[j] >= 128,
        decreases 8 - i,
    {
        i = i + 1;
    }
    proof {
        lemma_extent_skip(bytes@, 9, i as nat);
    }
    if i == len {
        return Err(DecodeError::new(DecodeErrorKind::Truncated));
    }
    let n = i + 1;
    assert(varint_extent(bytes@, 9) == Some(n as nat));
    let mut acc: u128 = 0;
    let mut j: usize = n;
    proof {
        reveal_with_fuel(digits_below, 10);
        assert(bytes@.subrange(n as int, n as int) =~= Seq::<u8>::empty());
    }
    while j > 0
        invariant
            j <= n <= 9,
            n <= bytes@.len(),
            acc == varint_value(bytes@.subrange(j as int, n as int)),
            acc < digits_below((n - j) as nat),
            digits_below(9) < 0x1_0000_0000_0000_0000_0000,
        decreases j,
    {
        proof {
            lemma_value_step(bytes@, j - 1, n as int);
            lemma_digits_below_monotone((n - j + 1) as nat, 9);
        }
        acc = bytes[j - 1] as u128 + 128 * acc;
        j = j - 1;
    }
    assert(bytes@.subrange(0, n as int) =~= bytes@.take(n as int));
    if acc > u64::MAX as u128 {
        Err(DecodeError::new(DecodeErrorKind::InvalidVarint))
    } else {
        Ok((acc as u64, n))
    }
}

/// Decodes a varint from the front of the buffer, consuming it. When decoding fails the buffer
/// is left as it was.
pub fn decode_varint(buf: &mut Bytes) -> (r: Result<u64, DecodeError>)
    ensures
        match varint_decode(bytes_contents(*old(buf))) {
            Ok((v, n)) => r matches Ok(x) && x == v && bytes_contents(*final(buf))
                == bytes_contents(*old(buf)).skip(n as int),
            Err(k) => r matches Err(e) && e.spec_kind() == k && e.spec_path().len() == 0
                && bytes_contents(*final(buf)) == bytes_contents(*old(buf)),
        },
{
    let decoded = decode_varint_slice(bytes_as_slice(buf));
    match decoded {
        Ok((value, n)) => {
            bytes_advance(buf, n);
            Ok(value)
        },
        Err(e) => Err(e),
    }
}

} // verus!

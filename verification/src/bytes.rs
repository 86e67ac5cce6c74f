//! Little-endian fields and byte ranges of an image.

use vstd::prelude::*;
use vstd::slice::slice_subrange;

verus! {

/// The little-endian `u16` that starts at `at`.
#[verifier::opaque]
pub open spec fn le_u16(s: Seq<u8>, at: int) -> u16 {
    (s[at] + 0x100 * s[at + 1]) as u16
}

/// The little-endian `u32` that starts at `at`.
#[verifier::opaque]
pub open spec fn le_u32(s: Seq<u8>, at: int) -> u32 {
    (s[at] + 0x100 * s[at + 1] + 0x1_0000 * s[at + 2] + 0x100_0000 * s[at + 3]) as u32
}

/// The little-endian `u64` that starts at `at`.
#[verifier::opaque]
pub open spec fn le_u64(s: Seq<u8>, at: int) -> u64 {
    (le_u32(s, at) + 0x1_0000_0000 * le_u32(s, at + 4)) as u64
}

/// The two bytes of `value`, least significant first.
pub open spec fn u16_bytes(value: u16) -> Seq<u8> {
    seq![(value % 0x100) as u8, (value / 0x100) as u8]
}

/// The four bytes of `value`, least significant first.
pub open spec fn u32_bytes(value: u32) -> Seq<u8> {
    seq![
        (value % 0x100) as u8,
        (value / 0x100 % 0x100) as u8,
        (value / 0x1_0000 % 0x100) as u8,
        (value / 0x100_0000) as u8,
    ]
}

/// The eight bytes of `value`, least significant first.
pub open spec fn u64_bytes(value: u64) -> Seq<u8> {
    u32_bytes((value % 0x1_0000_0000) as u32) + u32_bytes((value / 0x1_0000_0000) as u32)
}

/// `s` with the bytes from `at` on replaced by `bytes`, as a write at `at` leaves a file:
/// what lies past the written bytes stays, and the file grows where they reach past its end.
pub open spec fn overwritten(s: Seq<u8>, at: int, bytes: Seq<u8>) -> Seq<u8> {
    let end = at + bytes.len();
    s.take(at) + bytes + (if end <= s.len() { s.skip(end) } else { Seq::empty() })
}

/// `s` cut or zero-extended to `len` bytes.
pub open spec fn resized(s: Seq<u8>, len: nat) -> Seq<u8> {
    if len <= s.len() {
        s.take(len as int)
    } else {
        s + zeros((len - s.len()) as nat)
    }
}

/// `len` zero bytes.
pub open spec fn zeros(len: nat) -> Seq<u8> {
    Seq::new(len, |i: int| 0u8)
}

/// Whether every byte of `s` is zero.
pub open spec fn all_zero(s: Seq<u8>) -> bool {
    forall|i: int| 0 <= i < s.len() ==> #[trigger] s[i] == 0
}

/// The `u16` at `at`.
pub fn read_u16(data: &[u8], at: usize) -> (value: u16)
    requires
        at + 2 <= data.len(),
    ensures
        value == le_u16(data@, at as int),
        value == data@[at as int] + 0x100 * data@[at + 1],
{
    reveal(le_u16);
    data[at] as u16 + 0x100 * data[at + 1] as u16
}

/// The `u32` at `at`.
pub fn read_u32(data: &[u8], at: usize) -> (value: u32)
    requires
        at + 4 <= data.len(),
    ensures
        value == le_u32(data@, at as int),
        value == data@[at as int] + 0x100 * data@[at + 1] + 0x1_0000 * data@[at + 2] + 0x100_0000
            * data@[at + 3],
{
    reveal(le_u32);
    data[at] as u32 + 0x100 * data[at + 1] as u32 + 0x1_0000 * data[at + 2] as u32
        + 0x100_0000 * data[at + 3] as u32
}

/// The `u64` at `at`.
pub fn read_u64(data: &[u8], at: usize) -> (value: u64)
    requires
        at + 8 <= data.len(),
    ensures
        value == le_u64(data@, at as int),
        value == data@[at as int] + 0x100 * data@[at + 1] + 0x1_0000 * data@[at + 2] + 0x100_0000
            * data@[at + 3] + 0x1_0000_0000 * data@[at + 4] + 0x100_0000_0000 * data@[at + 5]
            + 0x1_0000_0000_0000 * data@[at + 6] + 0x100_0000_0000_0000 * data@[at + 7],
{
    reveal(le_u64);
    read_u32(data, at) as u64 + 0x1_0000_0000 * read_u32(data, at + 4) as u64
}

/// Writes `bytes` over `data` from `at` on, growing `data` where they reach past its end.
pub fn overwrite(data: &mut Vec<u8>, at: usize, bytes: &[u8])
    requires
        at <= old(data).len(),
    ensures
        final(data)@ == overwritten(old(data)@, at as int, bytes@),
        final(data)@.len() == (if at + bytes.len() <= old(data)@.len() {
            old(data)@.len() as int
        } else {
            at + bytes.len()
        }),
        forall|i: int|
            0 <= i < final(data)@.len() ==> #[trigger] final(data)@[i] == (if at <= i < at
                + bytes.len() {
                bytes@[i - at]
            } else {
                old(data)@[i]
            }),
{
    let ghost before = data@;
    let mut i: usize = 0;
    while i < bytes.len()
        invariant
            i <= bytes.len(),
            at <= before.len(),
            data@ == overwritten(before, at as int, bytes@.take(i as int)),
        decreases bytes.len() - i,
    {
        let ghost step = data@;
        if at < data.len() && i < data.len() - at {
            data[at + i] = bytes[i];
        } else {
            data.push(bytes[i]);
        }
        proof {
            let grown = bytes@.take(i + 1);
            assert(grown == bytes@.take(i as int).push(bytes@[i as int]));
            assert(data@ =~= overwritten(before, at as int, grown));
        }
        i = i + 1;
    }
    assert(bytes@.take(i as int) == bytes@);
}

/// The bytes of `value`, least significant first.
pub fn encode_u16(value: u16) -> (bytes: [u8; 2])
    ensures
        bytes@ == u16_bytes(value),
        value == bytes@[0] + 0x100 * bytes@[1],
{
    [(value % 0x100) as u8, (value / 0x100) as u8]
}

/// The bytes of `value`, least significant first.
pub fn encode_u32(value: u32) -> (bytes: [u8; 4])
    ensures
        bytes@ == u32_bytes(value),
        value == bytes@[0] + 0x100 * bytes@[1] + 0x1_0000 * bytes@[2] + 0x100_0000 * bytes@[3],
{
    [
        (value % 0x100) as u8,
        (value / 0x100 % 0x100) as u8,
        (value / 0x1_0000 % 0x100) as u8,
        (value / 0x100_0000) as u8,
    ]
}

/// The bytes of `value`, least significant first.
pub fn encode_u64(value: u64) -> (bytes: [u8; 8])
    ensures
        bytes@ == u64_bytes(value),
        value == bytes@[0] + 0x100 * bytes@[1] + 0x1_0000 * bytes@[2] + 0x100_0000 * bytes@[3]
            + 0x1_0000_0000 * bytes@[4] + 0x100_0000_0000 * bytes@[5] + 0x1_0000_0000_0000
            * bytes@[6] + 0x100_0000_0000_0000 * bytes@[7],
{
    let low: [u8; 4] = encode_u32((value % 0x1_0000_0000) as u32);
    let high: [u8; 4] = encode_u32((value / 0x1_0000_0000) as u32);
    [low[0], low[1], low[2], low[3], high[0], high[1], high[2], high[3]]
}

/// Cuts or zero-extends `data` to `len` bytes.
pub fn resize(data: &mut Vec<u8>, len: usize)
    ensures
        final(data)@ == resized(old(data)@, len as nat),
        final(data)@.len() == len,
        forall|i: int|
            0 <= i < len ==> #[trigger] final(data)@[i] == (if i < old(data)@.len() {
                old(data)@[i]
            } else {
                0
            }),
{
    let ghost before = data@;
    data.resize(len, 0);
    proof {
        if len > before.len() {
            assert(data@ =~= before + zeros((len - before.len()) as nat)) by {
                assert forall|i: int| 0 <= i < len implies data@[i] == (before + zeros(
                    (len - before.len()) as nat,
                ))[i] by {
                    if i < before.len() {
                        assert(data@.subrange(0, before.len() as int)[i] == before[i]);
                    }
                }
            }
        }
    }
}

/// Appends `bytes` to `data`.
pub fn append_bytes(data: &mut Vec<u8>, bytes: &[u8])
    ensures
        final(data)@ == old(data)@ + bytes@,
{
    let ghost before = data@;
    data.extend_from_slice(bytes);
    assert(data@ =~= before + bytes@);
}

/// Whether every byte of `data` is zero.
pub fn is_all_zero(data: &[u8]) -> (zero: bool)
    ensures
        zero == all_zero(data@),
        zero == (forall|i: int| 0 <= i < data@.len() ==> #[trigger] data@[i] == 0),
{
    let mut i: usize = 0;
    while i < data.len()
        invariant
            i <= data.len(),
            forall|j: int| 0 <= j < i ==> #[trigger] data@[j] == 0,
        decreases data.len() - i,
    {
        if data[i] != 0 {
            return false;
        }
        i = i + 1;
    }
    true
}

/// Whether the two byte strings are the same.
pub fn same_bytes(left: &[u8], right: &[u8]) -> (same: bool)
    ensures
        same == (left@ == right@),
{
    if left.len() != right.len() {
        return false;
    }
    let mut i: usize = 0;
    while i < left.len()
        invariant
            i <= left.len(),
            left.len() == right.len(),
            forall|j: int| 0 <= j < i ==> left@[j] == right@[j],
        decreases left.len() - i,
    {
        if left[i] != right[i] {
            return false;
        }
        i = i + 1;
    }
    assert(left@ =~= right@);
    true
}

/// Whether `data` holds `expected` at `at`.
pub fn holds_at(data: &[u8], at: usize, expected: &[u8]) -> (holds: bool)
    requires
        at + expected.len() <= data.len(),
    ensures
        holds == (data@.subrange(at as int, at + expected.len()) == expected@),
{
    same_bytes(slice_subrange(data, at, at + expected.len()), expected)
}

/// An encoded `u16` reads back as itself.
pub proof fn lemma_u16_round_trip(value: u16)
    ensures
        le_u16(u16_bytes(value), 0) == value,
{
    reveal(le_u16);
}

/// An encoded `u32` reads back as itself.
pub proof fn lemma_u32_round_trip(value: u32)
    ensures
        le_u32(u32_bytes(value), 0) == value,
{
    reveal(le_u32);
}

/// An encoded `u64` reads back as itself.
pub proof fn lemma_u64_round_trip(value: u64)
    ensures
        le_u64(u64_bytes(value), 0) == value,
{
    reveal(le_u64);
    let low = (value % 0x1_0000_0000) as u32;
    let high = (value / 0x1_0000_0000) as u32;
    let bytes = u64_bytes(value);
    lemma_u32_round_trip(low);
    lemma_u32_round_trip(high);
    assert(bytes.subrange(0, 4) =~= u32_bytes(low).subrange(0, 4));
    assert(bytes.subrange(4, 8) =~= u32_bytes(high).subrange(0, 4));
    lemma_le_u32_window(bytes, 0, u32_bytes(low), 0);
    lemma_le_u32_window(bytes, 4, u32_bytes(high), 0);
}

/// Two equal bytes read as equal `u16` values.
pub proof fn lemma_le_u16_window(s: Seq<u8>, at: int, t: Seq<u8>, to: int)
    requires
        0 <= at && at + 2 <= s.len(),
        0 <= to && to + 2 <= t.len(),
        s.subrange(at, at + 2) == t.subrange(to, to + 2),
    ensures
        le_u16(s, at) == le_u16(t, to),
{
    reveal(le_u16);
    let window = s.subrange(at, at + 2);
    assert(window[0] == s[at] && window[1] == s[at + 1]);
    assert(window[0] == t[to] && window[1] == t[to + 1]);
}

/// Four equal bytes read as equal `u32` values.
pub proof fn lemma_le_u32_window(s: Seq<u8>, at: int, t: Seq<u8>, to: int)
    requires
        0 <= at && at + 4 <= s.len(),
        0 <= to && to + 4 <= t.len(),
        s.subrange(at, at + 4) == t.subrange(to, to + 4),
    ensures
        le_u32(s, at) == le_u32(t, to),
{
    reveal(le_u32);
    let window = s.subrange(at, at + 4);
    assert(window[0] == s[at] && window[1] == s[at + 1] && window[2] == s[at + 2] && window[3]
        == s[at + 3]);
    assert(window[0] == t[to] && window[1] == t[to + 1] && window[2] == t[to + 2] && window[3]
        == t[to + 3]);
}

/// Eight equal bytes read as equal `u64` values.
pub proof fn lemma_le_u64_window(s: Seq<u8>, at: int, t: Seq<u8>, to: int)
    requires
        0 <= at && at + 8 <= s.len(),
        0 <= to && to + 8 <= t.len(),
        s.subrange(at, at + 8) == t.subrange(to, to + 8),
    ensures
        le_u64(s, at) == le_u64(t, to),
{
    reveal(le_u64);
    let left = s.subrange(at, at + 8);
    let right = t.subrange(to, to + 8);
    assert(s.subrange(at, at + 4) =~= left.subrange(0, 4));
    assert(t.subrange(to, to + 4) =~= right.subrange(0, 4));
    assert(s.subrange(at + 4, at + 8) =~= left.subrange(4, 8));
    assert(t.subrange(to + 4, to + 8) =~= right.subrange(4, 8));
    lemma_le_u32_window(s, at, t, to);
    lemma_le_u32_window(s, at + 4, t, to + 4);
}

/// The bytes that a `u32` was read from are those that it is encoded to.
pub proof fn lemma_u32_bytes_of_le(s: Seq<u8>, at: int)
    requires
        0 <= at && at + 4 <= s.len(),
    ensures
        u32_bytes(le_u32(s, at)) == s.subrange(at, at + 4),
{
    reveal(le_u32);
    let value = le_u32(s, at);
    let upper = s[at + 1] + 0x100 * s[at + 2] + 0x1_0000 * s[at + 3];
    let high = s[at + 2] + 0x100 * s[at + 3];
    assert(value == s[at] + 0x100 * upper && value == s[at] + 0x100 * s[at + 1] + 0x1_0000 * high);
    assert(value % 0x100 == s[at]);
    assert(value / 0x100 == upper && upper % 0x100 == s[at + 1] as int);
    assert(value / 0x1_0000 == high && high % 0x100 == s[at + 2] as int);
    assert(value / 0x100_0000 == s[at + 3]);
    assert(u32_bytes(value) =~= s.subrange(at, at + 4));
}

/// The bytes that a `u64` was read from are those that it is encoded to.
pub proof fn lemma_u64_bytes_of_le(s: Seq<u8>, at: int)
    requires
        0 <= at && at + 8 <= s.len(),
    ensures
        u64_bytes(le_u64(s, at)) == s.subrange(at, at + 8),
{
    let low = le_u32(s, at);
    let high = le_u32(s, at + 4);
    let value = le_u64(s, at);
    assert(value == low + 0x1_0000_0000 * high) by {
        reveal(le_u64);
    }
    assert((value % 0x1_0000_0000) as u32 == low && (value / 0x1_0000_0000) as u32 == high);
    assert(u64_bytes(value) == u32_bytes(low) + u32_bytes(high));
    lemma_u32_bytes_of_le(s, at);
    lemma_u32_bytes_of_le(s, at + 4);
    assert(s.subrange(at, at + 8) =~= s.subrange(at, at + 4) + s.subrange(at + 4, at + 8));
}

/// An overwritten byte string holds the written bytes where they were written and the old bytes
/// elsewhere.
pub proof fn lemma_overwritten(s: Seq<u8>, at: int, written: Seq<u8>)
    requires
        0 <= at,
        at + written.len() <= s.len(),
    ensures
        overwritten(s, at, written).len() == s.len(),
        forall|i: int|
            0 <= i < s.len() ==> #[trigger] overwritten(s, at, written)[i] == (if at <= i < at
                + written.len() {
                written[i - at]
            } else {
                s[i]
            }),
{
}

} // verus!

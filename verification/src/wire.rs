//! The variable-length integer wire format, and the trusted byte-cursor
//! primitives of the `octets` crate that read and write it.
//!
//! An integer travels as 1, 2, 4 or 8 bytes. The two most significant bits
//! of the first byte select the length class; the remaining 6 bits,
//! concatenated big-endian with the following bytes, hold the value.
//! Encoding always selects the smallest class that can hold the value, so
//! integers of `2^62` and above cannot be represented.

use vstd::prelude::*;

verus! {

/// The largest integer the variable-length wire format can represent.
pub const MAX_VARINT: u64 = 0x3fff_ffff_ffff_ffff;

/// Whether `v` is representable as a variable-length integer.
pub open spec fn varint_fits(v: u64) -> bool {
    v <= MAX_VARINT
}

/// The encoded length of `v`: the smallest of the four length classes
/// whose capacity exceeds `v`.
pub open spec fn varint_len_of(v: u64) -> nat {
    if v < 0x40 {
        1
    } else if v < 0x4000 {
        2
    } else if v < 0x4000_0000 {
        4
    } else {
        8
    }
}

/// The capacity of the length class of `n` bytes: the least integer that
/// does not fit in that class.
pub open spec fn varint_class_bound(n: nat) -> u64
    recommends
        n == 1 || n == 2 || n == 4 || n == 8,
{
    if n == 1 {
        0x40
    } else if n == 2 {
        0x4000
    } else if n == 4 {
        0x4000_0000
    } else {
        0x4000_0000_0000_0000
    }
}

/// The exact byte sequence of the variable-length encoding of `v`:
/// big-endian value bytes, with the class selector in the two top bits of
/// the first byte.
pub open spec fn varint_bytes(v: u64) -> Seq<u8>
    recommends
        varint_fits(v),
{
    if v < 0x40 {
        seq![(v & 0x3f) as u8]
    } else if v < 0x4000 {
        seq![(((v >> 8) & 0x3f) | 0x40) as u8, (v & 0xff) as u8]
    } else if v < 0x4000_0000 {
        seq![
            (((v >> 24) & 0x3f) | 0x80) as u8,
            ((v >> 16) & 0xff) as u8,
            ((v >> 8) & 0xff) as u8,
            (v & 0xff) as u8,
        ]
    } else {
        seq![
            (((v >> 56) & 0x3f) | 0xc0) as u8,
            ((v >> 48) & 0xff) as u8,
            ((v >> 40) & 0xff) as u8,
            ((v >> 32) & 0xff) as u8,
            ((v >> 24) & 0xff) as u8,
            ((v >> 16) & 0xff) as u8,
            ((v >> 8) & 0xff) as u8,
            (v & 0xff) as u8,
        ]
    }
}

/// The total length of a variable-length integer, read off the class
/// selector bits of its first byte.
pub open spec fn varint_parse_len(first: u8) -> nat {
    if first < 0x40 {
        1
    } else if first < 0x80 {
        2
    } else if first < 0xc0 {
        4
    } else {
        8
    }
}

/// The integer value of the variable-length encoding that starts at
/// `data[off]`: the class selector bits are masked off and the value bytes
/// are concatenated big-endian.
pub open spec fn varint_value_at(data: Seq<u8>, off: int) -> u64
    recommends
        0 <= off < data.len(),
        off + varint_parse_len(data[off]) <= data.len(),
{
    let b0 = (data[off] & 0x3f) as u64;
    if data[off] < 0x40 {
        b0
    } else if data[off] < 0x80 {
        (b0 << 8) | (data[off + 1] as u64)
    } else if data[off] < 0xc0 {
        (b0 << 24) | ((data[off + 1] as u64) << 16) | ((data[off + 2] as u64) << 8) | (data[off
            + 3] as u64)
    } else {
        (b0 << 56) | ((data[off + 1] as u64) << 48) | ((data[off + 2] as u64) << 40) | ((data[off
            + 3] as u64) << 32) | ((data[off + 4] as u64) << 24) | ((data[off + 5] as u64) << 16)
            | ((data[off + 6] as u64) << 8) | (data[off + 7] as u64)
    }
}

/// Computes the encoded length of `v`.
pub fn varint_len(v: u64) -> (n: usize)
    ensures
        n == varint_len_of(v),
{
    if v < 0x40 {
        1
    } else if v < 0x4000 {
        2
    } else if v < 0x4000_0000 {
        4
    } else {
        8
    }
}

/// Computes the total length of a variable-length integer from its first
/// byte.
pub fn varint_header_len(first: u8) -> (n: usize)
    ensures
        n == varint_parse_len(first),
{
    if first < 0x40 {
        1
    } else if first < 0x80 {
        2
    } else if first < 0xc0 {
        4
    } else {
        8
    }
}

/// The encoding of `v` is exactly `varint_len_of(v)` bytes, `v` fits the
/// class that was selected, and no smaller class could have held it.
pub proof fn lemma_varint_minimal_class(v: u64)
    requires
        varint_fits(v),
    ensures
        varint_bytes(v).len() == varint_len_of(v),
        v < varint_class_bound(varint_len_of(v)),
        forall|n: nat|
            (n == 1 || n == 2 || n == 4 || n == 8) && n < varint_len_of(v)
                ==> varint_class_bound(n) <= v,
{
}

/// Decoding inverts encoding: wherever `data` holds the encoding of `v`,
/// the first byte announces the encoded length and the decoded value is
/// exactly `v`.
pub proof fn lemma_varint_round_trip(data: Seq<u8>, off: int, v: u64)
    requires
        varint_fits(v),
        0 <= off,
        off + varint_len_of(v) <= data.len(),
        data.subrange(off, off + varint_len_of(v) as int) == varint_bytes(v),
    ensures
        varint_parse_len(data[off]) == varint_len_of(v),
        varint_value_at(data, off) == v,
{
    let n = varint_len_of(v) as int;
    let bs = varint_bytes(v);
    assert forall|i: int| 0 <= i < n implies data[off + i] == #[trigger] bs[i] by {
        assert(data.subrange(off, off + n)[i] == data[off + i]);
    }
    if v < 0x40 {
        let b0: u8 = data[off];
        assert(data[off + 0] == bs[0]);
        assert(b0 == (v & 0x3f) as u8);
        assert(b0 < 0x40 && ((b0 & 0x3f) as u64) == v) by (bit_vector)
            requires
                b0 == (v & 0x3f) as u8,
                v < 0x40,
        ;
    } else if v < 0x4000 {
        let b0: u8 = data[off];
        let b1: u8 = data[off + 1];
        assert(data[off + 0] == bs[0] && data[off + 1] == bs[1]);
        assert(b0 == (((v >> 8) & 0x3f) | 0x40) as u8 && b1 == (v & 0xff) as u8);
        assert(0x40 <= b0 < 0x80 && ((((b0 & 0x3f) as u64) << 8) | (b1 as u64)) == v)
            by (bit_vector)
            requires
                b0 == (((v >> 8) & 0x3f) | 0x40) as u8,
                b1 == (v & 0xff) as u8,
                0x40 <= v < 0x4000,
        ;
    } else if v < 0x4000_0000 {
        let b0: u8 = data[off];
        let b1: u8 = data[off + 1];
        let b2: u8 = data[off + 2];
        let b3: u8 = data[off + 3];
        assert(data[off + 0] == bs[0] && data[off + 1] == bs[1] && data[off + 2] == bs[2]
            && data[off + 3] == bs[3]);
        assert(b0 == (((v >> 24) & 0x3f) | 0x80) as u8 && b1 == ((v >> 16) & 0xff) as u8 && b2
            == ((v >> 8) & 0xff) as u8 && b3 == (v & 0xff) as u8);
        assert(0x80 <= b0 < 0xc0 && ((((b0 & 0x3f) as u64) << 24) | ((b1 as u64) << 16) | ((
        b2 as u64) << 8) | (b3 as u64)) == v) by (bit_vector)
            requires
                b0 == (((v >> 24) & 0x3f) | 0x80) as u8,
                b1 == ((v >> 16) & 0xff) as u8,
                b2 == ((v >> 8) & 0xff) as u8,
                b3 == (v & 0xff) as u8,
                0x4000 <= v < 0x4000_0000,
        ;
    } else {
        let b0: u8 = data[off];
        let b1: u8 = data[off + 1];
        let b2: u8 = data[off + 2];
        let b3: u8 = data[off + 3];
        let b4: u8 = data[off + 4];
        let b5: u8 = data[off + 5];
        let b6: u8 = data[off + 6];
        let b7: u8 = data[off + 7];
        assert(data[off + 0] == bs[0] && data[off + 1] == bs[1] && data[off + 2] == bs[2]
            && data[off + 3] == bs[3] && data[off + 4] == bs[4] && data[off + 5] == bs[5]
            && data[off + 6] == bs[6] && data[off + 7] == bs[7]);
        assert(b0 == (((v >> 56) & 0x3f) | 0xc0) as u8 && b1 == ((v >> 48) & 0xff) as u8 && b2
            == ((v >> 40) & 0xff) as u8 && b3 == ((v >> 32) & 0xff) as u8 && b4 == ((v >> 24)
            & 0xff) as u8 && b5 == ((v >> 16) & 0xff) as u8 && b6 == ((v >> 8) & 0xff) as u8
            && b7 == (v & 0xff) as u8);
        assert(0xc0 <= b0 && ((((b0 & 0x3f) as u64) << 56) | ((b1 as u64) << 48) | ((b2 as u64)
            << 40) | ((b3 as u64) << 32) | ((b4 as u64) << 24) | ((b5 as u64) << 16) | ((
        b6 as u64) << 8) | (b7 as u64)) == v) by (bit_vector)
            requires
                b0 == (((v >> 56) & 0x3f) | 0xc0) as u8,
                b1 == ((v >> 48) & 0xff) as u8,
                b2 == ((v >> 40) & 0xff) as u8,
                b3 == ((v >> 32) & 0xff) as u8,
                b4 == ((v >> 24) & 0xff) as u8,
                b5 == ((v >> 16) & 0xff) as u8,
                b6 == ((v >> 8) & 0xff) as u8,
                b7 == (v & 0xff) as u8,
                0x4000_0000 <= v <= 0x3fff_ffff_ffff_ffff,
        ;
    }
}

/// Relies on `octets::OctetsMut::put_varint` (via `with_slice`): it writes
/// the variable-length encoding of `v` -- the big-endian value bytes with
/// the class selector in the top two bits of the first byte -- at the start
/// of the slice it is given, and touches nothing else. It panics on values
/// above `MAX_VARINT` and fails without writing when the slice is shorter
/// than the encoding, so both are excluded here.
#[verifier::external_body]
pub(crate) fn octets_put_varint(buf: &mut Vec<u8>, off: usize, v: u64)
    requires
        varint_fits(v),
        off + varint_len_of(v) <= old(buf)@.len(),
    ensures
        final(buf)@.len() == old(buf)@.len(),
        forall|i: int|
            off <= i < off + varint_len_of(v) ==> final(buf)@[i] == varint_bytes(v)[i - off],
        forall|i: int|
            0 <= i < old(buf)@.len() && !(off <= i < off + varint_len_of(v))
                ==> final(buf)@[i] == old(buf)@[i],
{
    let mut b = octets::OctetsMut::with_slice(&mut buf[off..]);
    let _ = b.put_varint(v);
}

/// Relies on `octets::OctetsMut::put_bytes` (via `with_slice`): it copies
/// `data` to the start of the slice it is given and touches nothing else,
/// failing without writing when the slice is too short, which is excluded
/// here.
#[verifier::external_body]
pub(crate) fn octets_put_bytes(buf: &mut Vec<u8>, off: usize, data: &Vec<u8>)
    requires
        off + data@.len() <= old(buf)@.len(),
    ensures
        final(buf)@.len() == old(buf)@.len(),
        forall|i: int| off <= i < off + data@.len() ==> final(buf)@[i] == data@[i - off],
        forall|i: int|
            0 <= i < old(buf)@.len() && !(off <= i < off + data@.len())
                ==> final(buf)@[i] == old(buf)@[i],
{
    let mut b = octets::OctetsMut::with_slice(&mut buf[off..]);
    let _ = b.put_bytes(data.as_slice());
}

/// Relies on `octets::Octets::get_varint` (via `with_slice`): it reads the
/// class selector from the first byte of the slice it is given, reads that
/// many bytes in total, and returns the big-endian value with the selector
/// bits masked off; it fails exactly when the slice ends before the
/// encoding does.
#[verifier::external_body]
pub(crate) fn octets_get_varint(data: &[u8], off: usize) -> (r: Option<u64>)
    requires
        off <= data@.len(),
    ensures
        match r {
            Some(v) => off < data@.len() && off + varint_parse_len(data@[off as int])
                <= data@.len() && v == varint_value_at(data@, off as int),
            None => off == data@.len() || off + varint_parse_len(data@[off as int])
                > data@.len(),
        },
{
    let mut b = octets::Octets::with_slice(&data[off..]);
    b.get_varint().ok()
}

/// Relies on `octets::Octets::get_bytes` (via `with_slice`) and
/// `octets::Octets::to_vec`: they copy out the `n` bytes at the start of
/// the slice given, failing exactly when fewer than `n` remain.
#[verifier::external_body]
pub(crate) fn octets_get_bytes(data: &[u8], off: usize, n: usize) -> (r: Option<Vec<u8>>)
    requires
        off <= data@.len(),
    ensures
        match r {
            Some(v) => off + n <= data@.len() && v@ == data@.subrange(
                off as int,
                off + n as int,
            ),
            None => off + n > data@.len(),
        },
{
    let mut b = octets::Octets::with_slice(&data[off..]);
    match b.get_bytes(n) {
        Ok(x) => Some(x.to_vec()),
        Err(_) => None,
    }
}

} // verus!


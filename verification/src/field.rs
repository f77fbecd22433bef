//! A named field and its wire encoding rule.

use crate::value::{Val, ValInfo, ValView};
use crate::wire::{
    MAX_VARINT, octets_get_bytes, octets_get_varint, octets_put_bytes, octets_put_varint,
    varint_bytes, varint_fits, varint_header_len, varint_len, varint_len_of, varint_parse_len,
    varint_value_at,
};
use crate::{FieldName, ToBytesError, ToValuesError};
use vstd::prelude::*;
use vstd::slice::slice_index_get;

verus! {

broadcast use vstd::slice::axiom_spec_len;

/// A field's wire encoding rule.
pub enum Def {
    /// A variable-length integer, free or constant.
    VarInt(U64),
    /// A byte sequence, of fixed length or length-prefixed.
    Bytes(Len),
    /// A constant byte sequence: always emitted verbatim on encode,
    /// always validated on decode.
    FixedBytes(Vec<u8>),
}

/// Whether an integer field's value is caller-supplied or a schema
/// constant.
pub enum U64 {
    Var,
    Fixed(u64),
}

/// How a byte field's length travels: fixed by the schema, or as a
/// variable-length integer prefix on the wire.
pub enum Len {
    Fixed(usize),
    Var,
}

/// The mathematical value of an optional borrowed [`Val`].
pub open spec fn deref_val(value: Option<&Val>) -> Option<ValView> {
    match value {
        Some(v) => Some(v@),
        None => None,
    }
}

/// Whether the field's value is caller-supplied rather than a schema
/// constant.
pub open spec fn def_is_free(def: Def) -> bool {
    match def {
        Def::VarInt(U64::Var) => true,
        Def::Bytes(_) => true,
        _ => false,
    }
}

/// Whether encoding fails for want of a caller-supplied value: a free
/// integer field or a byte field with no value at all. A value of the
/// wrong variant is supplied, not missing: that is a value conflict.
pub open spec fn def_wants_value(def: Def, value: Option<ValView>) -> bool {
    match def {
        Def::VarInt(U64::Var) => value is None,
        Def::Bytes(_) => value is None,
        _ => false,
    }
}

/// Whether `value` satisfies the field's definition, so that the field can
/// be encoded (given enough space): constants must be matched or omitted,
/// free values must be present, of the right kind, and representable.
pub open spec fn def_accepts(def: Def, value: Option<ValView>) -> bool {
    match def {
        Def::VarInt(u) => match u {
            U64::Fixed(k) => varint_fits(k) && match value {
                None => true,
                Some(ValView::VarInt(y)) => y == k,
                Some(ValView::Bytes(_)) => false,
            },
            U64::Var => match value {
                Some(ValView::VarInt(y)) => varint_fits(y),
                _ => false,
            },
        },
        Def::Bytes(l) => match (l, value) {
            (Len::Fixed(n), Some(ValView::Bytes(s))) => s.len() == n,
            (Len::Var, Some(ValView::Bytes(s))) => s.len() <= MAX_VARINT,
            _ => false,
        },
        Def::FixedBytes(lit) => match value {
            None => true,
            Some(ValView::Bytes(s)) => s == lit@,
            Some(ValView::VarInt(_)) => false,
        },
    }
}

/// The bytes the field contributes to the wire when `value` satisfies its
/// definition.
pub open spec fn def_bytes(def: Def, value: Option<ValView>) -> Seq<u8>
    recommends
        def_accepts(def, value),
{
    match def {
        Def::VarInt(u) => match u {
            U64::Fixed(k) => varint_bytes(k),
            U64::Var => match value {
                Some(ValView::VarInt(y)) => varint_bytes(y),
                _ => Seq::empty(),
            },
        },
        Def::Bytes(l) => match (l, value) {
            (Len::Fixed(_), Some(ValView::Bytes(s))) => s,
            (Len::Var, Some(ValView::Bytes(s))) => varint_bytes(s.len() as u64) + s,
            _ => Seq::empty(),
        },
        Def::FixedBytes(lit) => lit@,
    }
}

/// The outcome of encoding one field into `cap` remaining bytes: the bytes
/// it appends, or the error it stops on. A missing value is reported
/// before a conflicting one, and both before exhausted space.
pub open spec fn spec_field_to_bytes<F: FieldName>(
    name: F,
    def: Def,
    value: Option<ValView>,
    cap: int,
) -> Result<Seq<u8>, ToBytesError<F>> {
    if def_wants_value(def, value) {
        Err(ToBytesError::NoValueProvided(name))
    } else if !def_accepts(def, value) {
        Err(ToBytesError::InvalidValue(name))
    } else if def_bytes(def, value).len() > cap {
        Err(ToBytesError::NotEnoughSpace(name))
    } else {
        Ok(def_bytes(def, value))
    }
}

/// The value a successful decode stores for the field, given the value it
/// was encoded from: free fields reproduce the encoded value, constant
/// fields their constant.
pub open spec fn decoded_val(def: Def, value: Option<ValView>) -> ValView
    recommends
        def_accepts(def, value),
{
    match def {
        Def::VarInt(u) => match u {
            U64::Fixed(k) => ValView::VarInt(k),
            U64::Var => match value {
                Some(v) => v,
                None => ValView::VarInt(0),
            },
        },
        Def::Bytes(_) => match value {
            Some(v) => v,
            None => ValView::VarInt(0),
        },
        Def::FixedBytes(lit) => ValView::Bytes(lit@),
    }
}

/// The outcome of decoding one field of `data` at offset `off`: the value
/// read and the offset just past it, or the error the read stops on.
pub open spec fn spec_field_to_value<F: FieldName>(
    name: F,
    def: Def,
    data: Seq<u8>,
    off: int,
) -> Result<(ValView, int), ToValuesError<F>>
    recommends
        0 <= off <= data.len(),
{
    match def {
        Def::VarInt(u) => {
            if off == data.len() || off + varint_parse_len(data[off]) > data.len() {
                Err(ToValuesError::NotEnoughData(name))
            } else {
                let v = varint_value_at(data, off);
                let end = off + varint_parse_len(data[off]);
                match u {
                    U64::Fixed(k) => if v == k {
                        Ok((ValView::VarInt(v), end))
                    } else {
                        Err(ToValuesError::InvalidValue(name))
                    },
                    U64::Var => Ok((ValView::VarInt(v), end)),
                }
            }
        },
        Def::Bytes(l) => match l {
            Len::Fixed(n) => {
                if off + n > data.len() {
                    Err(ToValuesError::NotEnoughData(name))
                } else {
                    Ok((ValView::Bytes(data.subrange(off, off + n)), off + n))
                }
            },
            Len::Var => {
                if off == data.len() || off + varint_parse_len(data[off]) > data.len() {
                    Err(ToValuesError::NotEnoughData(name))
                } else {
                    let m = varint_value_at(data, off) as int;
                    let p = off + varint_parse_len(data[off]);
                    if p + m > data.len() {
                        Err(ToValuesError::NotEnoughData(name))
                    } else {
                        Ok((ValView::Bytes(data.subrange(p, p + m)), p + m))
                    }
                }
            },
        },
        Def::FixedBytes(lit) => {
            if off + lit@.len() > data.len() {
                Err(ToValuesError::NotEnoughData(name))
            } else if data.subrange(off, off + lit@.len() as int) != lit@ {
                Err(ToValuesError::InvalidValue(name))
            } else {
                Ok((ValView::Bytes(lit@), off + lit@.len() as int))
            }
        },
    }
}

/// Decoding inverts encoding, one field at a time: wherever `data` holds
/// the field's encoding of `value`, decoding succeeds, stores
/// [`decoded_val`], and consumes exactly the encoding.
pub proof fn lemma_field_round_trip<F: FieldName>(
    name: F,
    def: Def,
    value: Option<ValView>,
    data: Seq<u8>,
    off: int,
)
    requires
        def_accepts(def, value),
        0 <= off,
        off + def_bytes(def, value).len() <= data.len(),
        data.subrange(off, off + def_bytes(def, value).len() as int) == def_bytes(def, value),
    ensures
        spec_field_to_value::<F>(name, def, data, off) == Ok::<(ValView, int), ToValuesError<F>>(
            (decoded_val(def, value), off + def_bytes(def, value).len() as int),
        ),
{
    let bs = def_bytes(def, value);
    let n = bs.len() as int;
    assert forall|i: int| 0 <= i < n implies data[off + i] == #[trigger] bs[i] by {
        assert(data.subrange(off, off + n)[i] == data[off + i]);
    }
    match def {
        Def::VarInt(u) => {
            let k = match u {
                U64::Fixed(k) => k,
                U64::Var => match value {
                    Some(ValView::VarInt(y)) => y,
                    _ => 0,
                },
            };
            crate::wire::lemma_varint_round_trip(data, off, k);
        },
        Def::Bytes(l) => match (l, value) {
            (Len::Fixed(m), Some(ValView::Bytes(s))) => {
                assert(data.subrange(off, off + m) =~= s);
            },
            (Len::Var, Some(ValView::Bytes(s))) => {
                let lv = s.len() as u64;
                let pl = varint_len_of(lv) as int;
                assert(data.subrange(off, off + pl) =~= varint_bytes(lv)) by {
                    assert(forall|i: int|
                        0 <= i < pl ==> #[trigger] bs[i] == varint_bytes(lv)[i]);
                }
                crate::wire::lemma_varint_round_trip(data, off, lv);
                assert forall|i: int|
                    0 <= i < s.len() implies data.subrange(
                    off + pl,
                    off + pl + s.len() as int,
                )[i] == s[i] by {
                    assert(data.subrange(off + pl, off + pl + s.len() as int)[i] == data[off + pl
                        + i]);
                    assert(bs[pl + i] == s[i]);
                }
                assert(data.subrange(off + pl, off + pl + s.len() as int) =~= s);
            },
            _ => {},
        },
        Def::FixedBytes(lit) => {
            assert(data.subrange(off, off + lit@.len() as int) =~= lit@);
        },
    }
}

/// Compares two byte vectors for equality of their contents.
fn bytes_eq(a: &Vec<u8>, b: &Vec<u8>) -> (r: bool)
    ensures
        r == (a@ == b@),
{
    if a.len() != b.len() {
        return false;
    }
    let mut i: usize = 0;
    while i < a.len()
        invariant
            i <= a@.len() == b@.len(),
            forall|j: int| 0 <= j < i ==> a@[j] == b@[j],
        decreases a@.len() - i,
    {
        if a[i] != b[i] {
            return false;
        }
        i = i + 1;
    }
    proof {
        assert(a@ =~= b@);
    }
    true
}

/// Writes the variable-length encoding of `v` at `buf[off..]` on behalf of
/// the field called `name`, reporting an unrepresentable integer before
/// exhausted space.
fn write_varint_field<F: FieldName>(name: &F, v: u64, buf: &mut Vec<u8>, off: usize) -> (r:
    Result<usize, ToBytesError<F>>)
    requires
        off <= old(buf)@.len(),
    ensures
        final(buf)@.len() == old(buf)@.len(),
        match r {
            Ok(end) => varint_fits(v) && end == off + varint_len_of(v) && end
                <= final(buf)@.len() && (forall|i: int|
                off <= i < end ==> final(buf)@[i] == varint_bytes(v)[i - off]) && (forall|i: int|
                0 <= i < old(buf)@.len() && !(off <= i < end) ==> final(buf)@[i] == old(
                    buf,
                )@[i]),
            Err(e) => final(buf)@ == old(buf)@ && match e {
                ToBytesError::InvalidValue(n) => n == *name && !varint_fits(v),
                ToBytesError::NotEnoughSpace(n) => n == *name && varint_fits(v) && off
                    + varint_len_of(v) > old(buf)@.len(),
                _ => false,
            },
        },
{
    if v > MAX_VARINT {
        return Err(ToBytesError::InvalidValue(name.clone_name()));
    }
    let n = varint_len(v);
    if n > buf.len() - off {
        return Err(ToBytesError::NotEnoughSpace(name.clone_name()));
    }
    octets_put_varint(buf, off, v);
    Ok(off + n)
}

/// Copies `data` to `buf[off..]` on behalf of the field called `name`.
fn write_bytes_field<F: FieldName>(name: &F, data: &Vec<u8>, buf: &mut Vec<u8>, off: usize) -> (r:
    Result<usize, ToBytesError<F>>)
    requires
        off <= old(buf)@.len(),
    ensures
        final(buf)@.len() == old(buf)@.len(),
        match r {
            Ok(end) => end == off + data@.len() && end <= final(buf)@.len() && (forall|i: int|
                off <= i < end ==> final(buf)@[i] == data@[i - off]) && (forall|i: int|
                0 <= i < old(buf)@.len() && !(off <= i < end) ==> final(buf)@[i] == old(
                    buf,
                )@[i]),
            Err(e) => final(buf)@ == old(buf)@ && match e {
                ToBytesError::NotEnoughSpace(n) => n == *name && off + data@.len() > old(
                    buf,
                )@.len(),
                _ => false,
            },
        },
{
    if data.len() > buf.len() - off {
        return Err(ToBytesError::NotEnoughSpace(name.clone_name()));
    }
    octets_put_bytes(buf, off, data);
    Ok(off + data.len())
}

/// A name bound to a wire encoding rule: the unit of encode and decode.
pub struct Field<F> where F: FieldName {
    name: F,
    def: Def,
}

impl<F: FieldName> View for Field<F> {
    type V = (F, Def);

    closed spec fn view(&self) -> (F, Def) {
        (self.name, self.def)
    }
}

impl<F: FieldName> Field<F> {
    /// Binds `name` to the encoding rule `def`.
    #[must_use]
    pub fn new(name: F, def: Def) -> (r: Self)
        ensures
            r@ == (name, def),
    {
        Field { name, def }
    }

    /// The field's name.
    #[must_use]
    pub fn name(&self) -> (r: &F)
        ensures
            *r == self@.0,
    {
        &self.name
    }

    /// The field's encoding rule.
    #[must_use]
    pub fn def(&self) -> (r: &Def)
        ensures
            *r == self@.1,
    {
        &self.def
    }

    /// Encodes `value` under this field's rule into `buf[off..]`, returning
    /// the offset just past the bytes written. On an error nothing is
    /// written; see [`spec_field_to_bytes`] for which error comes on which
    /// input.
    pub fn to_bytes(&self, value: Option<&Val>, buf: &mut Vec<u8>, off: usize) -> (r: Result<
        usize,
        ToBytesError<F>,
    >)
        requires
            off <= old(buf)@.len(),
        ensures
            final(buf)@.len() == old(buf)@.len(),
            match r {
                Ok(end) => spec_field_to_bytes(
                    self@.0,
                    self@.1,
                    deref_val(value),
                    old(buf)@.len() - off,
                ) matches Ok(bs) && end == off + bs.len() && end <= final(buf)@.len() && (forall|
                    i: int,
                |
                    off <= i < end ==> final(buf)@[i] == bs[i - off]) && (forall|i: int|
                    0 <= i < old(buf)@.len() && !(off <= i < end) ==> final(buf)@[i] == old(
                        buf,
                    )@[i]),
                Err(e) => final(buf)@ == old(buf)@ && (spec_field_to_bytes(
                    self@.0,
                    self@.1,
                    deref_val(value),
                    old(buf)@.len() - off,
                ) matches Err(e2) && e2 == e),
            },
    {
        match &self.def {
            Def::VarInt(u) => match (u, value) {
                (U64::Fixed(x), Some(Val::VarInt(y))) => {
                    if *y != *x {
                        return Err(ToBytesError::InvalidValue(self.name.clone_name()));
                    }
                    write_varint_field(&self.name, *y, buf, off)
                },
                (U64::Var, Some(Val::VarInt(y))) => write_varint_field(&self.name, *y, buf, off),
                (U64::Fixed(x), None) => write_varint_field(&self.name, *x, buf, off),
                (U64::Var, None) => Err(ToBytesError::NoValueProvided(self.name.clone_name())),
                (_, Some(Val::Bytes(_))) => Err(
                    ToBytesError::InvalidValue(self.name.clone_name()),
                ),
            },
            Def::Bytes(l) => match (l, value) {
                (Len::Fixed(n), Some(Val::Bytes(x))) => {
                    if x.len() != *n {
                        return Err(ToBytesError::InvalidValue(self.name.clone_name()));
                    }
                    write_bytes_field(&self.name, x, buf, off)
                },
                (Len::Var, Some(Val::Bytes(x))) => {
                    let len64 = x.len() as u64;
                    if len64 > MAX_VARINT {
                        return Err(ToBytesError::InvalidValue(self.name.clone_name()));
                    }
                    let pl = varint_len(len64);
                    let avail = buf.len() - off;
                    if pl > avail || x.len() > avail - pl {
                        return Err(ToBytesError::NotEnoughSpace(self.name.clone_name()));
                    }
                    octets_put_varint(buf, off, len64);
                    octets_put_bytes(buf, off + pl, x);
                    proof {
                        let bs = def_bytes(self@.1, deref_val(value));
                        assert(forall|i: int|
                            off <= i < off + pl ==> final(buf)@[i] == bs[i - off]);
                        assert(forall|i: int|
                            off + pl <= i < off + pl + x@.len() ==> final(buf)@[i] == bs[i
                                - off]);
                    }
                    Ok(off + pl + x.len())
                },
                (_, None) => Err(ToBytesError::NoValueProvided(self.name.clone_name())),
                (_, Some(Val::VarInt(_))) => Err(
                    ToBytesError::InvalidValue(self.name.clone_name()),
                ),
            },
            Def::FixedBytes(x) => {
                match value {
                    Some(Val::Bytes(y)) => {
                        if !bytes_eq(y, x) {
                            return Err(ToBytesError::InvalidValue(self.name.clone_name()));
                        }
                    },
                    Some(Val::VarInt(_)) => {
                        return Err(ToBytesError::InvalidValue(self.name.clone_name()));
                    },
                    None => {},
                }
                write_bytes_field(&self.name, x, buf, off)
            },
        }
    }

    /// Decodes this field from `data` at offset `off`, returning the value
    /// read, tagged with `off`, and the offset just past the bytes
    /// consumed; see [`spec_field_to_value`] for which error comes on which
    /// input.
    pub fn to_value(&self, data: &[u8], off: usize) -> (r: Result<
        (ValInfo, usize),
        ToValuesError<F>,
    >)
        requires
            off <= data@.len(),
        ensures
            match r {
                Ok(p) => spec_field_to_value(self@.0, self@.1, data@, off as int) matches Ok(q)
                    && p.0@.value == q.0 && p.0@.pos == off && p.1 == q.1 && off <= p.1
                    <= data@.len(),
                Err(e) => spec_field_to_value(self@.0, self@.1, data@, off as int) matches Err(
                    e2,
                ) && e2 == e,
            },
    {
        let dlen: usize = data.len();
        proof {
            assert(dlen == data@.len());
        }
        match &self.def {
            Def::VarInt(u) => {
                match octets_get_varint(data, off) {
                    None => Err(ToValuesError::NotEnoughData(self.name.clone_name())),
                    Some(v) => {
                        let first = *slice_index_get(data, off);
                        let end = off + varint_header_len(first);
                        match u {
                            U64::Fixed(k) => {
                                if v != *k {
                                    Err(ToValuesError::InvalidValue(self.name.clone_name()))
                                } else {
                                    Ok((ValInfo { value: Val::VarInt(v), pos: off }, end))
                                }
                            },
                            U64::Var => Ok((ValInfo { value: Val::VarInt(v), pos: off }, end)),
                        }
                    },
                }
            },
            Def::Bytes(l) => match l {
                Len::Fixed(n) => {
                    match octets_get_bytes(data, off, *n) {
                        None => Err(ToValuesError::NotEnoughData(self.name.clone_name())),
                        Some(v) => Ok((ValInfo { value: Val::Bytes(v), pos: off }, off + n)),
                    }
                },
                Len::Var => {
                    match octets_get_varint(data, off) {
                        None => Err(ToValuesError::NotEnoughData(self.name.clone_name())),
                        Some(m) => {
                            let first = *slice_index_get(data, off);
                            let p = off + varint_header_len(first);
                            if m > (data.len() - p) as u64 {
                                Err(ToValuesError::NotEnoughData(self.name.clone_name()))
                            } else {
                                let mlen = m as usize;
                                match octets_get_bytes(data, p, mlen) {
                                    None => Err(
                                        ToValuesError::NotEnoughData(self.name.clone_name()),
                                    ),
                                    Some(v) => Ok(
                                        (ValInfo { value: Val::Bytes(v), pos: off }, p + mlen),
                                    ),
                                }
                            }
                        },
                    }
                },
            },
            Def::FixedBytes(x) => {
                match octets_get_bytes(data, off, x.len()) {
                    None => Err(ToValuesError::NotEnoughData(self.name.clone_name())),
                    Some(v) => {
                        if !bytes_eq(&v, x) {
                            Err(ToValuesError::InvalidValue(self.name.clone_name()))
                        } else {
                            Ok((ValInfo { value: Val::Bytes(v), pos: off }, off + x.len()))
                        }
                    },
                }
            },
        }
    }
}

} // verus!


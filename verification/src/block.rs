//! The ordered field schema: the wire layout of one record, and the
//! top-level entry points for encode and decode.

use crate::field::{
    Def, Field, def_accepts, def_is_free, decoded_val, deref_val, lemma_field_round_trip,
    spec_field_to_bytes, spec_field_to_value,
};
use crate::value::{Val, ValInfo, ValInfoV, ValView};
use crate::value_map::ValueMap;
use crate::{FieldName, ToBytesError, ToValuesError};
use vstd::prelude::*;

verus! {

broadcast use vstd::slice::axiom_spec_len;

/// The value stored under `name`, as the codec sees it: `None` where the
/// mapping has no entry.
pub open spec fn map_val<F: FieldName>(vals: Map<F, Val>, name: F) -> Option<ValView> {
    if vals.contains_key(name) {
        Some(vals[name]@)
    } else {
        None
    }
}

/// Prefixes `pre` to the bytes of a successful encoding; an error passes
/// through.
spec fn prepend_bytes<F: FieldName>(pre: Seq<u8>, r: Result<Seq<u8>, ToBytesError<F>>) -> Result<
    Seq<u8>,
    ToBytesError<F>,
> {
    match r {
        Ok(s) => Ok(pre + s),
        Err(e) => Err(e),
    }
}

/// The outcome of encoding the fields in declared order into `cap` free
/// bytes: the concatenation of the per-field encodings, or the error of
/// the first field that fails.
pub open spec fn spec_block_to_bytes<F: FieldName>(
    fields: Seq<(F, Def)>,
    vals: Map<F, Val>,
    cap: int,
) -> Result<Seq<u8>, ToBytesError<F>>
    decreases fields.len(),
{
    if fields.len() == 0 {
        Ok(Seq::empty())
    } else {
        match spec_field_to_bytes(fields[0].0, fields[0].1, map_val(vals, fields[0].0), cap) {
            Ok(bs) => match spec_block_to_bytes(fields.drop_first(), vals, cap - bs.len()) {
                Ok(rest) => Ok(bs + rest),
                Err(e) => Err(e),
            },
            Err(e) => Err(e),
        }
    }
}

/// The outcome of decoding the fields in declared order from `data`,
/// starting at offset `off` with the already-decoded entries `acc`: the
/// decoded mapping, the offset reached, and the error of the first field
/// that fails, if any. Entries decoded before a failure stay in the
/// mapping.
pub open spec fn spec_block_to_values<F: FieldName>(
    fields: Seq<(F, Def)>,
    data: Seq<u8>,
    off: int,
    acc: Map<F, ValInfoV>,
) -> (Map<F, ValInfoV>, int, Option<ToValuesError<F>>)
    decreases fields.len(),
{
    if fields.len() == 0 {
        (acc, off, None)
    } else {
        match spec_field_to_value(fields[0].0, fields[0].1, data, off) {
            Ok(p) => spec_block_to_values(
                fields.drop_first(),
                data,
                p.1,
                acc.insert(fields[0].0, ValInfoV { value: p.0, pos: off }),
            ),
            Err(e) => (acc, off, Some(e)),
        }
    }
}

/// The mathematical content of a decoded mapping.
pub open spec fn infos_view<F: FieldName>(m: Map<F, ValInfo>) -> Map<F, ValInfoV> {
    m.map_values(|i: ValInfo| i@)
}

/// Whether `name` names some field of the schema.
pub open spec fn has_name<F: FieldName>(fields: Seq<(F, Def)>, name: F) -> bool {
    exists|i: int| 0 <= i < fields.len() && (#[trigger] fields[i]).0 == name
}

/// The bytes the encoding traversal leaves at the start of the buffer:
/// the complete encodings of the fields before the first failing one, and
/// of every field when none fails.
pub open spec fn spec_block_written<F: FieldName>(
    fields: Seq<(F, Def)>,
    vals: Map<F, Val>,
    cap: int,
) -> Seq<u8>
    decreases fields.len(),
{
    if fields.len() == 0 {
        Seq::empty()
    } else {
        match spec_field_to_bytes(fields[0].0, fields[0].1, map_val(vals, fields[0].0), cap) {
            Ok(bs) => bs + spec_block_written(fields.drop_first(), vals, cap - bs.len()),
            Err(_) => Seq::empty(),
        }
    }
}

/// An ordered sequence of named fields: the full wire layout of a record.
/// The declared order fixes the byte layout of both encode and decode.
pub struct Block<F> where F: FieldName {
    fields: Vec<Field<F>>,
}

impl<F: FieldName> View for Block<F> {
    type V = Seq<(F, Def)>;

    closed spec fn view(&self) -> Seq<(F, Def)> {
        self.fields@.map_values(|f: Field<F>| f@)
    }
}

impl<F: FieldName> Block<F> {
    /// Creates a schema with no fields.
    #[must_use]
    pub fn new() -> (r: Self)
        ensures
            r@ == Seq::<(F, Def)>::empty(),
    {
        let r = Block { fields: Vec::new() };
        proof {
            assert(r@ =~= Seq::<(F, Def)>::empty());
        }
        r
    }

    /// Appends a field to the layout; no validation is performed, and
    /// duplicate names are the caller's responsibility.
    pub fn add_field(&mut self, name: F, def: Def)
        ensures
            final(self)@ == old(self)@.push((name, def)),
    {
        let ghost before = self@;
        self.fields.push(Field::new(name, def));
        proof {
            assert(self@ =~= before.push((name, def)));
        }
    }

    /// Encodes `values` against the schema into the start of `buf`,
    /// returning how many bytes were written. Fields are encoded in
    /// declared order and the traversal stops on the first failing field;
    /// bytes already written for earlier fields stay in the buffer, and
    /// the bytes past the encoding are never touched.
    #[verifier::loop_isolation(false)]
    pub fn to_bytes(&self, values: &ValueMap<F, Val>, buf: &mut Vec<u8>) -> (r: Result<
        usize,
        ToBytesError<F>,
    >)
        ensures
            final(buf)@.len() == old(buf)@.len(),
            match r {
                Ok(end) => spec_block_to_bytes(self@, values@, old(buf)@.len() as int) matches Ok(
                    bs,
                ) && end == bs.len() && final(buf)@ == bs + old(buf)@.skip(end as int),
                Err(e) => (spec_block_to_bytes(self@, values@, old(buf)@.len() as int) matches Err(
                    e2,
                ) && e2 == e) && final(buf)@ == spec_block_written(
                    self@,
                    values@,
                    old(buf)@.len() as int,
                ) + old(buf)@.skip(
                    spec_block_written(self@, values@, old(buf)@.len() as int).len() as int,
                ),
            },
    {
        let ghost buf0 = buf@;
        let ghost cap = buf@.len() as int;
        let mut off: usize = 0;
        let mut idx: usize = 0;
        let n: usize = self.fields.len();
        proof {
            assert(self@.skip(0) =~= self@);
            let x = spec_block_to_bytes(self@, values@, cap);
            if x is Ok {
                assert(buf@.take(0) + x->Ok_0 =~= x->Ok_0);
            }
            assert(buf@.take(0) + spec_block_written(self@, values@, cap) =~= spec_block_written(
                self@,
                values@,
                cap,
            ));
        }
        while idx < n
            invariant
                idx <= n == self.fields@.len(),
                off <= buf@.len() == buf0.len() == cap,
                forall|i: int| off <= i < buf@.len() ==> buf@[i] == buf0[i],
                spec_block_to_bytes(self@, values@, cap) == prepend_bytes(
                    buf@.take(off as int),
                    spec_block_to_bytes(self@.skip(idx as int), values@, cap - off),
                ),
                spec_block_written(self@, values@, cap) == buf@.take(off as int)
                    + spec_block_written(self@.skip(idx as int), values@, cap - off),
            decreases n - idx,
        {
            let field = &self.fields[idx];
            let value = values.get(field.name());
            let ghost pre = buf@;
            let ghost rest = self@.skip(idx as int);
            proof {
                assert(field@ == self@[idx as int]);
                assert(rest[0] == self@[idx as int]);
                assert(rest.drop_first() =~= self@.skip(idx as int + 1));
                assert(deref_val(value) == map_val(values@, field@.0));
            }
            match field.to_bytes(value, buf, off) {
                Ok(end) => {
                    proof {
                        let sfb = spec_field_to_bytes(
                            field@.0,
                            field@.1,
                            deref_val(value),
                            cap - off,
                        );
                        let bs = sfb->Ok_0;
                        assert(buf@.take(end as int) =~= pre.take(off as int) + bs);
                        let tail = spec_block_to_bytes(
                            self@.skip(idx as int + 1),
                            values@,
                            cap - end,
                        );
                        assert(spec_block_to_bytes(rest, values@, cap - off) == prepend_bytes(
                            bs,
                            tail,
                        ));
                        if tail is Ok {
                            assert(pre.take(off as int) + (bs + tail->Ok_0) =~= buf@.take(
                                end as int,
                            ) + tail->Ok_0);
                        }
                        assert(buf@.take(off as int) =~= pre.take(off as int));
                        let wtail = spec_block_written(
                            self@.skip(idx as int + 1),
                            values@,
                            cap - end,
                        );
                        assert(spec_block_written(rest, values@, cap - off) == bs + wtail);
                        assert(pre.take(off as int) + (bs + wtail) =~= buf@.take(end as int)
                            + wtail);
                    }
                    off = end;
                    idx = idx + 1;
                },
                Err(e) => {
                    proof {
                        assert(spec_block_written(rest, values@, cap - off) =~= Seq::<
                            u8,
                        >::empty());
                        assert(buf@.take(off as int) + Seq::<u8>::empty() =~= buf@.take(
                            off as int,
                        ));
                        assert(buf@ =~= buf@.take(off as int) + buf0.skip(off as int));
                    }
                    return Err(e);
                },
            }
        }
        proof {
            assert(self@.skip(n as int) =~= Seq::<(F, Def)>::empty());
            assert(buf@.take(off as int) + Seq::<u8>::empty() =~= buf@.take(off as int));
            assert(buf@ =~= buf@.take(off as int) + buf0.skip(off as int));
        }
        Ok(off)
    }

    /// Decodes `data` against the schema, inserting each decoded value
    /// into `values` as it is read, and returns how many bytes were
    /// consumed. Fields are decoded in declared order and the traversal
    /// stops on the first failing field; values decoded before the failure
    /// stay in `values`.
    #[verifier::loop_isolation(false)]
    pub fn to_values(&self, data: &[u8], values: &mut ValueMap<F, ValInfo>) -> (r: Result<
        usize,
        ToValuesError<F>,
    >)
        ensures
            ({
                let sr = spec_block_to_values(self@, data@, 0, infos_view(old(values)@));
                &&& infos_view(final(values)@) == sr.0
                &&& match r {
                    Ok(end) => sr.2 is None && end == sr.1 && end <= data@.len(),
                    Err(e) => sr.2 == Some(e),
                }
            }),
    {
        let ghost acc0 = infos_view(old(values)@);
        let mut off: usize = 0;
        let mut idx: usize = 0;
        let n: usize = self.fields.len();
        let dlen: usize = data.len();
        proof {
            assert(dlen == data@.len());
            assert(self@.skip(0) =~= self@);
        }
        while idx < n
            invariant
                idx <= n == self.fields@.len(),
                off <= data@.len(),
                spec_block_to_values(self@, data@, 0, acc0) == spec_block_to_values(
                    self@.skip(idx as int),
                    data@,
                    off as int,
                    infos_view(values@),
                ),
            decreases n - idx,
        {
            let field = &self.fields[idx];
            let ghost rest = self@.skip(idx as int);
            let ghost accpre = infos_view(values@);
            proof {
                assert(field@ == self@[idx as int]);
                assert(rest[0] == self@[idx as int]);
                assert(rest.drop_first() =~= self@.skip(idx as int + 1));
            }
            match field.to_value(data, off) {
                Ok(pair) => {
                    let (info, end) = pair;
                    let name = field.name().clone_name();
                    values.insert(name, info);
                    proof {
                        let q = spec_field_to_value(field@.0, field@.1, data@, off as int)->Ok_0;
                        assert(info@ == ValInfoV { value: q.0, pos: off as int });
                        assert(infos_view(values@) =~= accpre.insert(field@.0, info@));
                    }
                    off = end;
                    idx = idx + 1;
                },
                Err(e) => {
                    return Err(e);
                },
            }
        }
        proof {
            assert(self@.skip(n as int) =~= Seq::<(F, Def)>::empty());
        }
        Ok(off)
    }
}

/// Encoding is deterministic: the outcome is a function of the schema,
/// the value mapping and the buffer capacity alone, so encoding the same
/// mapping twice yields byte-identical output.
pub proof fn lemma_block_encode_deterministic<F: FieldName>(
    fields: Seq<(F, Def)>,
    vals: Map<F, Val>,
    cap: int,
    r1: Result<Seq<u8>, ToBytesError<F>>,
    r2: Result<Seq<u8>, ToBytesError<F>>,
)
    requires
        r1 == spec_block_to_bytes(fields, vals, cap),
        r2 == spec_block_to_bytes(fields, vals, cap),
    ensures
        r1 == r2,
{
}

proof fn lemma_has_name_unfold<F: FieldName>(fields: Seq<(F, Def)>, name: F)
    requires
        fields.len() > 0,
    ensures
        has_name(fields, name) <==> (fields[0].0 == name || has_name(
            fields.drop_first(),
            name,
        )),
{
    if has_name(fields, name) {
        let i = choose|i: int| 0 <= i < fields.len() && (#[trigger] fields[i]).0 == name;
        if i > 0 {
            assert(fields.drop_first()[i - 1].0 == name);
        }
    }
    if has_name(fields.drop_first(), name) {
        let i = choose|i: int|
            0 <= i < fields.drop_first().len() && (#[trigger] fields.drop_first()[i]).0 == name;
        assert(fields[i + 1].0 == name);
    }
    if fields[0].0 == name {
        assert((fields[0]).0 == name);
    }
}

proof fn lemma_block_encode_ok_accepts<F: FieldName>(fields: Seq<(F, Def)>, vals: Map<F, Val>, cap: int)
    requires
        spec_block_to_bytes(fields, vals, cap) is Ok,
    ensures
        forall|i: int|
            0 <= i < fields.len() ==> def_accepts(
                (#[trigger] fields[i]).1,
                map_val(vals, fields[i].0),
            ),
    decreases fields.len(),
{
    if fields.len() > 0 {
        let bs0 = spec_field_to_bytes(
            fields[0].0,
            fields[0].1,
            map_val(vals, fields[0].0),
            cap,
        )->Ok_0;
        lemma_block_encode_ok_accepts(fields.drop_first(), vals, cap - bs0.len());
        assert forall|i: int|
            0 <= i < fields.len() implies def_accepts(
            (#[trigger] fields[i]).1,
            map_val(vals, fields[i].0),
        ) by {
            if i > 0 {
                assert(fields.drop_first()[i - 1] == fields[i]);
            }
        }
    }
}

proof fn lemma_block_round_trip_rec<F: FieldName>(
    fields: Seq<(F, Def)>,
    vals: Map<F, Val>,
    cap: int,
    data: Seq<u8>,
    off: int,
    acc: Map<F, ValInfoV>,
)
    requires
        0 <= off,
        spec_block_to_bytes(fields, vals, cap) matches Ok(enc) && off + enc.len() <= data.len()
            && data.subrange(off, off + enc.len() as int) == enc,
    ensures
        spec_block_to_values(fields, data, off, acc).2 is None,
        spec_block_to_bytes(fields, vals, cap) matches Ok(enc) ==> spec_block_to_values(
            fields,
            data,
            off,
            acc,
        ).1 == off + enc.len(),
        forall|k: F|
            #[trigger] spec_block_to_values(fields, data, off, acc).0.contains_key(k) <==> (
            acc.contains_key(k) || has_name(fields, k)),
        forall|k: F|
            acc.contains_key(k) && !has_name(fields, k) ==> spec_block_to_values(
                fields,
                data,
                off,
                acc,
            ).0[k] == acc[k],
        forall|k: F|
            has_name(fields, k) && vals.contains_key(k) ==> spec_block_to_values(
                fields,
                data,
                off,
                acc,
            ).0.contains_key(k) && spec_block_to_values(fields, data, off, acc).0[k].value
                == vals[k]@,
    decreases fields.len(),
{
    let enc = spec_block_to_bytes(fields, vals, cap)->Ok_0;
    if fields.len() == 0 {
        assert(forall|k: F| !has_name(fields, k));
    } else {
        let name0 = fields[0].0;
        let def0 = fields[0].1;
        let v0 = map_val(vals, name0);
        let sfb = spec_field_to_bytes(name0, def0, v0, cap);
        let bs0 = sfb->Ok_0;
        let restenc = spec_block_to_bytes(fields.drop_first(), vals, cap - bs0.len())->Ok_0;
        assert(enc == bs0 + restenc);
        assert forall|i: int| 0 <= i < bs0.len() implies data[off + i] == #[trigger] bs0[i] by {
            assert(data.subrange(off, off + enc.len() as int)[i] == data[off + i]);
            assert(enc[i] == bs0[i]);
        }
        assert(data.subrange(off, off + bs0.len() as int) =~= bs0);
        lemma_field_round_trip(name0, def0, v0, data, off);
        let off1 = off + bs0.len() as int;
        assert forall|i: int|
            0 <= i < restenc.len() implies data[off1 + i] == #[trigger] restenc[i] by {
            assert(data.subrange(off, off + enc.len() as int)[bs0.len() + i] == data[off1 + i]);
            assert(enc[bs0.len() + i] == restenc[i]);
        }
        assert(data.subrange(off1, off1 + restenc.len() as int) =~= restenc);
        let acc1 = acc.insert(name0, ValInfoV { value: decoded_val(def0, v0), pos: off });
        lemma_block_round_trip_rec(fields.drop_first(), vals, cap - bs0.len(), data, off1, acc1);
        let m = spec_block_to_values(fields, data, off, acc).0;
        assert(m == spec_block_to_values(fields.drop_first(), data, off1, acc1).0);
        assert forall|k: F| #[trigger] m.contains_key(k) <==> (acc.contains_key(k) || has_name(
            fields,
            k,
        )) by {
            lemma_has_name_unfold(fields, k);
        }
        assert forall|k: F|
            acc.contains_key(k) && !has_name(fields, k) implies m[k] == acc[k] by {
            lemma_has_name_unfold(fields, k);
        }
        assert forall|k: F|
            has_name(fields, k) && vals.contains_key(k) implies m.contains_key(k)
            && m[k].value == vals[k]@ by {
            lemma_has_name_unfold(fields, k);
            if !has_name(fields.drop_first(), k) {
                assert(k == name0);
                assert(m[k] == acc1[k]);
                assert(decoded_val(def0, v0) == vals[k]@);
            }
        }
    }
}

/// Round trip: where the schema encodes a value mapping successfully,
/// decoding a buffer that starts with that encoding succeeds, consumes
/// exactly the encoding, and the decoded mapping reproduces the encoded
/// mapping at every name of a field whose value is caller-supplied.
pub proof fn lemma_block_round_trip<F: FieldName>(
    fields: Seq<(F, Def)>,
    vals: Map<F, Val>,
    cap: int,
    data: Seq<u8>,
    acc: Map<F, ValInfoV>,
)
    requires
        spec_block_to_bytes(fields, vals, cap) matches Ok(enc) && enc.len() <= data.len()
            && data.subrange(0, enc.len() as int) == enc,
    ensures
        spec_block_to_values(fields, data, 0, acc).2 is None,
        spec_block_to_bytes(fields, vals, cap) matches Ok(enc) ==> spec_block_to_values(
            fields,
            data,
            0,
            acc,
        ).1 == enc.len(),
        forall|k: F|
            #[trigger] spec_block_to_values(fields, data, 0, acc).0.contains_key(k) <==> (
            acc.contains_key(k) || has_name(fields, k)),
        forall|i: int|
            0 <= i < fields.len() && def_is_free((#[trigger] fields[i]).1) ==> {
                let m = spec_block_to_values(fields, data, 0, acc).0;
                &&& vals.contains_key(fields[i].0)
                &&& m.contains_key(fields[i].0)
                &&& m[fields[i].0].value == vals[fields[i].0]@
            },
{
    lemma_block_round_trip_rec(fields, vals, cap, data, 0, acc);
    lemma_block_encode_ok_accepts(fields, vals, cap);
    assert forall|i: int|
        0 <= i < fields.len() && def_is_free((#[trigger] fields[i]).1) implies {
        let m = spec_block_to_values(fields, data, 0, acc).0;
        &&& vals.contains_key(fields[i].0)
        &&& m.contains_key(fields[i].0)
        &&& m[fields[i].0].value == vals[fields[i].0]@
    } by {
        assert(def_accepts(fields[i].1, map_val(vals, fields[i].0)));
        assert(vals.contains_key(fields[i].0));
        assert(has_name(fields, fields[i].0));
    }
}

} // verus!

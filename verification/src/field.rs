use vstd::prelude::*;
use std::rc::Rc;
use crate::dex::{Dex, StringId};
use crate::encoded_item::{EncodedItem, array_decoded, items_decoded};
use crate::error::Error;
use crate::jtype::{ClassId, Type};
use crate::raw::{Endian, read_u16, word16};
use crate::source::Source;
use crate::uleb::{UlebOut, read_uleb128, uleb, uleb_encode};

verus! {

/// Index into the field-id table.
pub type FieldId = u64;

/// Fixed-layout field-id row: three consecutive 16-bit fields giving the
/// owning class's type id, the field's type id, and the field name's
/// string id.
#[derive(Clone, Copy, Debug, PartialEq, Eq, Structural)]
pub struct FieldIdItem {
    pub class_idx: u16,
    pub type_idx: u16,
    pub name_idx: StringId,
}

/// The field-id row spelled by the six bytes at `off`, or an out-of-bounds
/// error where the buffer is too short for the declared field widths.
pub open spec fn field_id_item_at(s: Seq<u8>, e: Endian, off: int) -> Result<FieldIdItem, Error> {
    if 0 <= off && off + 6 <= s.len() {
        Ok(
            FieldIdItem {
                class_idx: word16(s, off, e),
                type_idx: word16(s, off + 2, e),
                name_idx: word16(s, off + 4, e),
            },
        )
    } else {
        Err(Error::OutOfBounds)
    }
}

impl FieldIdItem {
    /// Decode the fixed-layout row at the absolute byte `offset`, under the
    /// container's declared byte order.
    pub fn try_from_dex(dex: &Dex, offset: u64) -> (r: Result<FieldIdItem, Error>)
        ensures
            r == field_id_item_at(dex.source@, dex.endian, offset as int),
    {
        let n = dex.source.len();
        if offset > n as u64 || (n as u64) - offset < 6 {
            return Err(Error::OutOfBounds);
        }
        let off = offset as usize;
        let endian = dex.get_endian();
        let class_idx = match read_u16(&dex.source, off, endian) {
            Ok(x) => x,
            Err(e) => {
                return Err(e);
            },
        };
        let type_idx = match read_u16(&dex.source, off + 2, endian) {
            Ok(x) => x,
            Err(e) => {
                return Err(e);
            },
        };
        let name_idx = match read_u16(&dex.source, off + 4, endian) {
            Ok(x) => x,
            Err(e) => {
                return Err(e);
            },
        };
        Ok(FieldIdItem { class_idx, type_idx, name_idx })
    }
}

/// A delta-decoded field record from a class definition's field list: the
/// resolved (absolute) field-table id and the access-flags bitmask.
#[derive(Clone, Copy, Debug, PartialEq, Eq, Structural)]
pub struct EncodedField {
    pub field_id: FieldId,
    pub access_flags: u64,
}

impl EncodedItem for EncodedField {
    open spec fn id_of(&self) -> u64 {
        self.field_id
    }

    /// Two variable-length integers: the id delta against the previous
    /// record's resolved id, then the access flags.
    open spec fn decoded(s: Seq<u8>, pos: int, prev: u64) -> Option<(EncodedField, int)> {
        match uleb(s, pos) {
            UlebOut::Value { value: delta, size: n1 } => match uleb(s, pos + n1) {
                UlebOut::Value { value: flags, size: n2 } => if prev + delta <= u64::MAX {
                    Some(
                        (
                            EncodedField {
                                field_id: (prev + delta) as u64,
                                access_flags: flags as u64,
                            },
                            (n1 + n2) as int,
                        ),
                    )
                } else {
                    None
                },
                _ => None,
            },
            _ => None,
        }
    }

    open spec fn decode_err(s: Seq<u8>, pos: int, prev: u64) -> Error {
        match uleb(s, pos) {
            UlebOut::Value { value: delta, size: n1 } => match uleb(s, pos + n1) {
                UlebOut::Value { .. } => Error::IdOverflow,
                UlebOut::Short => Error::OutOfBounds,
                UlebOut::Overflow => Error::MalformedUleb,
            },
            UlebOut::Short => Error::OutOfBounds,
            UlebOut::Overflow => Error::MalformedUleb,
        }
    }

    fn try_from_ctx(source: &Source, offset: usize, prev_id: u64) -> (r: Result<
        (EncodedField, usize),
        Error,
    >) {
        let ghost s = source@;
        let _buf_len = source.len();
        let (delta, n1) = match read_uleb128(source, offset) {
            Ok(x) => x,
            Err(e) => {
                return Err(e);
            },
        };
        proof {
            vstd::arithmetic::power2::lemma2_to64();
            crate::uleb::lemma_uleb_from_facts(s, offset as int, 0);
        }
        let (flags, n2) = match read_uleb128(source, offset + n1) {
            Ok(x) => x,
            Err(e) => {
                return Err(e);
            },
        };
        proof {
            crate::uleb::lemma_uleb_from_facts(s, offset + n1 as int, 0);
        }
        let field_id = match prev_id.checked_add(delta) {
            Some(x) => x,
            None => {
                return Err(Error::IdOverflow);
            },
        };
        Ok((EncodedField { field_id, access_flags: flags }, n1 + n2))
    }

    fn get_id(&self) -> (r: u64) {
        self.field_id
    }
}

/// A fully materialized field: a shared name string, the resolved declared
/// type, the owning class as the raw type id found in the row, and the
/// access flags copied from the encoded record.
#[derive(Debug)]
pub struct Field {
    pub name: Rc<String>,
    pub jtype: Type,
    pub class: ClassId,
    pub access_flags: u64,
}

/// What resolving `encoded_field` against the container yields. The name
/// and the declared type are pool lookups on the field-id row; the owning
/// class stays the raw identifier found in the row, never a resolved type.
/// The first failing lookup aborts with its error and no partial field.
pub open spec fn field_resolved(dex: Dex, encoded_field: EncodedField) -> Result<Field, Error> {
    match dex.field_item_spec(encoded_field.field_id) {
        Err(e) => Err(e),
        Ok(item) => match dex.string_spec(item.name_idx) {
            Err(e) => Err(e),
            Ok(name) => match dex.type_spec(item.type_idx as u32) {
                Err(e) => Err(e),
                Ok(jtype) => Ok(
                    Field {
                        name,
                        jtype,
                        class: item.class_idx as u32,
                        access_flags: encoded_field.access_flags,
                    },
                ),
            },
        },
    }
}

impl Field {
    /// Materialize the encoded field against the container's tables and
    /// pools.
    pub fn try_from_dex(dex: &Dex, encoded_field: &EncodedField) -> (r: Result<Field, Error>)
        ensures
            r == field_resolved(*dex, *encoded_field),
    {
        let field_item = match dex.get_field_item(encoded_field.field_id) {
            Ok(x) => x,
            Err(e) => {
                return Err(e);
            },
        };
        let name = match dex.get_string(field_item.name_idx) {
            Ok(x) => x,
            Err(e) => {
                return Err(e);
            },
        };
        let jtype = match dex.get_type(field_item.type_idx as u32) {
            Ok(x) => x,
            Err(e) => {
                return Err(e);
            },
        };
        Ok(
            Field {
                name,
                jtype,
                class: field_item.class_idx as u32,
                access_flags: encoded_field.access_flags,
            },
        )
    }
}

/// The byte stream that encodes field records carrying the given id deltas
/// and access flags: each record is its delta, then its flags, both as
/// unsigned variable-length integers.
pub open spec fn encode_field_records(deltas: Seq<u64>, flags: Seq<u64>) -> Seq<u8>
    decreases deltas.len(),
{
    if deltas.len() == 0 {
        Seq::<u8>::empty()
    } else {
        uleb_encode(deltas[0] as nat) + uleb_encode(flags[0] as nat) + encode_field_records(
            deltas.drop_first(),
            flags.drop_first(),
        )
    }
}

/// The running sum `prev + deltas[0] + ... + deltas[i]`; `prev` itself for
/// a negative `i`.
pub open spec fn running_id(prev: int, deltas: Seq<u64>, i: int) -> int
    decreases i + 1,
{
    if i < 0 {
        prev
    } else {
        running_id(prev, deltas, i - 1) + deltas[i]
    }
}

/// Running sums never decrease: each delta is a non-negative addition.
pub proof fn lemma_running_id_mono(prev: int, deltas: Seq<u64>, i: int, j: int)
    requires
        -1 <= i <= j < deltas.len(),
    ensures
        running_id(prev, deltas, i) <= running_id(prev, deltas, j),
    decreases j - i,
{
    if i < j {
        lemma_running_id_mono(prev, deltas, i, j - 1);
    }
}

/// Dropping the first delta and folding it into the start value shifts the
/// running sums by one position.
proof fn lemma_running_id_shift(prev: int, deltas: Seq<u64>, i: int)
    requires
        1 <= deltas.len(),
        -1 <= i < deltas.len() - 1,
    ensures
        running_id(prev + deltas[0], deltas.drop_first(), i) == running_id(prev, deltas, i + 1),
    decreases i + 1,
{
    if i >= 0 {
        lemma_running_id_shift(prev, deltas, i - 1);
        assert(deltas.drop_first()[i] == deltas[i + 1]);
    } else {
        assert(running_id(prev + deltas[0], deltas.drop_first(), -1) == prev + deltas[0]);
        assert(running_id(prev, deltas, -1) == prev);
        assert(running_id(prev, deltas, 0) == running_id(prev, deltas, -1) + deltas[0]);
    }
}

/// Round trip of the delta encoding: wherever the encoding of a sequence of
/// id deltas and access flags sits in a buffer, decoding that many field
/// records against a running sum reproduces the running sums exactly, in
/// order, each with its flags, consuming exactly the encoded bytes.
pub proof fn lemma_delta_round_trip(
    s: Seq<u8>,
    pos: int,
    prev: u64,
    deltas: Seq<u64>,
    flags: Seq<u64>,
)
    requires
        deltas.len() == flags.len(),
        0 <= pos,
        pos + encode_field_records(deltas, flags).len() <= s.len(),
        s.subrange(pos, pos + encode_field_records(deltas, flags).len() as int)
            == encode_field_records(deltas, flags),
        running_id(prev as int, deltas, deltas.len() - 1) <= u64::MAX,
    ensures
        items_decoded::<EncodedField>(s, pos, prev, deltas.len() as nat) matches Some(
            (items, end),
        ) && {
            &&& end == pos + encode_field_records(deltas, flags).len()
            &&& items.len() == deltas.len()
            &&& forall|i: int|
                0 <= i < deltas.len() ==> (#[trigger] items[i]).field_id == running_id(
                    prev as int,
                    deltas,
                    i,
                ) && items[i].access_flags == flags[i]
        },
    decreases deltas.len(),
{
    let enc = encode_field_records(deltas, flags);
    if deltas.len() == 0 {
    } else {
        let d0 = deltas[0];
        let f0 = flags[0];
        let enc_d = uleb_encode(d0 as nat);
        let enc_f = uleb_encode(f0 as nat);
        let enc_rest = encode_field_records(deltas.drop_first(), flags.drop_first());
        let l0 = enc_d.len() as int;
        let l1 = enc_f.len() as int;
        assert(forall|j: int|
            0 <= j < enc.len() ==> s[pos + j] == #[trigger] enc[j]) by {
            assert(forall|j: int|
                0 <= j < enc.len() ==> #[trigger] s.subrange(pos, pos + enc.len() as int)[j]
                    == enc[j]);
        }
        assert(s.subrange(pos, pos + l0) =~= enc_d) by {
            assert(forall|j: int|
                0 <= j < l0 ==> #[trigger] s.subrange(pos, pos + l0)[j] == s[pos + j]);
        }
        crate::uleb::lemma_uleb_round_trip(s, pos, d0);
        assert(s.subrange(pos + l0, pos + l0 + l1) =~= enc_f) by {
            assert(forall|j: int|
                0 <= j < l1 ==> #[trigger] s.subrange(pos + l0, pos + l0 + l1)[j] == s[pos + l0
                    + j]);
            assert(forall|j: int| 0 <= j < l1 ==> enc[l0 + j] == enc_f[j]);
        }
        crate::uleb::lemma_uleb_round_trip(s, pos + l0, f0);
        assert(running_id(prev as int, deltas, -1) == prev as int);
        assert(running_id(prev as int, deltas, 0) == prev + d0);
        lemma_running_id_mono(prev as int, deltas, 0, deltas.len() - 1);
        assert(prev + d0 <= u64::MAX);
        let prev2 = (prev + d0) as u64;
        let item0 = EncodedField { field_id: prev2, access_flags: f0 };
        assert(EncodedField::decoded(s, pos, prev) == Some((item0, l0 + l1)));
        let pos2 = pos + l0 + l1;
        assert(enc == enc_d + enc_f + enc_rest);
        assert(s.subrange(pos2, pos2 + enc_rest.len() as int) =~= enc_rest) by {
            assert(forall|j: int|
                0 <= j < enc_rest.len() ==> #[trigger] s.subrange(
                    pos2,
                    pos2 + enc_rest.len() as int,
                )[j] == s[pos2 + j]);
            assert(forall|j: int|
                0 <= j < enc_rest.len() ==> enc[l0 + l1 + j] == #[trigger] enc_rest[j]);
        }
        assert(running_id(prev2 as int, deltas.drop_first(), deltas.len() - 2) <= u64::MAX) by {
            if deltas.len() >= 2 {
                lemma_running_id_shift(prev as int, deltas, deltas.len() - 2);
            }
        }
        lemma_delta_round_trip(s, pos2, prev2, deltas.drop_first(), flags.drop_first());
        match items_decoded::<EncodedField>(s, pos2, prev2, (deltas.len() - 1) as nat) {
            Some((rest_items, end2)) => {
                assert(item0.id_of() == prev2);
                assert(items_decoded::<EncodedField>(s, pos, prev, deltas.len() as nat) == Some(
                    (seq![item0] + rest_items, end2),
                ));
                let items = seq![item0] + rest_items;
                assert forall|i: int|
                    0 <= i < deltas.len() implies (#[trigger] items[i]).field_id == running_id(
                    prev as int,
                    deltas,
                    i,
                ) && items[i].access_flags == flags[i] by {
                    if i == 0 {
                        assert(items[0] == item0);
                    } else {
                        assert(items[i] == rest_items[i - 1]);
                        assert(rest_items[i - 1].field_id == running_id(
                            prev2 as int,
                            deltas.drop_first(),
                            i - 1,
                        ) && rest_items[i - 1].access_flags == flags.drop_first()[i - 1]);
                        lemma_running_id_shift(prev as int, deltas, i - 1);
                        assert(flags.drop_first()[i - 1] == flags[i]);
                    }
                }
            },
            None => {
                assert(false);
            },
        }
    }
}

/// Resolved identifiers of a decoded field array never decrease: each
/// record's id is the previous one plus a non-negative delta. The decoder
/// relies on this additively and never re-validates it.
pub proof fn lemma_field_ids_non_decreasing(s: Seq<u8>, pos: int, prev: u64, count: nat)
    ensures
        items_decoded::<EncodedField>(s, pos, prev, count) matches Some((items, end)) ==> {
            &&& forall|i: int| 0 <= i < items.len() ==> prev <= (#[trigger] items[i]).field_id
            &&& forall|i: int, j: int|
                0 <= i <= j < items.len() ==> #[trigger] items[i].field_id
                    <= #[trigger] items[j].field_id
        },
    decreases count,
{
    if count > 0 {
        match EncodedField::decoded(s, pos, prev) {
            Some((item0, n)) => {
                lemma_field_ids_non_decreasing(s, pos + n, item0.field_id, (count - 1) as nat);
            },
            None => {},
        }
    }
}

/// The same round trip through the whole delta array: a record count
/// followed by the encoded records decodes to exactly those records, their
/// ids the running sums of the deltas from zero.
pub proof fn lemma_field_array_round_trip(s: Seq<u8>, pos: int, deltas: Seq<u64>, flags: Seq<u64>)
    requires
        deltas.len() == flags.len(),
        deltas.len() <= u64::MAX,
        0 <= pos,
        pos + uleb_encode(deltas.len() as nat).len() + encode_field_records(deltas, flags).len()
            <= s.len(),
        s.subrange(pos, pos + uleb_encode(deltas.len() as nat).len() as int) == uleb_encode(
            deltas.len() as nat,
        ),
        s.subrange(
            pos + uleb_encode(deltas.len() as nat).len() as int,
            pos + uleb_encode(deltas.len() as nat).len() + encode_field_records(
                deltas,
                flags,
            ).len(),
        ) == encode_field_records(deltas, flags),
        running_id(0, deltas, deltas.len() - 1) <= u64::MAX,
    ensures
        array_decoded::<EncodedField>(s, pos) matches Some((items, end)) && {
            &&& end == pos + uleb_encode(deltas.len() as nat).len() + encode_field_records(
                deltas,
                flags,
            ).len()
            &&& items.len() == deltas.len()
            &&& forall|i: int|
                0 <= i < deltas.len() ==> (#[trigger] items[i]).field_id == running_id(
                    0,
                    deltas,
                    i,
                ) && items[i].access_flags == flags[i]
        },
{
    let l = uleb_encode(deltas.len() as nat).len() as int;
    crate::uleb::lemma_uleb_round_trip(s, pos, deltas.len() as u64);
    lemma_delta_round_trip(s, pos + l, 0u64, deltas, flags);
}

/// Field asymmetry: a resolved field exposes its owning class as the raw
/// class type id found in its field-id row, never as a resolved type, even
/// where that id would resolve in the type pool.
pub proof fn lemma_field_class_raw(dex: Dex, encoded_field: EncodedField)
    ensures
        field_resolved(dex, encoded_field) matches Ok(f) ==> (dex.field_item_spec(
            encoded_field.field_id,
        ) matches Ok(item) && f.class == item.class_idx as u32),
{
}

/// Resolution failure propagation: a field-table id beyond the table's
/// extent fails resolution with the dangling-index error, and no field with
/// default or zero-filled members is produced.
pub proof fn lemma_field_dangling(dex: Dex, encoded_field: EncodedField)
    requires
        encoded_field.field_id >= dex.field_ids_count,
    ensures
        field_resolved(dex, encoded_field) == Err::<Field, Error>(Error::DanglingIndex),
{
}

} // verus!

use vstd::prelude::*;
use crate::error::Error;
use crate::source::Source;
use crate::uleb::{uleb, read_uleb128, UlebOut};

verus! {

/// A record kind of a delta-compressed, variable-length encoded array.
///
/// Each record's decode receives the previous record's resolved identifier
/// as context (0 for the first record of an array), reconstructs its own
/// identifier by adding a stream-local delta, and reports how many bytes it
/// consumed so the decoder can advance and supply the context to the next
/// record.
pub trait EncodedItem: Sized {
    /// The resolved identifier the record carries.
    spec fn id_of(&self) -> u64;

    /// What decoding at `pos` with context `prev` yields: the record and the
    /// number of bytes it spans, or nothing where the bytes are malformed.
    spec fn decoded(s: Seq<u8>, pos: int, prev: u64) -> Option<(Self, int)>;

    /// The error reported where `decoded` yields nothing.
    spec fn decode_err(s: Seq<u8>, pos: int, prev: u64) -> Error;

    /// Decode one record at `offset`, with the previous record's resolved
    /// identifier as context.
    fn try_from_ctx(source: &Source, offset: usize, prev_id: u64) -> (r: Result<
        (Self, usize),
        Error,
    >)
        ensures
            match r {
                Ok((item, n)) => {
                    &&& Self::decoded(source@, offset as int, prev_id) == Some((item, n as int))
                    &&& 1 <= n
                    &&& offset + n <= source@.len()
                },
                Err(e) => {
                    &&& Self::decoded(source@, offset as int, prev_id) is None
                    &&& e == Self::decode_err(source@, offset as int, prev_id)
                },
            },
    ;

    /// The record's resolved identifier, queryable without knowing the
    /// concrete record kind.
    fn get_id(&self) -> (r: u64)
        ensures
            r == self.id_of(),
    ;
}

/// The records of a delta array: `count` records decoded in stream order
/// from `pos`, each receiving the previous record's resolved identifier
/// (`prev` for the first), together with the position just past the last
/// record.
pub open spec fn items_decoded<T: EncodedItem>(s: Seq<u8>, pos: int, prev: u64, count: nat) -> Option<
    (Seq<T>, int),
>
    decreases count,
{
    if count == 0 {
        Some((Seq::<T>::empty(), pos))
    } else {
        match T::decoded(s, pos, prev) {
            None => None,
            Some((item, n)) => match items_decoded::<T>(s, pos + n, item.id_of(), (count
                - 1) as nat) {
                None => None,
                Some((rest, end)) => Some((seq![item] + rest, end)),
            },
        }
    }
}

/// The error of the first record whose decode fails, where one does.
pub open spec fn items_decode_err<T: EncodedItem>(s: Seq<u8>, pos: int, prev: u64, count: nat) -> Error
    decreases count,
{
    if count == 0 {
        Error::OutOfBounds
    } else {
        match T::decoded(s, pos, prev) {
            None => T::decode_err(s, pos, prev),
            Some((item, n)) => items_decode_err::<T>(s, pos + n, item.id_of(), (count - 1) as nat),
        }
    }
}

/// What decoding a whole delta array at `pos` yields: a record count as an
/// unsigned variable-length integer, then that many records in stream order.
pub open spec fn array_decoded<T: EncodedItem>(s: Seq<u8>, pos: int) -> Option<(Seq<T>, int)> {
    match uleb(s, pos) {
        UlebOut::Value { value: count, size } => items_decoded::<T>(s, pos + size, 0, count),
        _ => None,
    }
}

/// The error an array decode reports, where it fails.
pub open spec fn array_decode_err<T: EncodedItem>(s: Seq<u8>, pos: int) -> Error {
    match uleb(s, pos) {
        UlebOut::Value { value: count, size } => items_decode_err::<T>(s, pos + size, 0, count),
        UlebOut::Short => Error::OutOfBounds,
        UlebOut::Overflow => Error::MalformedUleb,
    }
}

/// Decode a delta array at `offset`: a record count, then that many records,
/// processed strictly in stream order because each record's identifier
/// depends on the immediately preceding one. The returned position is just
/// past the last record.
pub fn decode_array<T: EncodedItem>(source: &Source, offset: usize) -> (r: Result<
    (Vec<T>, usize),
    Error,
>)
    ensures
        match r {
            Ok((items, end)) => array_decoded::<T>(source@, offset as int) == Some((
                items@,
                end as int,
            )),
            Err(e) => {
                &&& array_decoded::<T>(source@, offset as int) is None
                &&& e == array_decode_err::<T>(source@, offset as int)
            },
        },
{
    let ghost s = source@;
    let buf_len = source.len();
    let (count, size) = match read_uleb128(source, offset) {
        Ok(x) => x,
        Err(e) => {
            return Err(e);
        },
    };
    proof {
        vstd::arithmetic::power2::lemma2_to64();
        crate::uleb::lemma_uleb_from_facts(s, offset as int, 0);
    }
    let mut items: Vec<T> = Vec::new();
    let mut pos: usize = offset + size;
    let mut prev: u64 = 0;
    let mut k: u64 = 0;
    proof {
        match items_decoded::<T>(s, pos as int, 0u64, count as nat) {
            Some((rest, end)) => {
                assert(Seq::<T>::empty() + rest =~= rest);
            },
            None => {},
        }
    }
    while k < count
        invariant
            s == source@,
            buf_len == s.len(),
            0 <= k <= count,
            pos <= s.len(),
            items@.len() == k,
            match items_decoded::<T>(s, pos as int, prev, (count - k) as nat) {
                Some((rest, end)) => array_decoded::<T>(s, offset as int) == Some((
                    items@ + rest,
                    end,
                )),
                None => array_decoded::<T>(s, offset as int) is None && array_decode_err::<T>(
                    s,
                    offset as int,
                ) == items_decode_err::<T>(s, pos as int, prev, (count - k) as nat),
            },
        decreases count - k,
    {
        let (item, n) = match T::try_from_ctx(source, pos, prev) {
            Ok(x) => x,
            Err(e) => {
                return Err(e);
            },
        };
        prev = item.get_id();
        proof {
            match items_decoded::<T>(s, pos + n, prev, (count - k - 1) as nat) {
                Some((rest, end)) => {
                    assert(items@ + (seq![item] + rest) =~= (items@ + seq![item]) + rest);
                },
                None => {},
            }
        }
        pos = pos + n;
        items.push(item);
        k = k + 1;
    }
    proof {
        assert(items@ + Seq::<T>::empty() =~= items@);
    }
    Ok((items, pos))
}

} // verus!

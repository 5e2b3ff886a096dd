use vstd::prelude::*;
use std::rc::Rc;
use crate::dex::{Dex, StringId};
use crate::encoded_item::EncodedItem;
use crate::error::Error;
use crate::jtype::{Type, TypeId};
use crate::raw::{Endian, read_u16, read_u32, read_u64, word16, word32, word64};
use crate::source::Source;
use crate::uleb::{UlebOut, read_uleb128, uleb};

verus! {

/// Index into the proto-id table.
pub type ProtoId = u64;

/// Index into the method-id table.
pub type MethodId = u64;

/// Fixed-layout proto-id row: the shorty descriptor's string id, the return
/// type's id, and the absolute offset of the parameter list (0 where the
/// prototype declares no parameter list).
#[derive(Clone, Copy, Debug, PartialEq, Eq, Structural)]
pub struct ProtoIdItem {
    pub shorty: StringId,
    pub return_type: TypeId,
    pub params_off: u32,
}

/// The proto-id row spelled by the ten bytes at `off`: a 16-bit shorty
/// string id, a 32-bit return type id, a 32-bit parameter-list offset.
pub open spec fn proto_id_item_at(s: Seq<u8>, e: Endian, off: int) -> Result<ProtoIdItem, Error> {
    if 0 <= off && off + 10 <= s.len() {
        Ok(
            ProtoIdItem {
                shorty: word16(s, off, e),
                return_type: word32(s, off + 2, e),
                params_off: word32(s, off + 6, e),
            },
        )
    } else {
        Err(Error::OutOfBounds)
    }
}

impl ProtoIdItem {
    /// Decode the fixed-layout row at the absolute byte `offset`, under the
    /// container's declared byte order.
    pub fn from_dex(dex: &Dex, offset: u64) -> (r: Result<ProtoIdItem, Error>)
        ensures
            r == proto_id_item_at(dex.source@, dex.endian, offset as int),
    {
        let n = dex.source.len();
        if offset > n as u64 || (n as u64) - offset < 10 {
            return Err(Error::OutOfBounds);
        }
        let off = offset as usize;
        let endian = dex.get_endian();
        let shorty = match read_u16(&dex.source, off, endian) {
            Ok(x) => x,
            Err(e) => {
                return Err(e);
            },
        };
        let return_type = match read_u32(&dex.source, off + 2, endian) {
            Ok(x) => x,
            Err(e) => {
                return Err(e);
            },
        };
        let params_off = match read_u32(&dex.source, off + 6, endian) {
            Ok(x) => x,
            Err(e) => {
                return Err(e);
            },
        };
        Ok(ProtoIdItem { shorty, return_type, params_off })
    }
}

/// Fixed-layout method-id row: the owning class's 32-bit type id, the
/// 64-bit prototype id, and the method name's 16-bit string id.
#[derive(Clone, Copy, Debug, PartialEq, Eq, Structural)]
pub struct MethodIdItem {
    pub class_id: TypeId,
    pub proto_id: ProtoId,
    pub name_id: StringId,
}

/// The method-id row spelled by the fourteen bytes at `off`.
pub open spec fn method_id_item_at(s: Seq<u8>, e: Endian, off: int) -> Result<MethodIdItem, Error> {
    if 0 <= off && off + 14 <= s.len() {
        Ok(
            MethodIdItem {
                class_id: word32(s, off, e),
                proto_id: word64(s, off + 4, e),
                name_id: word16(s, off + 12, e),
            },
        )
    } else {
        Err(Error::OutOfBounds)
    }
}

impl MethodIdItem {
    /// Decode the fixed-layout row at the absolute byte `offset`, under the
    /// container's declared byte order.
    pub fn from_dex(dex: &Dex, offset: u64) -> (r: Result<MethodIdItem, Error>)
        ensures
            r == method_id_item_at(dex.source@, dex.endian, offset as int),
    {
        let n = dex.source.len();
        if offset > n as u64 || (n as u64) - offset < 14 {
            return Err(Error::OutOfBounds);
        }
        let off = offset as usize;
        let endian = dex.get_endian();
        let class_id = match read_u32(&dex.source, off, endian) {
            Ok(x) => x,
            Err(e) => {
                return Err(e);
            },
        };
        let proto_id = match read_u64(&dex.source, off + 4, endian) {
            Ok(x) => x,
            Err(e) => {
                return Err(e);
            },
        };
        let name_id = match read_u16(&dex.source, off + 12, endian) {
            Ok(x) => x,
            Err(e) => {
                return Err(e);
            },
        };
        Ok(MethodIdItem { class_id, proto_id, name_id })
    }
}

/// A delta-decoded method record from a class definition's method list: the
/// resolved (absolute) method-table id, the access-flags bitmask, and the
/// code offset (0 where the method has no code body).
#[derive(Clone, Copy, Debug, PartialEq, Eq, Structural)]
pub struct EncodedMethod {
    pub method_id: MethodId,
    pub access_flags: u64,
    pub code_offset: u64,
}

impl EncodedItem for EncodedMethod {
    open spec fn id_of(&self) -> u64 {
        self.method_id
    }

    /// Three variable-length integers: the id delta against the previous
    /// record's resolved id, the access flags, then the code offset.
    open spec fn decoded(s: Seq<u8>, pos: int, prev: u64) -> Option<(EncodedMethod, int)> {
        match uleb(s, pos) {
            UlebOut::Value { value: delta, size: n1 } => match uleb(s, pos + n1) {
                UlebOut::Value { value: flags, size: n2 } => match uleb(s, pos + n1 + n2) {
                    UlebOut::Value { value: code, size: n3 } => if prev + delta <= u64::MAX {
                        Some(
                            (
                                EncodedMethod {
                                    method_id: (prev + delta) as u64,
                                    access_flags: flags as u64,
                                    code_offset: code as u64,
                                },
                                (n1 + n2 + n3) as int,
                            ),
                        )
                    } else {
                        None
                    },
                    _ => None,
                },
                _ => None,
            },
            _ => None,
        }
    }

    open spec fn decode_err(s: Seq<u8>, pos: int, prev: u64) -> Error {
        match uleb(s, pos) {
            UlebOut::Value { value: delta, size: n1 } => match uleb(s, pos + n1) {
                UlebOut::Value { value: flags, size: n2 } => match uleb(s, pos + n1 + n2) {
                    UlebOut::Value { .. } => Error::IdOverflow,
                    UlebOut::Short => Error::OutOfBounds,
                    UlebOut::Overflow => Error::MalformedUleb,
                },
                UlebOut::Short => Error::OutOfBounds,
                UlebOut::Overflow => Error::MalformedUleb,
            },
            UlebOut::Short => Error::OutOfBounds,
            UlebOut::Overflow => Error::MalformedUleb,
        }
    }

    fn try_from_ctx(source: &Source, offset: usize, prev_id: u64) -> (r: Result<
        (EncodedMethod, usize),
        Error,
    >) {
        let ghost s = source@;
        let _buf_len = source.len();
        let (delta, n1) = match read_uleb128(source, offset) {
            Ok(x) => x,
            Err(e) => {
                return Err(e);
            },
        };
        proof {
            vstd::arithmetic::power2::lemma2_to64();
            crate::uleb::lemma_uleb_from_facts(s, offset as int, 0);
        }
        let (flags, n2) = match read_uleb128(source, offset + n1) {
            Ok(x) => x,
            Err(e) => {
                return Err(e);
            },
        };
        proof {
            crate::uleb::lemma_uleb_from_facts(s, offset + n1 as int, 0);
        }
        let (code, n3) = match read_uleb128(source, offset + n1 + n2) {
            Ok(x) => x,
            Err(e) => {
                return Err(e);
            },
        };
        proof {
            crate::uleb::lemma_uleb_from_facts(s, offset + n1 as int + n2 as int, 0);
        }
        let method_id = match prev_id.checked_add(delta) {
            Some(x) => x,
            None => {
                return Err(Error::IdOverflow);
            },
        };
        Ok((EncodedMethod { method_id, access_flags: flags, code_offset: code }, n1 + n2 + n3))
    }

    fn get_id(&self) -> (r: u64) {
        self.method_id
    }
}

/// A fully materialized method: the owning class resolved to a full type
/// (unlike a field, which keeps the raw id), a shared name string, the
/// access flags, the ordered parameter types (absent where the prototype's
/// parameter-list offset is 0), the shared shorty descriptor, the resolved
/// return type, and the code offset copied from the encoded record.
#[derive(Debug)]
pub struct Method {
    pub class_id: Type,
    pub name: Rc<String>,
    pub access_flags: u64,
    pub params: Option<Vec<Type>>,
    pub shorty: Rc<String>,
    pub return_type: Type,
    pub code_off: u64,
}

/// Mathematical model of a materialized method: the parameter list as a
/// sequence, everything else as the method holds it.
pub struct MethodModel {
    pub class_id: Type,
    pub name: Rc<String>,
    pub access_flags: u64,
    pub params: Option<Seq<Type>>,
    pub shorty: Rc<String>,
    pub return_type: Type,
    pub code_off: u64,
}

impl View for Method {
    type V = MethodModel;

    open spec fn view(&self) -> MethodModel {
        MethodModel {
            class_id: self.class_id,
            name: self.name,
            access_flags: self.access_flags,
            params: match self.params {
                Option::None => None,
                Option::Some(v) => Some(v@),
            },
            shorty: self.shorty,
            return_type: self.return_type,
            code_off: self.code_off,
        }
    }
}

/// The `count` parameter types whose 16-bit type-table indices sit at
/// `off`, `off + 2`, ..., resolved in declaration order; the first pool
/// miss aborts. Bounds are the caller's to have checked.
pub open spec fn param_types_resolved(dex: Dex, off: int, count: nat) -> Result<Seq<Type>, Error>
    decreases count,
{
    if count == 0 {
        Ok(Seq::<Type>::empty())
    } else {
        match dex.type_spec(word16(dex.source@, off, dex.endian) as u32) {
            Err(e) => Err(e),
            Ok(t) => match param_types_resolved(dex, off + 2, (count - 1) as nat) {
                Err(e) => Err(e),
                Ok(rest) => Ok(seq![t] + rest),
            },
        }
    }
}

/// The parameter list the prototype declares: absent where the offset is
/// zero; otherwise a 32-bit count at the offset, then that many 16-bit
/// type-table indices, each resolved to a type, in declaration order.
pub open spec fn params_resolved(dex: Dex, params_off: u32) -> Result<Option<Seq<Type>>, Error> {
    if params_off == 0 {
        Ok(None)
    } else if params_off + 4 > dex.source@.len() {
        Err(Error::OutOfBounds)
    } else {
        let count = word32(dex.source@, params_off as int, dex.endian);
        if params_off + 4 + 2 * count > dex.source@.len() {
            Err(Error::OutOfBounds)
        } else {
            match param_types_resolved(dex, params_off + 4, count as nat) {
                Err(e) => Err(e),
                Ok(ts) => Ok(Some(ts)),
            }
        }
    }
}

/// What resolving `encoded_method` against the container yields: the
/// method-id row, its prototype row, the shorty and return type from the
/// prototype, the declared parameter list, then the name and the owning
/// class — the class resolved to a full type. The first failing step aborts
/// with its error and no partial method.
pub open spec fn method_resolved(dex: Dex, encoded_method: EncodedMethod) -> Result<
    MethodModel,
    Error,
> {
    match dex.method_item_spec(encoded_method.method_id) {
        Err(e) => Err(e),
        Ok(item) => match dex.proto_item_spec(item.proto_id) {
            Err(e) => Err(e),
            Ok(proto) => match dex.string_spec(proto.shorty) {
                Err(e) => Err(e),
                Ok(shorty) => match dex.type_spec(proto.return_type) {
                    Err(e) => Err(e),
                    Ok(return_type) => match params_resolved(dex, proto.params_off) {
                        Err(e) => Err(e),
                        Ok(params) => match dex.string_spec(item.name_id) {
                            Err(e) => Err(e),
                            Ok(name) => match dex.type_spec(item.class_id) {
                                Err(e) => Err(e),
                                Ok(class_id) => Ok(
                                    MethodModel {
                                        class_id,
                                        name,
                                        access_flags: encoded_method.access_flags,
                                        params,
                                        shorty,
                                        return_type,
                                        code_off: encoded_method.code_offset,
                                    },
                                ),
                            },
                        },
                    },
                },
            },
        },
    }
}

/// Parameter absence and emptiness stay distinguishable: a prototype whose
/// parameter-list offset is 0 resolves to an absent parameter list, while a
/// nonzero offset pointing at a count of 0 resolves to an empty but present
/// one.
pub proof fn lemma_params_absent_vs_empty(dex: Dex, params_off: u32)
    ensures
        params_off == 0 ==> params_resolved(dex, params_off) == Ok::<Option<Seq<Type>>, Error>(
            None,
        ),
        params_off != 0 && params_off + 4 <= dex.source@.len() && word32(
            dex.source@,
            params_off as int,
            dex.endian,
        ) == 0 ==> params_resolved(dex, params_off) == Ok::<Option<Seq<Type>>, Error>(
            Some(Seq::<Type>::empty()),
        ),
{
}

/// The same distinction seen from a resolved method: its parameter list is
/// absent exactly where its prototype's parameter-list offset is 0.
pub proof fn lemma_method_params_presence(dex: Dex, encoded_method: EncodedMethod)
    ensures
        method_resolved(dex, encoded_method) matches Ok(m) ==> (dex.method_item_spec(
            encoded_method.method_id,
        ) matches Ok(item) && dex.proto_item_spec(item.proto_id) matches Ok(proto) && (
        m.params is None <==> proto.params_off == 0)),
{
}

impl Method {
    /// Materialize the encoded method against the container's tables and
    /// pools.
    #[verifier::loop_isolation(false)]
    pub fn from_dex(dex: &Dex, encoded_method: &EncodedMethod) -> (r: Result<Method, Error>)
        ensures
            match method_resolved(*dex, *encoded_method) {
                Ok(m) => r matches Ok(x) && x@ == m,
                Err(e) => r == Err::<Method, Error>(e),
            },
    {
        let ghost s = dex.source@;
        let buf_len = dex.source.len();
        let endian = dex.get_endian();
        let method_item = match dex.get_method_item(encoded_method.method_id) {
            Ok(x) => x,
            Err(e) => {
                return Err(e);
            },
        };
        let proto_item = match dex.get_proto_item(method_item.proto_id) {
            Ok(x) => x,
            Err(e) => {
                return Err(e);
            },
        };
        let shorty = match dex.get_string(proto_item.shorty) {
            Ok(x) => x,
            Err(e) => {
                return Err(e);
            },
        };
        let return_type = match dex.get_type(proto_item.return_type) {
            Ok(x) => x,
            Err(e) => {
                return Err(e);
            },
        };
        let params: Option<Vec<Type>> = if proto_item.params_off != 0 {
            let poff = proto_item.params_off as usize;
            let count = match read_u32(&dex.source, poff, endian) {
                Ok(x) => x,
                Err(e) => {
                    return Err(e);
                },
            };
            if (poff as u64) + 4 + 2 * (count as u64) > buf_len as u64 {
                return Err(Error::OutOfBounds);
            }
            let base = poff + 4;
            let mut types: Vec<Type> = Vec::new();
            let mut i: u32 = 0;
            proof {
                match param_types_resolved(*dex, base as int, count as nat) {
                    Ok(rest) => {
                        assert(Seq::<Type>::empty() + rest =~= rest);
                    },
                    Err(_) => {},
                }
            }
            while i < count
                invariant
                    s == dex.source@,
                    buf_len == s.len(),
                    i <= count,
                    base == proto_item.params_off + 4,
                    base + 2 * count <= s.len(),
                    types@.len() == i,
                    match param_types_resolved(*dex, base + 2 * i, (count - i) as nat) {
                        Ok(rest) => param_types_resolved(*dex, base as int, count as nat) == Ok::<
                            Seq<Type>,
                            Error,
                        >(types@ + rest),
                        Err(e) => param_types_resolved(*dex, base as int, count as nat) == Err::<
                            Seq<Type>,
                            Error,
                        >(e),
                    },
                decreases count - i,
            {
                let idx = match read_u16(&dex.source, base + 2 * (i as usize), endian) {
                    Ok(x) => x,
                    Err(e) => {
                        return Err(e);
                    },
                };
                let t = match dex.get_type(idx as u32) {
                    Ok(x) => x,
                    Err(e) => {
                        return Err(e);
                    },
                };
                proof {
                    match param_types_resolved(*dex, base + 2 * i + 2, (count - i - 1) as nat) {
                        Ok(rest2) => {
                            assert(types@ + (seq![t] + rest2) =~= types@.push(t) + rest2);
                        },
                        Err(_) => {},
                    }
                }
                types.push(t);
                i = i + 1;
            }
            proof {
                assert(types@ + Seq::<Type>::empty() =~= types@);
            }
            Some(types)
        } else {
            None
        };
        let name = match dex.get_string(method_item.name_id) {
            Ok(x) => x,
            Err(e) => {
                return Err(e);
            },
        };
        let class_id = match dex.get_type(method_item.class_id) {
            Ok(x) => x,
            Err(e) => {
                return Err(e);
            },
        };
        Ok(
            Method {
                class_id,
                name,
                access_flags: encoded_method.access_flags,
                params,
                shorty,
                return_type,
                code_off: encoded_method.code_offset,
            },
        )
    }
}

} // verus!

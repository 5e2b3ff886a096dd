use vstd::prelude::*;
use std::rc::Rc;
use crate::error::Error;
use crate::field::{FieldIdItem, field_id_item_at};
use crate::jtype::{Type, TypeId};
use crate::method::{MethodIdItem, ProtoIdItem, method_id_item_at, proto_id_item_at};
use crate::raw::Endian;
use crate::source::Source;

verus! {

/// Index into the string pool.
pub type StringId = u16;

/// Size in bytes of one field-id row: three 16-bit fields.
pub const FIELD_ID_ITEM_SIZE: u64 = 6;

/// Size in bytes of one method-id row: a 32-bit class type id, a 64-bit
/// prototype id and a 16-bit name string id.
pub const METHOD_ID_ITEM_SIZE: u64 = 14;

/// Size in bytes of one proto-id row: a 16-bit shorty string id, a 32-bit
/// return type id and a 32-bit parameter-list offset.
pub const PROTO_ID_ITEM_SIZE: u64 = 10;

/// The loaded container: the shared byte source, its declared byte order,
/// the string and type pools, and the extents of the three id tables the
/// entity resolver chases.
pub struct Dex {
    pub source: Source,
    pub endian: Endian,
    pub strings: Vec<Rc<String>>,
    pub types: Vec<Type>,
    pub field_ids_off: u64,
    pub field_ids_count: u64,
    pub method_ids_off: u64,
    pub method_ids_count: u64,
    pub proto_ids_off: u64,
    pub proto_ids_count: u64,
}

impl Dex {
    /// What a string lookup yields: the pooled handle, or a pool miss.
    pub open spec fn string_spec(self, id: StringId) -> Result<Rc<String>, Error> {
        if (id as int) < self.strings@.len() {
            Ok(self.strings@[id as int])
        } else {
            Err(Error::PoolMiss)
        }
    }

    /// Shared string handle for `id`: every entity referencing `id`
    /// observes the same underlying instance, never a copy.
    pub fn get_string(&self, id: StringId) -> (r: Result<Rc<String>, Error>)
        ensures
            r == self.string_spec(id),
    {
        if (id as usize) < self.strings.len() {
            Ok(Rc::clone(&self.strings[id as usize]))
        } else {
            Err(Error::PoolMiss)
        }
    }

    /// What a type lookup yields: the pooled type, or a pool miss.
    pub open spec fn type_spec(self, id: TypeId) -> Result<Type, Error> {
        if (id as int) < self.types@.len() {
            Ok(self.types@[id as int])
        } else {
            Err(Error::PoolMiss)
        }
    }

    /// Type for `id`, sharing the pooled descriptor string.
    pub fn get_type(&self, id: TypeId) -> (r: Result<Type, Error>)
        ensures
            r == self.type_spec(id),
    {
        if (id as usize) < self.types.len() {
            let t = &self.types[id as usize];
            Ok(Type { id: t.id, descriptor: Rc::clone(&t.descriptor) })
        } else {
            Err(Error::PoolMiss)
        }
    }

    /// The byte order the container declares for its fixed-layout records.
    pub fn get_endian(&self) -> (r: Endian)
        ensures
            r == self.endian,
    {
        self.endian
    }

    /// What a field-id lookup yields: a dangling index where `field_id`
    /// exceeds the table's extent, else the row at the computed offset.
    pub open spec fn field_item_spec(self, field_id: u64) -> Result<FieldIdItem, Error> {
        if field_id >= self.field_ids_count {
            Err(Error::DanglingIndex)
        } else {
            field_id_item_at(
                self.source@,
                self.endian,
                self.field_ids_off + FIELD_ID_ITEM_SIZE * field_id,
            )
        }
    }

    /// Field-table row for `field_id`: bounds-checks the id against the
    /// table extent, computes the absolute offset and decodes the row there.
    pub fn get_field_item(&self, field_id: u64) -> (r: Result<FieldIdItem, Error>)
        ensures
            r == self.field_item_spec(field_id),
    {
        if field_id >= self.field_ids_count {
            return Err(Error::DanglingIndex);
        }
        let _buf_len = self.source.len();
        let scaled = match field_id.checked_mul(FIELD_ID_ITEM_SIZE) {
            Some(x) => x,
            None => {
                return Err(Error::OutOfBounds);
            },
        };
        let offset = match self.field_ids_off.checked_add(scaled) {
            Some(x) => x,
            None => {
                return Err(Error::OutOfBounds);
            },
        };
        FieldIdItem::try_from_dex(self, offset)
    }

    /// What a method-id lookup yields, in the same shape as the field one.
    pub open spec fn method_item_spec(self, method_id: u64) -> Result<MethodIdItem, Error> {
        if method_id >= self.method_ids_count {
            Err(Error::DanglingIndex)
        } else {
            method_id_item_at(
                self.source@,
                self.endian,
                self.method_ids_off + METHOD_ID_ITEM_SIZE * method_id,
            )
        }
    }

    /// Method-table row for `method_id`.
    pub fn get_method_item(&self, method_id: u64) -> (r: Result<MethodIdItem, Error>)
        ensures
            r == self.method_item_spec(method_id),
    {
        if method_id >= self.method_ids_count {
            return Err(Error::DanglingIndex);
        }
        let _buf_len = self.source.len();
        let scaled = match method_id.checked_mul(METHOD_ID_ITEM_SIZE) {
            Some(x) => x,
            None => {
                return Err(Error::OutOfBounds);
            },
        };
        let offset = match self.method_ids_off.checked_add(scaled) {
            Some(x) => x,
            None => {
                return Err(Error::OutOfBounds);
            },
        };
        MethodIdItem::from_dex(self, offset)
    }

    /// What a proto-id lookup yields, in the same shape as the field one.
    pub open spec fn proto_item_spec(self, proto_id: u64) -> Result<ProtoIdItem, Error> {
        if proto_id >= self.proto_ids_count {
            Err(Error::DanglingIndex)
        } else {
            proto_id_item_at(
                self.source@,
                self.endian,
                self.proto_ids_off + PROTO_ID_ITEM_SIZE * proto_id,
            )
        }
    }

    /// Proto-table row for `proto_id`.
    pub fn get_proto_item(&self, proto_id: u64) -> (r: Result<ProtoIdItem, Error>)
        ensures
            r == self.proto_item_spec(proto_id),
    {
        if proto_id >= self.proto_ids_count {
            return Err(Error::DanglingIndex);
        }
        let _buf_len = self.source.len();
        let scaled = match proto_id.checked_mul(PROTO_ID_ITEM_SIZE) {
            Some(x) => x,
            None => {
                return Err(Error::OutOfBounds);
            },
        };
        let offset = match self.proto_ids_off.checked_add(scaled) {
            Some(x) => x,
            None => {
                return Err(Error::OutOfBounds);
            },
        };
        ProtoIdItem::from_dex(self, offset)
    }
}

} // verus!

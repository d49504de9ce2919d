//! The listing endpoints: owned objects, dynamic fields of a parent object,
//! and transactions matching a filter, each served through the shared
//! cursor pagination over an ordered snapshot of the store.

use vstd::prelude::*;
use crate::pagination::{
    page_data, page_next_cursor, paginate, sorted_keys, spec_cap_page_limit, Keyed, Page,
};

verus! {

/// One owned object as a listing reports it.
#[derive(Clone, Copy)]
pub struct ObjectSummary {
    pub object_id: u64,
    pub version: u64,
    pub owner: u64,
}

impl Keyed for ObjectSummary {
    open spec fn key_spec(self) -> u64 {
        self.object_id
    }

    fn key(&self) -> (k: u64) {
        self.object_id
    }
}

/// One dynamic field of a parent object as a listing reports it.
#[derive(Clone, Copy)]
pub struct FieldSummary {
    pub object_id: u64,
    pub name_key: u64,
}

impl Keyed for FieldSummary {
    open spec fn key_spec(self) -> u64 {
        self.object_id
    }

    fn key(&self) -> (k: u64) {
        self.object_id
    }
}

/// Why a listing lookup failed; the variant keeps what was queried.
#[derive(Debug)]
pub enum ListingError {
    DynamicFieldNotFound { parent: u64, name_key: u64 },
}

/// Lists the objects an address owns, one page at a time, ordered by object
/// identifier.
pub fn get_objects_owned_by_address(
    objects: Vec<ObjectSummary>,
    cursor: Option<u64>,
    limit: Option<usize>,
) -> (page: Page<ObjectSummary>)
    requires
        sorted_keys(objects@, false),
    ensures
        page.data@ == page_data(objects@, cursor, spec_cap_page_limit(limit) as int, false),
        page.next_cursor == page_next_cursor(
            objects@,
            cursor,
            spec_cap_page_limit(limit) as int,
            false,
        ),
{
    paginate(objects, cursor, limit, false)
}

/// Lists the dynamic fields of a parent object, one page at a time, ordered
/// by field object identifier.
pub fn get_dynamic_fields(
    fields: Vec<FieldSummary>,
    cursor: Option<u64>,
    limit: Option<usize>,
) -> (page: Page<FieldSummary>)
    requires
        sorted_keys(fields@, false),
    ensures
        page.data@ == page_data(fields@, cursor, spec_cap_page_limit(limit) as int, false),
        page.next_cursor == page_next_cursor(
            fields@,
            cursor,
            spec_cap_page_limit(limit) as int,
            false,
        ),
{
    paginate(fields, cursor, limit, false)
}

/// The requested traversal order of a transaction listing; absent means
/// ascending.
pub open spec fn spec_descending(descending_order: Option<bool>) -> bool {
    match descending_order {
        Some(b) => b,
        None => false,
    }
}

/// Lists the transaction digests matching a filter, one page at a time, in
/// the requested order over the store's snapshot for that order.
pub fn get_transactions(
    digests: Vec<u64>,
    cursor: Option<u64>,
    limit: Option<usize>,
    descending_order: Option<bool>,
) -> (page: Page<u64>)
    requires
        sorted_keys(digests@, spec_descending(descending_order)),
    ensures
        page.data@ == page_data(
            digests@,
            cursor,
            spec_cap_page_limit(limit) as int,
            spec_descending(descending_order),
        ),
        page.next_cursor == page_next_cursor(
            digests@,
            cursor,
            spec_cap_page_limit(limit) as int,
            spec_descending(descending_order),
        ),
{
    let descending = match descending_order {
        Some(b) => b,
        None => false,
    };
    paginate(digests, cursor, limit, descending)
}

/// Resolves the object identifier of one dynamic field of a parent object
/// by its name; a parent's field names are unique, so the match is unique.
pub fn get_dynamic_field_object_id(
    parent: u64,
    fields: &Vec<FieldSummary>,
    name_key: u64,
) -> (r: Result<u64, ListingError>)
    requires
        forall|i: int, j: int|
            0 <= i < j < fields@.len() ==> (#[trigger] fields@[i]).name_key != (
            #[trigger] fields@[j]).name_key,
    ensures
        (r matches Err(ListingError::DynamicFieldNotFound { parent: p, name_key: n }) && p
            == parent && n == name_key) <==> !(exists|i: int|
            0 <= i < fields@.len() && (#[trigger] fields@[i]).name_key == name_key),
        r matches Ok(id) ==> exists|i: int|
            0 <= i < fields@.len() && (#[trigger] fields@[i]).name_key == name_key
                && fields@[i].object_id == id,
        r is Ok <==> exists|i: int|
            0 <= i < fields@.len() && (#[trigger] fields@[i]).name_key == name_key,
{
    let mut i: usize = 0;
    while i < fields.len()
        invariant
            i <= fields@.len(),
            forall|j: int| 0 <= j < i ==> (#[trigger] fields@[j]).name_key != name_key,
        decreases fields.len() - i,
    {
        if fields[i].name_key == name_key {
            return Ok(fields[i].object_id);
        }
        i += 1;
    }
    Err(ListingError::DynamicFieldNotFound { parent, name_key })
}

} // verus!

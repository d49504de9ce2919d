//! Resolution of an object identifier into its current or historical state.
//!
//! The store keeps, per identifier, an immutable history: every version it
//! retains, a tombstone when the object was deleted, and the floor of its
//! retention window. Resolution never collapses distinct outcomes: an
//! identifier that never named an object, one whose object was deleted, one
//! whose requested version was evicted, and one whose requested version
//! simply never existed are all surfaced apart.

use vstd::prelude::*;
use crate::introspect::RawModule;

verus! {

/// Who holds an object.
#[derive(Clone, Copy)]
pub enum OwnerKind {
    Address(u64),
    ObjectOwner(u64),
    Shared,
    Immutable,
}

/// What an object carries: a plain value, or compiled package modules.
pub enum ObjectPayload {
    MoveValue { type_key: u64, contents: Vec<u8> },
    Package { modules: Vec<RawModule> },
}

/// One immutable version of a ledger object; an `(id, version)` pair is
/// never overwritten once it exists.
pub struct VersionedObject {
    pub id: u64,
    pub version: u64,
    pub owner: OwnerKind,
    pub payload: ObjectPayload,
}

/// Everything the store retains about one identifier: the retained versions
/// in ascending order, the version at which the object was deleted if it
/// was, and the lower edge of the retention window.
pub struct ObjectRecord {
    pub id: u64,
    pub versions: Vec<VersionedObject>,
    pub deleted_at: Option<u64>,
    pub retained_from: u64,
}

/// Outcome of resolving an identifier at its latest state.
pub enum ObjectState {
    Exists(VersionedObject),
    NotAnObject { id: u64 },
    Deleted { id: u64, deleted_at: u64 },
}

/// Outcome of resolving an identifier at one requested version.
pub enum PastObjectState {
    VersionFound(VersionedObject),
    VersionNotFound { id: u64, version: u64 },
    Deleted { id: u64, version: u64, deleted_at: u64 },
    OutOfRetainedRange { id: u64, version: u64, retained_from: u64 },
}

/// The store's invariant on a history record: versions belong to the record's
/// identifier and ascend strictly, every retained version precedes the
/// tombstone, and a record only exists for an object that has either a
/// version or a tombstone.
pub open spec fn record_wf(r: ObjectRecord) -> bool {
    &&& forall|i: int| 0 <= i < r.versions.len() ==> (#[trigger] r.versions[i].id) == r.id
    &&& forall|i: int, j: int|
        0 <= i < j < r.versions.len() ==> (#[trigger] r.versions[i].version) < (
        #[trigger] r.versions[j].version)
    &&& match r.deleted_at {
        Some(d) => forall|i: int| 0 <= i < r.versions.len() ==> (#[trigger] r.versions[i].version) < d,
        None => r.versions.len() > 0,
    }
}

pub open spec fn current_is_not_an_object(record: Option<ObjectRecord>) -> bool {
    record is None
}

pub open spec fn current_is_deleted(record: Option<ObjectRecord>) -> bool {
    record matches Some(r) && r.deleted_at is Some
}

pub open spec fn current_is_exists(record: Option<ObjectRecord>) -> bool {
    record matches Some(r) && r.deleted_at is None
}

/// State partition, current state: of the three outcomes of `current`,
/// exactly one holds for any history the store can hand over.
pub proof fn lemma_current_state_partition(record: Option<ObjectRecord>)
    ensures
        current_is_not_an_object(record) || current_is_deleted(record) || current_is_exists(
            record,
        ),
        !(current_is_not_an_object(record) && current_is_deleted(record)),
        !(current_is_not_an_object(record) && current_is_exists(record)),
        !(current_is_deleted(record) && current_is_exists(record)),
{
}

/// Resolves an identifier to its latest state: never an object, deleted, or
/// existing at its newest retained version.
pub fn current(record: Option<ObjectRecord>, id: u64) -> (state: ObjectState)
    requires
        record matches Some(r) ==> record_wf(r) && r.id == id,
    ensures
        current_is_not_an_object(record) <==> (state matches ObjectState::NotAnObject {
            id: i,
        } && i == id),
        current_is_deleted(record) <==> (state matches ObjectState::Deleted { id: i, deleted_at }
            && i == id && Some(deleted_at) == record->Some_0.deleted_at),
        current_is_exists(record) <==> (state matches ObjectState::Exists(o) && o
            == record->Some_0.versions@.last()),
{
    match record {
        None => ObjectState::NotAnObject { id },
        Some(r) => {
            match r.deleted_at {
                Some(d) => ObjectState::Deleted { id, deleted_at: d },
                None => {
                    let mut versions = r.versions;
                    let o = versions.pop().unwrap();
                    ObjectState::Exists(o)
                },
            }
        },
    }
}

pub open spec fn past_is_out_of_range(record: Option<ObjectRecord>, version: u64) -> bool {
    record matches Some(r) && version < r.retained_from
}

pub open spec fn past_is_deleted(record: Option<ObjectRecord>, version: u64) -> bool {
    record matches Some(r) && version >= r.retained_from && (r.deleted_at matches Some(d) && version
        >= d)
}

pub open spec fn past_is_found(record: Option<ObjectRecord>, version: u64) -> bool {
    record matches Some(r) && version >= r.retained_from && !(r.deleted_at matches Some(d)
        && version >= d) && (exists|i: int|
        0 <= i < r.versions.len() && (#[trigger] r.versions[i].version) == version)
}

pub open spec fn past_is_not_found(record: Option<ObjectRecord>, version: u64) -> bool {
    !past_is_out_of_range(record, version) && !past_is_deleted(record, version) && !past_is_found(
        record,
        version,
    )
}

/// State partition, historical state: of the four outcomes of `at_version`,
/// exactly one holds for any history the store can hand over and any
/// requested version.
pub proof fn lemma_past_state_partition(record: Option<ObjectRecord>, version: u64)
    ensures
        past_is_out_of_range(record, version) || past_is_deleted(record, version) || past_is_found(
            record,
            version,
        ) || past_is_not_found(record, version),
        !(past_is_out_of_range(record, version) && past_is_deleted(record, version)),
        !(past_is_out_of_range(record, version) && past_is_found(record, version)),
        !(past_is_out_of_range(record, version) && past_is_not_found(record, version)),
        !(past_is_deleted(record, version) && past_is_found(record, version)),
        !(past_is_deleted(record, version) && past_is_not_found(record, version)),
        !(past_is_found(record, version) && past_is_not_found(record, version)),
{
}

/// Resolves an identifier at one requested version. A version below the
/// retention window is reported as evicted, one at or past the tombstone as
/// deleted, a retained one as found, and any other as never having existed;
/// none of the four is collapsed into another.
pub fn at_version(record: Option<ObjectRecord>, id: u64, version: u64) -> (state: PastObjectState)
    requires
        record matches Some(r) ==> record_wf(r) && r.id == id,
    ensures
        past_is_out_of_range(record, version) <==> (state matches
            PastObjectState::OutOfRetainedRange { id: i, version: v, retained_from } && i == id && v
            == version && retained_from == record->Some_0.retained_from),
        past_is_deleted(record, version) <==> (state matches PastObjectState::Deleted {
            id: i,
            version: v,
            deleted_at,
        } && i == id && v == version && Some(deleted_at) == record->Some_0.deleted_at),
        past_is_found(record, version) <==> (state matches PastObjectState::VersionFound(o) && o.id
            == id && o.version == version),
        state matches PastObjectState::VersionFound(o) ==> exists|i: int|
            0 <= i < record->Some_0.versions.len() && o == #[trigger] record->Some_0.versions[i],
        past_is_not_found(record, version) <==> (state matches PastObjectState::VersionNotFound {
            id: i,
            version: v,
        } && i == id && v == version),
{
    match record {
        None => PastObjectState::VersionNotFound { id, version },
        Some(r) => {
            if version < r.retained_from {
                return PastObjectState::OutOfRetainedRange {
                    id,
                    version,
                    retained_from: r.retained_from,
                };
            }
            match r.deleted_at {
                Some(d) => {
                    if version >= d {
                        return PastObjectState::Deleted { id, version, deleted_at: d };
                    }
                },
                None => {},
            }
            let mut versions = r.versions;
            let mut i: usize = 0;
            loop
                invariant
                    i <= versions.len(),
                    forall|j: int| 0 <= j < i ==> (#[trigger] versions[j].version) != version,
                    record matches Some(rr) && record_wf(rr) && rr.id == id && versions@
                        == rr.versions@,
                    !past_is_out_of_range(record, version),
                    !past_is_deleted(record, version),
                decreases versions.len() - i,
            {
                if i == versions.len() {
                    return PastObjectState::VersionNotFound { id, version };
                }
                if versions[i].version == version {
                    let o = versions.remove(i);
                    return PastObjectState::VersionFound(o);
                }
                i += 1;
            }
        },
    }
}

} // verus!

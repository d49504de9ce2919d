//! Normalization of raw package data into a structured module model, and
//! classification of function parameters by passing convention.
//!
//! A package object carries its modules in raw form: pools of identifier
//! bytes, and struct and function declarations that name identifiers by
//! index, as compiled bytecode does. Normalization resolves every index
//! through the pool, yielding modules whose structs, functions and types
//! carry their names directly; a declaration pointing outside its pool is
//! malformed. Lookups by name first hold the name against the Move
//! identifier grammar, so that an ill-formed name is surfaced apart from a
//! well-formed one that is simply absent.

use vstd::prelude::*;
use crate::bytes::{bytes_eq, copy_bytes};
use crate::resolver::{current, current_is_exists, record_wf, ObjectPayload, ObjectRecord,
    ObjectState, VersionedObject};

verus! {

/// A type as a raw declaration states it: struct names are indices into the
/// enclosing module's identifier pool.
pub enum RawType {
    Bool,
    U8,
    U64,
    U128,
    Address,
    Signer,
    Vector(Box<RawType>),
    Struct { name_idx: usize },
    Reference(Box<RawType>),
    MutableReference(Box<RawType>),
    TypeParameter(u16),
}

/// A raw struct declaration: its name and its fields' names are pool indices.
pub struct RawStructDef {
    pub name_idx: usize,
    pub fields: Vec<(usize, RawType)>,
}

/// A raw function declaration: its name is a pool index; its parameters keep
/// declaration order.
pub struct RawFunctionDef {
    pub name_idx: usize,
    pub parameters: Vec<RawType>,
}

/// One module of a package in raw form: an identifier pool and declarations
/// that point into it.
pub struct RawModule {
    pub name: Vec<u8>,
    pub identifiers: Vec<Vec<u8>>,
    pub structs: Vec<RawStructDef>,
    pub functions: Vec<RawFunctionDef>,
}

/// A type with every name resolved.
pub enum NormalizedType {
    Bool,
    U8,
    U64,
    U128,
    Address,
    Signer,
    Vector(Box<NormalizedType>),
    Struct { name: Vec<u8> },
    Reference(Box<NormalizedType>),
    MutableReference(Box<NormalizedType>),
    TypeParameter(u16),
}

/// A struct with its own and its fields' names resolved.
pub struct NormalizedStruct {
    pub name: Vec<u8>,
    pub fields: Vec<(Vec<u8>, NormalizedType)>,
}

/// A function with its name resolved; parameters keep declaration order.
pub struct NormalizedFunction {
    pub name: Vec<u8>,
    pub parameters: Vec<NormalizedType>,
}

/// A module with every declaration resolved through its identifier pool.
pub struct NormalizedModule {
    pub name: Vec<u8>,
    pub structs: Vec<NormalizedStruct>,
    pub functions: Vec<NormalizedFunction>,
}

/// How a transaction builder must supply one argument.
#[derive(Clone, Copy, Debug, PartialEq, Eq)]
pub enum ArgumentPassingMode {
    Pure,
    ByValue,
    ByImmutableReference,
    ByMutableReference,
}

/// Why an introspection request failed; each variant keeps what was queried.
#[derive(Debug)]
pub enum IntrospectError {
    PackageNotFound { package: u64 },
    NotAPackage { package: u64 },
    MalformedModule { package: u64 },
    ModuleNotFound { package: u64, module: Vec<u8> },
    InvalidIdentifier { name: Vec<u8> },
    StructNotFound { package: u64, module: Vec<u8>, name: Vec<u8> },
    FunctionNotFound { package: u64, module: Vec<u8>, name: Vec<u8> },
}

pub open spec fn is_alpha_byte(b: u8) -> bool {
    (97 <= b <= 122) || (65 <= b <= 90)
}

pub open spec fn is_identifier_byte(b: u8) -> bool {
    b == 95 || is_alpha_byte(b) || (48 <= b <= 57)
}

/// The bytes of the reserved module self-name, `<SELF>`.
pub open spec fn self_name_bytes() -> Seq<u8> {
    seq![60u8, 83u8, 69u8, 76u8, 70u8, 62u8]
}

/// The Move identifier grammar: the reserved self-name, a letter followed by
/// letters, digits or underscores, or an underscore followed by at least one
/// such character.
pub open spec fn is_valid_identifier(s: Seq<u8>) -> bool {
    ||| s == self_name_bytes()
    ||| (s.len() >= 1 && is_alpha_byte(s[0]) && (forall|i: int|
        1 <= i < s.len() ==> is_identifier_byte(#[trigger] s[i])))
    ||| (s.len() >= 2 && s[0] == 95 && (forall|i: int|
        1 <= i < s.len() ==> is_identifier_byte(#[trigger] s[i])))
}

/// Relies on `move_core_types::identifier::Identifier::from_utf8`, which
/// accepts exactly the byte strings of the Move identifier grammar stated by
/// `is_valid_identifier`: the reserved `<SELF>` name, a letter followed by
/// letters, digits or underscores, or an underscore followed by at least one
/// further such character.
#[verifier::external_body]
pub fn identifier_ok(name: &Vec<u8>) -> (r: bool)
    ensures
        r == is_valid_identifier(name@),
{
    move_core_types::identifier::Identifier::from_utf8(name.clone()).is_ok()
}

pub open spec fn raw_type_wf(ids: Seq<Vec<u8>>, t: RawType) -> bool
    decreases t,
{
    match t {
        RawType::Struct { name_idx } => name_idx < ids.len(),
        RawType::Vector(inner) => raw_type_wf(ids, *inner),
        RawType::Reference(inner) => raw_type_wf(ids, *inner),
        RawType::MutableReference(inner) => raw_type_wf(ids, *inner),
        _ => true,
    }
}

/// `n` is `t` with every name index resolved through the pool `ids`.
pub open spec fn resolves_type(ids: Seq<Vec<u8>>, t: RawType, n: NormalizedType) -> bool
    decreases t,
{
    match t {
        RawType::Bool => n is Bool,
        RawType::U8 => n is U8,
        RawType::U64 => n is U64,
        RawType::U128 => n is U128,
        RawType::Address => n is Address,
        RawType::Signer => n is Signer,
        RawType::Vector(inner) => n matches NormalizedType::Vector(m) && resolves_type(
            ids,
            *inner,
            *m,
        ),
        RawType::Struct { name_idx } => name_idx < ids.len() && (n matches NormalizedType::Struct {
            name,
        } && name@ == ids[name_idx as int]@),
        RawType::Reference(inner) => n matches NormalizedType::Reference(m) && resolves_type(
            ids,
            *inner,
            *m,
        ),
        RawType::MutableReference(inner) => n matches NormalizedType::MutableReference(m)
            && resolves_type(ids, *inner, *m),
        RawType::TypeParameter(x) => n matches NormalizedType::TypeParameter(y) && x == y,
    }
}

pub open spec fn raw_struct_wf(ids: Seq<Vec<u8>>, s: RawStructDef) -> bool {
    &&& s.name_idx < ids.len()
    &&& forall|i: int|
        0 <= i < s.fields.len() ==> (#[trigger] s.fields[i]).0 < ids.len() && raw_type_wf(
            ids,
            s.fields[i].1,
        )
}

pub open spec fn raw_function_wf(ids: Seq<Vec<u8>>, f: RawFunctionDef) -> bool {
    &&& f.name_idx < ids.len()
    &&& forall|i: int| 0 <= i < f.parameters.len() ==> raw_type_wf(ids, #[trigger] f.parameters[i])
}

pub open spec fn raw_module_wf(m: RawModule) -> bool {
    &&& forall|i: int| 0 <= i < m.structs.len() ==> raw_struct_wf(m.identifiers@, #[trigger] m.structs[i])
    &&& forall|i: int|
        0 <= i < m.functions.len() ==> raw_function_wf(m.identifiers@, #[trigger] m.functions[i])
}

pub open spec fn resolves_struct(ids: Seq<Vec<u8>>, s: RawStructDef, n: NormalizedStruct) -> bool {
    &&& s.name_idx < ids.len()
    &&& n.name@ == ids[s.name_idx as int]@
    &&& n.fields.len() == s.fields.len()
    &&& forall|i: int|
        0 <= i < s.fields.len() ==> (#[trigger] s.fields[i]).0 < ids.len() && n.fields[i].0@
            == ids[s.fields[i].0 as int]@ && resolves_type(ids, s.fields[i].1, n.fields[i].1)
}

pub open spec fn resolves_function(
    ids: Seq<Vec<u8>>,
    f: RawFunctionDef,
    n: NormalizedFunction,
) -> bool {
    &&& f.name_idx < ids.len()
    &&& n.name@ == ids[f.name_idx as int]@
    &&& n.parameters.len() == f.parameters.len()
    &&& forall|i: int|
        0 <= i < f.parameters.len() ==> resolves_type(
            ids,
            #[trigger] f.parameters[i],
            n.parameters[i],
        )
}

/// `n` is `m` with every declaration resolved through `m`'s identifier pool.
pub open spec fn module_resolves(m: RawModule, n: NormalizedModule) -> bool {
    &&& n.name@ == m.name@
    &&& n.structs.len() == m.structs.len()
    &&& forall|i: int|
        0 <= i < m.structs.len() ==> resolves_struct(
            m.identifiers@,
            #[trigger] m.structs[i],
            n.structs[i],
        )
    &&& n.functions.len() == m.functions.len()
    &&& forall|i: int|
        0 <= i < m.functions.len() ==> resolves_function(
            m.identifiers@,
            #[trigger] m.functions[i],
            n.functions[i],
        )
}

/// Resolves one raw type through the identifier pool; absent exactly when an
/// index points outside the pool.
pub fn resolve_type(ids: &Vec<Vec<u8>>, t: &RawType) -> (r: Option<NormalizedType>)
    ensures
        r is Some <==> raw_type_wf(ids@, *t),
        r matches Some(n) ==> resolves_type(ids@, *t, n),
    decreases t,
{
    match t {
        RawType::Bool => Some(NormalizedType::Bool),
        RawType::U8 => Some(NormalizedType::U8),
        RawType::U64 => Some(NormalizedType::U64),
        RawType::U128 => Some(NormalizedType::U128),
        RawType::Address => Some(NormalizedType::Address),
        RawType::Signer => Some(NormalizedType::Signer),
        RawType::Vector(inner) => match resolve_type(ids, &**inner) {
            Some(n) => Some(NormalizedType::Vector(Box::new(n))),
            None => None,
        },
        RawType::Struct { name_idx } => {
            if *name_idx < ids.len() {
                Some(NormalizedType::Struct { name: copy_bytes(&ids[*name_idx]) })
            } else {
                None
            }
        },
        RawType::Reference(inner) => match resolve_type(ids, &**inner) {
            Some(n) => Some(NormalizedType::Reference(Box::new(n))),
            None => None,
        },
        RawType::MutableReference(inner) => match resolve_type(ids, &**inner) {
            Some(n) => Some(NormalizedType::MutableReference(Box::new(n))),
            None => None,
        },
        RawType::TypeParameter(x) => Some(NormalizedType::TypeParameter(*x)),
    }
}

fn resolve_struct_def(ids: &Vec<Vec<u8>>, s: &RawStructDef) -> (r: Option<NormalizedStruct>)
    ensures
        r is Some <==> raw_struct_wf(ids@, *s),
        r matches Some(n) ==> resolves_struct(ids@, *s, n),
{
    if s.name_idx >= ids.len() {
        return None;
    }
    let name = copy_bytes(&ids[s.name_idx]);
    let mut fields: Vec<(Vec<u8>, NormalizedType)> = Vec::new();
    let mut i: usize = 0;
    while i < s.fields.len()
        invariant
            i <= s.fields.len(),
            fields.len() == i,
            s.name_idx < ids.len(),
            forall|j: int|
                0 <= j < i ==> (#[trigger] s.fields[j]).0 < ids@.len() && fields[j].0@
                    == ids@[s.fields[j].0 as int]@ && raw_type_wf(ids@, s.fields[j].1)
                    && resolves_type(ids@, s.fields[j].1, fields[j].1),
        decreases s.fields.len() - i,
    {
        let f = &s.fields[i];
        if f.0 >= ids.len() {
            return None;
        }
        match resolve_type(ids, &f.1) {
            Some(n) => {
                fields.push((copy_bytes(&ids[f.0]), n));
            },
            None => {
                return None;
            },
        }
        i += 1;
    }
    Some(NormalizedStruct { name, fields })
}

fn resolve_function_def(ids: &Vec<Vec<u8>>, f: &RawFunctionDef) -> (r: Option<NormalizedFunction>)
    ensures
        r is Some <==> raw_function_wf(ids@, *f),
        r matches Some(n) ==> resolves_function(ids@, *f, n),
{
    if f.name_idx >= ids.len() {
        return None;
    }
    let name = copy_bytes(&ids[f.name_idx]);
    let mut parameters: Vec<NormalizedType> = Vec::new();
    let mut i: usize = 0;
    while i < f.parameters.len()
        invariant
            i <= f.parameters.len(),
            parameters.len() == i,
            f.name_idx < ids.len(),
            forall|j: int|
                0 <= j < i ==> raw_type_wf(ids@, #[trigger] f.parameters[j]) && resolves_type(
                    ids@,
                    f.parameters[j],
                    parameters[j],
                ),
        decreases f.parameters.len() - i,
    {
        match resolve_type(ids, &f.parameters[i]) {
            Some(n) => {
                parameters.push(n);
            },
            None => {
                return None;
            },
        }
        i += 1;
    }
    Some(NormalizedFunction { name, parameters })
}

/// Normalizes one raw module; absent exactly when some declaration points
/// outside its identifier pool.
pub fn normalize_module(m: &RawModule) -> (r: Option<NormalizedModule>)
    ensures
        r is Some <==> raw_module_wf(*m),
        r matches Some(n) ==> module_resolves(*m, n),
{
    let name = copy_bytes(&m.name);
    let mut structs: Vec<NormalizedStruct> = Vec::new();
    let mut i: usize = 0;
    while i < m.structs.len()
        invariant
            i <= m.structs.len(),
            structs.len() == i,
            forall|j: int|
                0 <= j < i ==> raw_struct_wf(m.identifiers@, #[trigger] m.structs[j])
                    && resolves_struct(m.identifiers@, m.structs[j], structs[j]),
        decreases m.structs.len() - i,
    {
        match resolve_struct_def(&m.identifiers, &m.structs[i]) {
            Some(n) => {
                structs.push(n);
            },
            None => {
                return None;
            },
        }
        i += 1;
    }
    let mut functions: Vec<NormalizedFunction> = Vec::new();
    let mut k: usize = 0;
    while k < m.functions.len()
        invariant
            k <= m.functions.len(),
            functions.len() == k,
            structs.len() == m.structs.len(),
            forall|j: int|
                0 <= j < m.structs.len() ==> raw_struct_wf(m.identifiers@, #[trigger] m.structs[j])
                    && resolves_struct(m.identifiers@, m.structs[j], structs[j]),
            forall|j: int|
                0 <= j < k ==> raw_function_wf(m.identifiers@, #[trigger] m.functions[j])
                    && resolves_function(m.identifiers@, m.functions[j], functions[j]),
            name@ == m.name@,
        decreases m.functions.len() - k,
    {
        match resolve_function_def(&m.identifiers, &m.functions[k]) {
            Some(n) => {
                functions.push(n);
            },
            None => {
                return None;
            },
        }
        k += 1;
    }
    Some(NormalizedModule { name, structs, functions })
}

pub open spec fn all_modules_wf(ms: Seq<RawModule>) -> bool {
    forall|i: int| 0 <= i < ms.len() ==> raw_module_wf(#[trigger] ms[i])
}

pub open spec fn unique_module_names(ms: Seq<RawModule>) -> bool {
    forall|i: int, j: int|
        0 <= i < j < ms.len() ==> (#[trigger] ms[i]).name@ != (#[trigger] ms[j]).name@
}

pub open spec fn has_module(ms: Seq<RawModule>, name: Seq<u8>) -> bool {
    exists|i: int| 0 <= i < ms.len() && (#[trigger] ms[i]).name@ == name
}

/// The raw modules of the record's latest version, when that version exists
/// and carries package data.
pub open spec fn package_modules_of(record: Option<ObjectRecord>) -> Option<Seq<RawModule>> {
    match record {
        Some(r) => if r.deleted_at is None && r.versions.len() > 0 {
            match r.versions@.last().payload {
                ObjectPayload::Package { modules } => Some(modules@),
                _ => None,
            }
        } else {
            None
        },
        None => None,
    }
}

/// The record's latest version exists, carries package data, and every
/// module of it is well formed.
pub open spec fn package_available(record: Option<ObjectRecord>) -> bool {
    package_modules_of(record) matches Some(ms) && all_modules_wf(ms)
}

fn normalize_modules_vec(modules: &Vec<RawModule>, package: u64) -> (r: Result<
    Vec<NormalizedModule>,
    IntrospectError,
>)
    ensures
        r is Ok <==> all_modules_wf(modules@),
        r matches Ok(v) ==> v.len() == modules.len() && (forall|i: int|
            0 <= i < modules.len() ==> module_resolves(#[trigger] modules@[i], v@[i])),
        r matches Err(e) ==> e matches IntrospectError::MalformedModule { package: p } && p
            == package,
{
    let mut out: Vec<NormalizedModule> = Vec::new();
    let mut i: usize = 0;
    while i < modules.len()
        invariant
            i <= modules.len(),
            out.len() == i,
            forall|j: int|
                0 <= j < i ==> raw_module_wf(#[trigger] modules@[j]) && module_resolves(
                    modules@[j],
                    out@[j],
                ),
        decreases modules.len() - i,
    {
        match normalize_module(&modules[i]) {
            Some(n) => {
                out.push(n);
            },
            None => {
                return Err(IntrospectError::MalformedModule { package });
            },
        }
        i += 1;
    }
    Ok(out)
}

/// Normalizes a package object's modules; an object that does not carry
/// package data is rejected as not a package.
pub fn normalize_package(obj: VersionedObject, package: u64) -> (r: Result<
    Vec<NormalizedModule>,
    IntrospectError,
>)
    ensures
        (r matches Err(IntrospectError::NotAPackage { package: p }) && p == package) <==> !(
        obj.payload is Package),
        obj.payload matches ObjectPayload::Package { modules } ==> {
            &&& r is Ok <==> all_modules_wf(modules@)
            &&& r matches Ok(v) ==> v.len() == modules.len() && (forall|i: int|
                0 <= i < modules@.len() ==> module_resolves(#[trigger] modules@[i], v@[i]))
            &&& r matches Err(e) ==> e matches IntrospectError::MalformedModule { package: p }
                && p == package
        },
{
    match obj.payload {
        ObjectPayload::MoveValue { .. } => Err(IntrospectError::NotAPackage { package }),
        ObjectPayload::Package { modules } => normalize_modules_vec(&modules, package),
    }
}

/// Resolves a package object and normalizes all its modules: absent object
/// and non-package object are distinct failures, as is a malformed module.
pub fn get_move_modules_by_package(package: u64, record: Option<ObjectRecord>) -> (r: Result<
    Vec<NormalizedModule>,
    IntrospectError,
>)
    requires
        record matches Some(rec) ==> record_wf(rec) && rec.id == package,
    ensures
        (r matches Err(IntrospectError::PackageNotFound { package: p }) && p == package) <==> !
        current_is_exists(record),
        (r matches Err(IntrospectError::NotAPackage { package: p }) && p == package) <==> (
        current_is_exists(record) && package_modules_of(record) is None),
        (r matches Err(IntrospectError::MalformedModule { package: p }) && p == package) <==> (
        package_modules_of(record) matches Some(ms) && !all_modules_wf(ms)),
        r is Ok <==> package_available(record),
        r matches Ok(v) ==> (package_modules_of(record) matches Some(ms) && v.len() == ms.len()
            && (forall|i: int|
            0 <= i < ms.len() ==> module_resolves(#[trigger] ms[i], v@[i]))),
{
    match current(record, package) {
        ObjectState::Exists(o) => normalize_package(o, package),
        ObjectState::NotAnObject { .. } => Err(IntrospectError::PackageNotFound { package }),
        ObjectState::Deleted { .. } => Err(IntrospectError::PackageNotFound { package }),
    }
}

/// The raw modules of an available package; meaningful only under
/// `package_modules_of(record) is Some`.
pub open spec fn package_raw_modules(record: Option<ObjectRecord>) -> Seq<RawModule> {
    package_modules_of(record)->Some_0
}

pub open spec fn package_has_module(record: Option<ObjectRecord>, name: Seq<u8>) -> bool {
    package_modules_of(record) matches Some(ms) && has_module(ms, name)
}

fn find_module_index(modules: &Vec<NormalizedModule>, name: &Vec<u8>) -> (r: Option<usize>)
    ensures
        r matches Some(i) ==> i < modules.len() && modules@[i as int].name@ == name@,
        r is None <==> (forall|j: int|
            0 <= j < modules.len() ==> (#[trigger] modules@[j]).name@ != name@),
{
    let mut i: usize = 0;
    while i < modules.len()
        invariant
            i <= modules.len(),
            forall|j: int| 0 <= j < i ==> (#[trigger] modules@[j]).name@ != name@,
        decreases modules.len() - i,
    {
        if bytes_eq(&modules[i].name, name) {
            return Some(i);
        }
        i += 1;
    }
    None
}

/// Looks one module up by name in a normalized package; a well-formed
/// package names each module once, so the match is unique.
pub fn get_move_module(package: u64, record: Option<ObjectRecord>, module_name: &Vec<u8>) -> (r:
    Result<NormalizedModule, IntrospectError>)
    requires
        record matches Some(rec) ==> record_wf(rec) && rec.id == package,
        package_modules_of(record) matches Some(ms) ==> unique_module_names(ms),
    ensures
        (r matches Err(IntrospectError::PackageNotFound { package: p }) && p == package) <==> !
        current_is_exists(record),
        (r matches Err(IntrospectError::NotAPackage { package: p }) && p == package) <==> (
        current_is_exists(record) && package_modules_of(record) is None),
        (r matches Err(IntrospectError::MalformedModule { package: p }) && p == package) <==> (
        package_modules_of(record) matches Some(ms) && !all_modules_wf(ms)),
        (r matches Err(IntrospectError::ModuleNotFound { package: p, module: nm }) && p == package
            && nm@ == module_name@) <==> (package_available(record) && !package_has_module(
            record,
            module_name@,
        )),
        r is Ok <==> package_available(record) && package_has_module(record, module_name@),
        r matches Ok(m) ==> (package_modules_of(record) matches Some(ms) && (exists|i: int|
            0 <= i < ms.len() && (#[trigger] ms[i]).name@ == module_name@ && module_resolves(
                ms[i],
                m,
            ))),
{
    let modules = match get_move_modules_by_package(package, record) {
        Ok(v) => v,
        Err(e) => {
            return Err(e);
        },
    };
    proof {
        let ms = package_raw_modules(record);
        assert forall|j: int| 0 <= j < ms.len() implies (#[trigger] ms[j]).name@
            == modules@[j].name@ by {
            assert(module_resolves(ms[j], modules@[j]));
        }
    }
    match find_module_index(&modules, module_name) {
        None => {
            proof {
                let ms = package_raw_modules(record);
                assert forall|j: int|
                    0 <= j < ms.len() implies (#[trigger] ms[j]).name@ != module_name@ by {
                    assert(ms[j].name@ == modules@[j].name@);
                }
            }
            Err(IntrospectError::ModuleNotFound { package, module: copy_bytes(module_name) })
        },
        Some(i) => {
            proof {
                let ms = package_raw_modules(record);
                assert(module_resolves(ms[i as int], modules@[i as int]));
            }
            let mut modules = modules;
            let m = modules.remove(i);
            Ok(m)
        },
    }
}

pub open spec fn struct_name_of(m: RawModule, j: int) -> Seq<u8> {
    m.identifiers@[m.structs@[j].name_idx as int]@
}

pub open spec fn module_has_struct(m: RawModule, name: Seq<u8>) -> bool {
    exists|j: int| 0 <= j < m.structs.len() && #[trigger] struct_name_of(m, j) == name
}

pub open spec fn function_name_of(m: RawModule, j: int) -> Seq<u8> {
    m.identifiers@[m.functions@[j].name_idx as int]@
}

pub open spec fn module_has_function(m: RawModule, name: Seq<u8>) -> bool {
    exists|j: int| 0 <= j < m.functions.len() && #[trigger] function_name_of(m, j) == name
}

/// Some module of the package bears `mname` and declares a struct named
/// `sname`.
pub open spec fn package_has_struct(
    record: Option<ObjectRecord>,
    mname: Seq<u8>,
    sname: Seq<u8>,
) -> bool {
    package_modules_of(record) matches Some(ms) && (exists|i: int|
        0 <= i < ms.len() && (#[trigger] ms[i]).name@ == mname && module_has_struct(ms[i], sname))
}

/// Some module of the package bears `mname` and declares a function named
/// `fname`.
pub open spec fn package_has_function(
    record: Option<ObjectRecord>,
    mname: Seq<u8>,
    fname: Seq<u8>,
) -> bool {
    package_modules_of(record) matches Some(ms) && (exists|i: int|
        0 <= i < ms.len() && (#[trigger] ms[i]).name@ == mname && module_has_function(
            ms[i],
            fname,
        ))
}

fn find_struct_index(structs: &Vec<NormalizedStruct>, name: &Vec<u8>) -> (r: Option<usize>)
    ensures
        r matches Some(i) ==> i < structs.len() && structs@[i as int].name@ == name@,
        r is None <==> (forall|j: int|
            0 <= j < structs.len() ==> (#[trigger] structs@[j]).name@ != name@),
{
    let mut i: usize = 0;
    while i < structs.len()
        invariant
            i <= structs.len(),
            forall|j: int| 0 <= j < i ==> (#[trigger] structs@[j]).name@ != name@,
        decreases structs.len() - i,
    {
        if bytes_eq(&structs[i].name, name) {
            return Some(i);
        }
        i += 1;
    }
    None
}

fn find_function_index(functions: &Vec<NormalizedFunction>, name: &Vec<u8>) -> (r: Option<usize>)
    ensures
        r matches Some(i) ==> i < functions.len() && functions@[i as int].name@ == name@,
        r is None <==> (forall|j: int|
            0 <= j < functions.len() ==> (#[trigger] functions@[j]).name@ != name@),
{
    let mut i: usize = 0;
    while i < functions.len()
        invariant
            i <= functions.len(),
            forall|j: int| 0 <= j < i ==> (#[trigger] functions@[j]).name@ != name@,
        decreases functions.len() - i,
    {
        if bytes_eq(&functions[i].name, name) {
            return Some(i);
        }
        i += 1;
    }
    None
}

/// Looks a struct up by name inside one module of a package. The name is
/// first held against the identifier grammar: an ill-formed name is a
/// distinct failure from a well-formed one that is absent.
pub fn get_normalized_move_struct(
    package: u64,
    record: Option<ObjectRecord>,
    module_name: &Vec<u8>,
    struct_name: &Vec<u8>,
) -> (r: Result<NormalizedStruct, IntrospectError>)
    requires
        record matches Some(rec) ==> record_wf(rec) && rec.id == package,
        package_modules_of(record) matches Some(ms) ==> unique_module_names(ms),
    ensures
        (r matches Err(IntrospectError::PackageNotFound { package: p }) && p == package) <==> !
        current_is_exists(record),
        (r matches Err(IntrospectError::NotAPackage { package: p }) && p == package) <==> (
        current_is_exists(record) && package_modules_of(record) is None),
        (r matches Err(IntrospectError::MalformedModule { package: p }) && p == package) <==> (
        package_modules_of(record) matches Some(ms) && !all_modules_wf(ms)),
        (r matches Err(IntrospectError::ModuleNotFound { package: p, module: nm }) && p == package
            && nm@ == module_name@) <==> (package_available(record) && !package_has_module(
            record,
            module_name@,
        )),
        (r matches Err(IntrospectError::InvalidIdentifier { name: na }) && na@ == struct_name@)
            <==> (package_available(record) && package_has_module(record, module_name@)
            && !is_valid_identifier(struct_name@)),
        (r matches Err(IntrospectError::StructNotFound { package: p, module: nm, name: na }) && p
            == package && nm@ == module_name@ && na@ == struct_name@) <==> (package_available(
            record,
        ) && package_has_module(record, module_name@) && is_valid_identifier(struct_name@)
            && !package_has_struct(record, module_name@, struct_name@)),
        r is Ok <==> (package_available(record) && package_has_module(record, module_name@)
            && is_valid_identifier(struct_name@) && package_has_struct(
            record,
            module_name@,
            struct_name@,
        )),
        r matches Ok(s) ==> (package_modules_of(record) matches Some(ms) && (exists|i: int, j: int|
            0 <= i < ms.len() && (#[trigger] ms[i]).name@ == module_name@ && 0 <= j
                < ms[i].structs.len() && struct_name_of(ms[i], j) == struct_name@
                && resolves_struct(ms[i].identifiers@, #[trigger] ms[i].structs@[j], s))),
{
    let m = match get_move_module(package, record, module_name) {
        Ok(m) => m,
        Err(e) => {
            return Err(e);
        },
    };
    let ghost ms = package_raw_modules(record);
    let ghost gi: int = choose|i: int|
        0 <= i < ms.len() && (#[trigger] ms[i]).name@ == module_name@ && module_resolves(
            ms[i],
            m,
        );
    proof {
        assert(0 <= gi < ms.len() && ms[gi].name@ == module_name@ && module_resolves(ms[gi], m));
        lemma_unique_module_match(record, module_name@, gi);
    }
    if !identifier_ok(struct_name) {
        return Err(IntrospectError::InvalidIdentifier { name: copy_bytes(struct_name) });
    }
    match find_struct_index(&m.structs, struct_name) {
        None => {
            proof {
                assert forall|j: int|
                    0 <= j < ms[gi].structs.len() implies #[trigger] struct_name_of(ms[gi], j)
                    != struct_name@ by {
                    assert(resolves_struct(ms[gi].identifiers@, ms[gi].structs@[j], m.structs@[j]));
                }
                assert(!package_has_struct(record, module_name@, struct_name@)) by {
                    if package_has_struct(record, module_name@, struct_name@) {
                        let i2 = choose|i2: int|
                            0 <= i2 < ms.len() && (#[trigger] ms[i2]).name@ == module_name@
                                && module_has_struct(ms[i2], struct_name@);
                        assert(i2 == gi);
                        assert(false);
                    }
                }
            }
            Err(
                IntrospectError::StructNotFound {
                    package,
                    module: copy_bytes(module_name),
                    name: copy_bytes(struct_name),
                },
            )
        },
        Some(si) => {
            proof {
                assert(resolves_struct(
                    ms[gi].identifiers@,
                    ms[gi].structs@[si as int],
                    m.structs@[si as int],
                ));
                assert(struct_name_of(ms[gi], si as int) == struct_name@);
                assert(package_has_struct(record, module_name@, struct_name@));
            }
            let mut structs = m.structs;
            Ok(structs.remove(si))
        },
    }
}

/// In a package whose module names are unique, any module bearing the looked
/// up name is the matched one.
proof fn lemma_unique_module_match(record: Option<ObjectRecord>, mname: Seq<u8>, i: int)
    requires
        package_modules_of(record) matches Some(ms) && unique_module_names(ms) && 0 <= i
            < ms.len() && ms[i].name@ == mname,
    ensures
        forall|i2: int|
            0 <= i2 < package_raw_modules(record).len() && (#[trigger] package_raw_modules(
                record,
            )[i2]).name@ == mname ==> i2 == i,
{
    let ms = package_raw_modules(record);
    assert forall|i2: int| 0 <= i2 < ms.len() && (#[trigger] ms[i2]).name@ == mname implies i2
        == i by {
        if i2 < i {
            assert(ms[i2].name@ != ms[i].name@);
        } else if i < i2 {
            assert(ms[i].name@ != ms[i2].name@);
        }
    }
}

/// Looks a function up by name inside one module of a package, holding the
/// name against the identifier grammar first.
pub fn get_normalized_move_function(
    package: u64,
    record: Option<ObjectRecord>,
    module_name: &Vec<u8>,
    function_name: &Vec<u8>,
) -> (r: Result<NormalizedFunction, IntrospectError>)
    requires
        record matches Some(rec) ==> record_wf(rec) && rec.id == package,
        package_modules_of(record) matches Some(ms) ==> unique_module_names(ms),
    ensures
        (r matches Err(IntrospectError::PackageNotFound { package: p }) && p == package) <==> !
        current_is_exists(record),
        (r matches Err(IntrospectError::NotAPackage { package: p }) && p == package) <==> (
        current_is_exists(record) && package_modules_of(record) is None),
        (r matches Err(IntrospectError::MalformedModule { package: p }) && p == package) <==> (
        package_modules_of(record) matches Some(ms) && !all_modules_wf(ms)),
        (r matches Err(IntrospectError::ModuleNotFound { package: p, module: nm }) && p == package
            && nm@ == module_name@) <==> (package_available(record) && !package_has_module(
            record,
            module_name@,
        )),
        (r matches Err(IntrospectError::InvalidIdentifier { name: na }) && na@ == function_name@)
            <==> (package_available(record) && package_has_module(record, module_name@)
            && !is_valid_identifier(function_name@)),
        (r matches Err(IntrospectError::FunctionNotFound { package: p, module: nm, name: na }) && p
            == package && nm@ == module_name@ && na@ == function_name@) <==> (package_available(
            record,
        ) && package_has_module(record, module_name@) && is_valid_identifier(function_name@)
            && !package_has_function(record, module_name@, function_name@)),
        r is Ok <==> (package_available(record) && package_has_module(record, module_name@)
            && is_valid_identifier(function_name@) && package_has_function(
            record,
            module_name@,
            function_name@,
        )),
        r matches Ok(f) ==> (package_modules_of(record) matches Some(ms) && (exists|i: int, j: int|
            0 <= i < ms.len() && (#[trigger] ms[i]).name@ == module_name@ && 0 <= j
                < ms[i].functions.len() && function_name_of(ms[i], j) == function_name@
                && resolves_function(ms[i].identifiers@, #[trigger] ms[i].functions@[j], f))),
{
    let m = match get_move_module(package, record, module_name) {
        Ok(m) => m,
        Err(e) => {
            return Err(e);
        },
    };
    let ghost ms = package_raw_modules(record);
    let ghost gi: int = choose|i: int|
        0 <= i < ms.len() && (#[trigger] ms[i]).name@ == module_name@ && module_resolves(
            ms[i],
            m,
        );
    proof {
        assert(0 <= gi < ms.len() && ms[gi].name@ == module_name@ && module_resolves(ms[gi], m));
        lemma_unique_module_match(record, module_name@, gi);
    }
    if !identifier_ok(function_name) {
        return Err(IntrospectError::InvalidIdentifier { name: copy_bytes(function_name) });
    }
    match find_function_index(&m.functions, function_name) {
        None => {
            proof {
                assert forall|j: int|
                    0 <= j < ms[gi].functions.len() implies #[trigger] function_name_of(ms[gi], j)
                    != function_name@ by {
                    assert(resolves_function(
                        ms[gi].identifiers@,
                        ms[gi].functions@[j],
                        m.functions@[j],
                    ));
                }
                assert(!package_has_function(record, module_name@, function_name@)) by {
                    if package_has_function(record, module_name@, function_name@) {
                        let i2 = choose|i2: int|
                            0 <= i2 < ms.len() && (#[trigger] ms[i2]).name@ == module_name@
                                && module_has_function(ms[i2], function_name@);
                        assert(i2 == gi);
                        assert(false);
                    }
                }
            }
            Err(
                IntrospectError::FunctionNotFound {
                    package,
                    module: copy_bytes(module_name),
                    name: copy_bytes(function_name),
                },
            )
        },
        Some(fi) => {
            proof {
                assert(resolves_function(
                    ms[gi].identifiers@,
                    ms[gi].functions@[fi as int],
                    m.functions@[fi as int],
                ));
                assert(function_name_of(ms[gi], fi as int) == function_name@);
                assert(package_has_function(record, module_name@, function_name@));
            }
            let mut functions = m.functions;
            Ok(functions.remove(fi))
        },
    }
}

/// How one normalized type is passed: a declared struct moves by value, a
/// reference is read-only, a mutable reference may be written through, and
/// everything else is supplied as a pure value.
pub open spec fn classify_spec(t: NormalizedType) -> ArgumentPassingMode {
    match t {
        NormalizedType::Struct { .. } => ArgumentPassingMode::ByValue,
        NormalizedType::Reference(_) => ArgumentPassingMode::ByImmutableReference,
        NormalizedType::MutableReference(_) => ArgumentPassingMode::ByMutableReference,
        _ => ArgumentPassingMode::Pure,
    }
}

/// The same classification read off the raw declaration, which resolution
/// preserves.
pub open spec fn classify_raw_spec(t: RawType) -> ArgumentPassingMode {
    match t {
        RawType::Struct { .. } => ArgumentPassingMode::ByValue,
        RawType::Reference(_) => ArgumentPassingMode::ByImmutableReference,
        RawType::MutableReference(_) => ArgumentPassingMode::ByMutableReference,
        _ => ArgumentPassingMode::Pure,
    }
}

proof fn lemma_classify_resolved(ids: Seq<Vec<u8>>, t: RawType, n: NormalizedType)
    requires
        resolves_type(ids, t, n),
    ensures
        classify_spec(n) == classify_raw_spec(t),
{
}

/// Classification totality: every normalized type classifies, to exactly one
/// of the four passing modes, and the mode names the type's shape: declared
/// structs go by value, references by immutable reference, mutable
/// references by mutable reference, and everything else as a pure value.
pub proof fn lemma_classification_total(t: NormalizedType)
    ensures
        classify_spec(t) is Pure || classify_spec(t) is ByValue || classify_spec(t)
            is ByImmutableReference || classify_spec(t) is ByMutableReference,
        t is Struct <==> classify_spec(t) is ByValue,
        t is Reference <==> classify_spec(t) is ByImmutableReference,
        t is MutableReference <==> classify_spec(t) is ByMutableReference,
{
}

/// Classifies one normalized type; defined for every type, never failing.
pub fn classify_argument(t: &NormalizedType) -> (mode: ArgumentPassingMode)
    ensures
        mode == classify_spec(*t),
{
    match t {
        NormalizedType::Struct { .. } => ArgumentPassingMode::ByValue,
        NormalizedType::Reference(_) => ArgumentPassingMode::ByImmutableReference,
        NormalizedType::MutableReference(_) => ArgumentPassingMode::ByMutableReference,
        _ => ArgumentPassingMode::Pure,
    }
}

/// Classifies every parameter of one function of one package module, in
/// declaration order: one mode per declared parameter.
pub fn get_move_function_arg_types(
    package: u64,
    record: Option<ObjectRecord>,
    module_name: &Vec<u8>,
    function_name: &Vec<u8>,
) -> (r: Result<Vec<ArgumentPassingMode>, IntrospectError>)
    requires
        record matches Some(rec) ==> record_wf(rec) && rec.id == package,
        package_modules_of(record) matches Some(ms) ==> unique_module_names(ms),
    ensures
        (r matches Err(IntrospectError::PackageNotFound { package: p }) && p == package) <==> !
        current_is_exists(record),
        (r matches Err(IntrospectError::NotAPackage { package: p }) && p == package) <==> (
        current_is_exists(record) && package_modules_of(record) is None),
        (r matches Err(IntrospectError::MalformedModule { package: p }) && p == package) <==> (
        package_modules_of(record) matches Some(ms) && !all_modules_wf(ms)),
        (r matches Err(IntrospectError::ModuleNotFound { package: p, module: nm }) && p == package
            && nm@ == module_name@) <==> (package_available(record) && !package_has_module(
            record,
            module_name@,
        )),
        (r matches Err(IntrospectError::InvalidIdentifier { name: na }) && na@ == function_name@)
            <==> (package_available(record) && package_has_module(record, module_name@)
            && !is_valid_identifier(function_name@)),
        (r matches Err(IntrospectError::FunctionNotFound { package: p, module: nm, name: na }) && p
            == package && nm@ == module_name@ && na@ == function_name@) <==> (package_available(
            record,
        ) && package_has_module(record, module_name@) && is_valid_identifier(function_name@)
            && !package_has_function(record, module_name@, function_name@)),
        r is Ok <==> (package_available(record) && package_has_module(record, module_name@)
            && is_valid_identifier(function_name@) && package_has_function(
            record,
            module_name@,
            function_name@,
        )),
        r matches Ok(modes) ==> (package_modules_of(record) matches Some(ms) && (exists|
            i: int,
            j: int,
        |
            0 <= i < ms.len() && (#[trigger] ms[i]).name@ == module_name@ && 0 <= j
                < ms[i].functions.len() && function_name_of(ms[i], j) == function_name@
                && modes@.len() == (#[trigger] ms[i].functions@[j]).parameters.len() && (forall|
                p: int,
            |
                0 <= p < modes@.len() ==> modes@[p] == classify_raw_spec(
                    ms[i].functions@[j].parameters@[p],
                )))),
{
    let f = match get_normalized_move_function(package, record, module_name, function_name) {
        Ok(f) => f,
        Err(e) => {
            return Err(e);
        },
    };
    let ghost ms = package_raw_modules(record);
    let mut modes: Vec<ArgumentPassingMode> = Vec::new();
    let mut p: usize = 0;
    while p < f.parameters.len()
        invariant
            p <= f.parameters.len(),
            modes.len() == p,
            forall|q: int| 0 <= q < p ==> modes@[q] == classify_spec(#[trigger] f.parameters@[q]),
        decreases f.parameters.len() - p,
    {
        let mode = classify_argument(&f.parameters[p]);
        modes.push(mode);
        p += 1;
    }
    proof {
        let (i, j) = choose|i: int, j: int|
            0 <= i < ms.len() && (#[trigger] ms[i]).name@ == module_name@ && 0 <= j
                < ms[i].functions.len() && function_name_of(ms[i], j) == function_name@
                && resolves_function(ms[i].identifiers@, #[trigger] ms[i].functions@[j], f);
        assert forall|q: int| 0 <= q < modes@.len() implies modes@[q] == classify_raw_spec(
            ms[i].functions@[j].parameters@[q],
        ) by {
            assert(resolves_type(
                ms[i].identifiers@,
                ms[i].functions@[j].parameters@[q],
                f.parameters@[q],
            ));
            lemma_classify_resolved(
                ms[i].identifiers@,
                ms[i].functions@[j].parameters@[q],
                f.parameters@[q],
            );
        }
    }
    Ok(modes)
}

} // verus!

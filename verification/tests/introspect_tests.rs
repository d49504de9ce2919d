use read_api::introspect::{
    classify_argument, get_move_function_arg_types, get_move_module,
    get_move_modules_by_package, get_normalized_move_function, get_normalized_move_struct,
    identifier_ok, normalize_package, ArgumentPassingMode, IntrospectError, NormalizedType,
    RawFunctionDef, RawModule, RawStructDef, RawType,
};
use read_api::resolver::{ObjectPayload, ObjectRecord, OwnerKind, VersionedObject};

fn coin_module() -> RawModule {
    RawModule {
        name: b"coin".to_vec(),
        identifiers: vec![b"Coin".to_vec(), b"transfer".to_vec(), b"value".to_vec()],
        structs: vec![RawStructDef { name_idx: 0, fields: vec![(2, RawType::U64)] }],
        functions: vec![RawFunctionDef {
            name_idx: 1,
            parameters: vec![
                RawType::Struct { name_idx: 0 },
                RawType::Reference(Box::new(RawType::U64)),
                RawType::MutableReference(Box::new(RawType::U64)),
                RawType::U64,
            ],
        }],
    }
}

fn package_record(id: u64, modules: Vec<RawModule>) -> Option<ObjectRecord> {
    Some(ObjectRecord {
        id,
        versions: vec![VersionedObject {
            id,
            version: 1,
            owner: OwnerKind::Immutable,
            payload: ObjectPayload::Package { modules },
        }],
        deleted_at: None,
        retained_from: 0,
    })
}

fn value_record(id: u64) -> Option<ObjectRecord> {
    Some(ObjectRecord {
        id,
        versions: vec![VersionedObject {
            id,
            version: 1,
            owner: OwnerKind::Address(4),
            payload: ObjectPayload::MoveValue { type_key: 1, contents: vec![0] },
        }],
        deleted_at: None,
        retained_from: 0,
    })
}

#[test]
fn normalization_resolves_names_through_the_pool() {
    let modules = get_move_modules_by_package(1, package_record(1, vec![coin_module()])).unwrap();
    assert_eq!(modules.len(), 1);
    assert_eq!(modules[0].name, b"coin".to_vec());
    assert_eq!(modules[0].structs.len(), 1);
    assert_eq!(modules[0].structs[0].name, b"Coin".to_vec());
    assert_eq!(modules[0].structs[0].fields.len(), 1);
    assert_eq!(modules[0].structs[0].fields[0].0, b"value".to_vec());
    assert_eq!(modules[0].functions.len(), 1);
    assert_eq!(modules[0].functions[0].name, b"transfer".to_vec());
    assert_eq!(modules[0].functions[0].parameters.len(), 4);
}

#[test]
fn normalizing_a_non_package_object_is_rejected_as_not_a_package() {
    let record = value_record(2);
    let obj = match record {
        Some(mut r) => r.versions.pop().unwrap(),
        None => unreachable!(),
    };
    match normalize_package(obj, 2) {
        Err(IntrospectError::NotAPackage { package }) => assert_eq!(package, 2),
        _ => panic!("a plain value object is not a package"),
    }
    match get_move_modules_by_package(2, value_record(2)) {
        Err(IntrospectError::NotAPackage { package }) => assert_eq!(package, 2),
        _ => panic!("a plain value object is not a package"),
    }
}

#[test]
fn missing_package_object_is_a_distinct_failure() {
    match get_move_modules_by_package(3, None) {
        Err(IntrospectError::PackageNotFound { package }) => assert_eq!(package, 3),
        _ => panic!("an absent object cannot be normalized"),
    }
}

#[test]
fn declaration_pointing_outside_its_pool_is_malformed() {
    let mut bad = coin_module();
    bad.functions[0].name_idx = 99;
    match get_move_modules_by_package(4, package_record(4, vec![bad])) {
        Err(IntrospectError::MalformedModule { package }) => assert_eq!(package, 4),
        _ => panic!("an out-of-pool name index is a malformed module"),
    }
}

#[test]
fn module_lookup_distinguishes_found_from_missing() {
    let m = get_move_module(5, package_record(5, vec![coin_module()]), &b"coin".to_vec()).unwrap();
    assert_eq!(m.name, b"coin".to_vec());
    match get_move_module(5, package_record(5, vec![coin_module()]), &b"bank".to_vec()) {
        Err(IntrospectError::ModuleNotFound { package, module }) => {
            assert_eq!(package, 5);
            assert_eq!(module, b"bank".to_vec());
        }
        _ => panic!("an absent module name must be reported as module not found"),
    }
}

#[test]
fn struct_lookup_validates_the_identifier_before_searching() {
    match get_normalized_move_struct(
        6,
        package_record(6, vec![coin_module()]),
        &b"coin".to_vec(),
        &b"1Coin".to_vec(),
    ) {
        Err(IntrospectError::InvalidIdentifier { name }) => assert_eq!(name, b"1Coin".to_vec()),
        _ => panic!("a name starting with a digit is not a legal identifier"),
    }
    match get_normalized_move_struct(
        6,
        package_record(6, vec![coin_module()]),
        &b"coin".to_vec(),
        &b"Token".to_vec(),
    ) {
        Err(IntrospectError::StructNotFound { package, module, name }) => {
            assert_eq!(package, 6);
            assert_eq!(module, b"coin".to_vec());
            assert_eq!(name, b"Token".to_vec());
        }
        _ => panic!("a legal but absent name is a struct not found"),
    }
    let s = get_normalized_move_struct(
        6,
        package_record(6, vec![coin_module()]),
        &b"coin".to_vec(),
        &b"Coin".to_vec(),
    )
    .unwrap();
    assert_eq!(s.name, b"Coin".to_vec());
}

#[test]
fn function_lookup_validates_the_identifier_before_searching() {
    match get_normalized_move_function(
        7,
        package_record(7, vec![coin_module()]),
        &b"coin".to_vec(),
        &b"bad name".to_vec(),
    ) {
        Err(IntrospectError::InvalidIdentifier { name }) => assert_eq!(name, b"bad name".to_vec()),
        _ => panic!("a name with a space is not a legal identifier"),
    }
    match get_normalized_move_function(
        7,
        package_record(7, vec![coin_module()]),
        &b"coin".to_vec(),
        &b"mint".to_vec(),
    ) {
        Err(IntrospectError::FunctionNotFound { package, module, name }) => {
            assert_eq!(package, 7);
            assert_eq!(module, b"coin".to_vec());
            assert_eq!(name, b"mint".to_vec());
        }
        _ => panic!("a legal but absent name is a function not found"),
    }
    let f = get_normalized_move_function(
        7,
        package_record(7, vec![coin_module()]),
        &b"coin".to_vec(),
        &b"transfer".to_vec(),
    )
    .unwrap();
    assert_eq!(f.name, b"transfer".to_vec());
    assert_eq!(f.parameters.len(), 4);
}

#[test]
fn identifier_grammar_matches_the_move_rules() {
    assert!(identifier_ok(&b"transfer".to_vec()));
    assert!(identifier_ok(&b"a1_b2".to_vec()));
    assert!(identifier_ok(&b"_hidden".to_vec()));
    assert!(identifier_ok(&b"<SELF>".to_vec()));
    assert!(!identifier_ok(&b"_".to_vec()));
    assert!(!identifier_ok(&b"".to_vec()));
    assert!(!identifier_ok(&b"1abc".to_vec()));
    assert!(!identifier_ok(&b"has space".to_vec()));
    assert!(!identifier_ok(&vec![0xC3, 0xA9]));
}

#[test]
fn classification_covers_every_type_shape() {
    assert_eq!(
        classify_argument(&NormalizedType::Struct { name: b"Coin".to_vec() }),
        ArgumentPassingMode::ByValue
    );
    assert_eq!(
        classify_argument(&NormalizedType::Reference(Box::new(NormalizedType::U8))),
        ArgumentPassingMode::ByImmutableReference
    );
    assert_eq!(
        classify_argument(&NormalizedType::MutableReference(Box::new(NormalizedType::Bool))),
        ArgumentPassingMode::ByMutableReference
    );
    assert_eq!(classify_argument(&NormalizedType::U64), ArgumentPassingMode::Pure);
    assert_eq!(classify_argument(&NormalizedType::Address), ArgumentPassingMode::Pure);
    assert_eq!(
        classify_argument(&NormalizedType::Vector(Box::new(NormalizedType::U8))),
        ArgumentPassingMode::Pure
    );
    assert_eq!(classify_argument(&NormalizedType::TypeParameter(0)), ArgumentPassingMode::Pure);
}

#[test]
fn argument_modes_come_one_per_parameter_in_declaration_order() {
    let modes = get_move_function_arg_types(
        8,
        package_record(8, vec![coin_module()]),
        &b"coin".to_vec(),
        &b"transfer".to_vec(),
    )
    .unwrap();
    assert_eq!(
        modes,
        vec![
            ArgumentPassingMode::ByValue,
            ArgumentPassingMode::ByImmutableReference,
            ArgumentPassingMode::ByMutableReference,
            ArgumentPassingMode::Pure,
        ]
    );
}

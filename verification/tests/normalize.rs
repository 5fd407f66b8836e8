use uniffi_haskell::ffi::{
    Argument, FfiArgument, FfiDefinition, FfiField, FfiFunction, FfiFunctionKind, FfiStruct,
    FfiType, Function, Namespace, Root,
};
use uniffi_haskell::normalize::normalize_borrowed_byte_arguments;

fn buffer() -> FfiType {
    FfiType::RustBuffer(None)
}

fn argument(name: &str, by_ref: bool, is_bytes: bool, ffi_type: FfiType) -> Argument {
    Argument {
        name: name.to_string(),
        by_ref,
        is_bytes,
        ffi_type,
    }
}

fn ffi_argument(name: &str, ty: FfiType) -> FfiArgument {
    FfiArgument {
        name: name.to_string(),
        ty,
    }
}

fn rust_function(name: &str, arguments: Vec<FfiArgument>) -> FfiDefinition {
    FfiDefinition::RustFunction(FfiFunction {
        name: name.to_string(),
        async_data: None,
        arguments,
        return_type: Some(buffer()),
        has_rust_call_status_arg: true,
        kind: FfiFunctionKind::Scaffolding,
    })
}

fn function(ffi_func: &str, arguments: Vec<Argument>) -> Function {
    Function {
        ffi_func: ffi_func.to_string(),
        arguments,
    }
}

fn sample_root() -> Root {
    Root {
        namespaces: vec![Namespace {
            name: "fixture".to_string(),
            functions: vec![
                function(
                    "uniffi_fixture_fn_func_checksum_bytes",
                    vec![
                        argument("count", false, false, FfiType::UInt32),
                        argument("data", true, true, buffer()),
                    ],
                ),
                function(
                    "uniffi_fixture_fn_func_owned_bytes",
                    vec![argument("data", false, true, buffer())],
                ),
            ],
            ffi_definitions: vec![
                rust_function(
                    "uniffi_fixture_fn_func_checksum_bytes",
                    vec![
                        ffi_argument("count", FfiType::UInt32),
                        ffi_argument("data", buffer()),
                    ],
                ),
                rust_function(
                    "uniffi_fixture_fn_func_owned_bytes",
                    vec![ffi_argument("data", buffer())],
                ),
                FfiDefinition::Struct(FfiStruct {
                    name: "VTable".to_string(),
                    fields: vec![FfiField {
                        name: "data".to_string(),
                        ty: buffer(),
                    }],
                }),
            ],
        }],
    }
}

fn ffi_arguments(definition: &FfiDefinition) -> &Vec<FfiArgument> {
    match definition {
        FfiDefinition::RustFunction(f) => &f.arguments,
        _ => panic!("not a Rust function"),
    }
}

#[test]
fn borrowed_bytes_become_foreign_bytes() {
    let mut root = sample_root();
    normalize_borrowed_byte_arguments(&mut root);
    let ns = &root.namespaces[0];
    assert_eq!(ns.functions[0].arguments[0].ffi_type, FfiType::UInt32);
    assert_eq!(ns.functions[0].arguments[1].ffi_type, FfiType::ForeignBytes);
    let args = ffi_arguments(&ns.ffi_definitions[0]);
    assert_eq!(args[0].ty, FfiType::UInt32);
    assert_eq!(args[1].ty, FfiType::ForeignBytes);
    assert_eq!(args[1].name, "data");
}

#[test]
fn owned_bytes_stay_rust_buffers() {
    let mut root = sample_root();
    normalize_borrowed_byte_arguments(&mut root);
    let ns = &root.namespaces[0];
    assert_eq!(ns.functions[1].arguments[0].ffi_type, buffer());
    assert_eq!(ffi_arguments(&ns.ffi_definitions[1])[0].ty, buffer());
}

#[test]
fn other_definitions_are_unchanged() {
    let mut root = sample_root();
    normalize_borrowed_byte_arguments(&mut root);
    let expected = sample_root();
    assert_eq!(root.namespaces[0].ffi_definitions[2], expected.namespaces[0].ffi_definitions[2]);
    assert_eq!(root.namespaces[0].ffi_definitions.len(), 3);
    assert_eq!(root.namespaces[0].name, "fixture");
}

#[test]
fn a_by_ref_argument_that_is_not_bytes_is_unchanged() {
    let mut root = Root {
        namespaces: vec![Namespace {
            name: "n".to_string(),
            functions: vec![function("f", vec![argument("s", true, false, buffer())])],
            ffi_definitions: vec![rust_function("f", vec![ffi_argument("s", buffer())])],
        }],
    };
    normalize_borrowed_byte_arguments(&mut root);
    assert_eq!(root.namespaces[0].functions[0].arguments[0].ffi_type, buffer());
    assert_eq!(ffi_arguments(&root.namespaces[0].ffi_definitions[0])[0].ty, buffer());
}

#[test]
fn normalizing_twice_is_normalizing_once() {
    let mut once = sample_root();
    normalize_borrowed_byte_arguments(&mut once);
    let mut twice = sample_root();
    normalize_borrowed_byte_arguments(&mut twice);
    normalize_borrowed_byte_arguments(&mut twice);
    assert_eq!(once, twice);
}

#[test]
fn definitions_that_become_equal_count_once() {
    let mut root = Root {
        namespaces: vec![Namespace {
            name: "n".to_string(),
            functions: vec![function("f", vec![argument("b", true, true, buffer())])],
            ffi_definitions: vec![
                rust_function("f", vec![ffi_argument("b", buffer())]),
                rust_function("g", vec![]),
                rust_function("f", vec![ffi_argument("b", FfiType::UInt8)]),
            ],
        }],
    };
    normalize_borrowed_byte_arguments(&mut root);
    let defs = &root.namespaces[0].ffi_definitions;
    assert_eq!(defs.len(), 2);
    assert_eq!(defs[0], rust_function("f", vec![ffi_argument("b", FfiType::ForeignBytes)]));
    assert_eq!(defs[1], rust_function("g", vec![]));
}

#[test]
fn the_last_function_with_a_name_gives_the_positions() {
    let mut root = Root {
        namespaces: vec![Namespace {
            name: "n".to_string(),
            functions: vec![
                function("f", vec![argument("a", true, true, buffer()), argument("b", false, false, buffer())]),
                function("f", vec![argument("a", false, false, buffer()), argument("b", true, true, buffer())]),
                function("f", vec![argument("a", false, false, buffer())]),
            ],
            ffi_definitions: vec![rust_function(
                "f",
                vec![ffi_argument("a", buffer()), ffi_argument("b", buffer())],
            )],
        }],
    };
    normalize_borrowed_byte_arguments(&mut root);
    let args = ffi_arguments(&root.namespaces[0].ffi_definitions[0]);
    assert_eq!(args[0].ty, buffer());
    assert_eq!(args[1].ty, FfiType::ForeignBytes);
}

#[test]
fn each_namespace_is_normalized_on_its_own() {
    let mut root = Root {
        namespaces: vec![
            Namespace {
                name: "a".to_string(),
                functions: vec![function("f", vec![argument("x", true, true, buffer())])],
                ffi_definitions: vec![],
            },
            Namespace {
                name: "b".to_string(),
                functions: vec![],
                ffi_definitions: vec![rust_function("f", vec![ffi_argument("x", buffer())])],
            },
        ],
    };
    normalize_borrowed_byte_arguments(&mut root);
    assert_eq!(root.namespaces[0].functions[0].arguments[0].ffi_type, FfiType::ForeignBytes);
    assert_eq!(ffi_arguments(&root.namespaces[1].ffi_definitions[0])[0].ty, buffer());
}

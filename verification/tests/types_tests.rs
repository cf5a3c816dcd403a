use rkyv_js_codegen::generate_imports;
use rkyv_js_codegen::ExternalType;
use rkyv_js_codegen::Import;
use rkyv_js_codegen::TypeDef;

#[test]
fn test_primitive_codec_expr() {
    assert_eq!(TypeDef::U32.to_codec_expr(), "r.u32");
    assert_eq!(TypeDef::Text.to_codec_expr(), "r.string");
    assert_eq!(TypeDef::Bool.to_codec_expr(), "r.bool");
}

#[test]
fn test_container_codec_expr() {
    let vec_u32 = TypeDef::List(Box::new(TypeDef::U32));
    assert_eq!(vec_u32.to_codec_expr(), "r.vec(r.u32)");

    let option_string = TypeDef::Optional(Box::new(TypeDef::Text));
    assert_eq!(option_string.to_codec_expr(), "r.option(r.string)");
}

#[test]
fn test_nested_codec_expr() {
    let nested = TypeDef::List(Box::new(TypeDef::Optional(Box::new(TypeDef::U32))));
    assert_eq!(nested.to_codec_expr(), "r.vec(r.option(r.u32))");
}

#[test]
fn test_ts_types() {
    assert_eq!(TypeDef::U32.to_ts_type(), "number");
    assert_eq!(TypeDef::U64.to_ts_type(), "bigint");
    assert_eq!(TypeDef::Text.to_ts_type(), "string");

    let vec_u32 = TypeDef::List(Box::new(TypeDef::U32));
    assert_eq!(vec_u32.to_ts_type(), "number[]");
}

#[test]
fn test_named_type_codec_expr() {
    let named = TypeDef::Named("Point".to_string());
    assert_eq!(named.to_codec_expr(), "ArchivedPoint");
}

#[test]
fn test_array_codec_expr() {
    let arr = TypeDef::Array(Box::new(TypeDef::U8), 4);
    assert_eq!(arr.to_codec_expr(), "r.array(r.u8, 4)");
}

#[test]
fn test_tuple_codec_expr() {
    let tuple = TypeDef::Tuple(vec![TypeDef::U32, TypeDef::Text]);
    assert_eq!(tuple.to_codec_expr(), "r.tuple(r.u32, r.string)");
}

#[test]
fn test_external_uuid_codec_expr() {
    let uuid = TypeDef::External(ExternalType {
        codec_expr: "uuid".to_string(),
        ts_type: "string".to_string(),
        import: Some(Import::new("rkyv-js/lib/uuid", "uuid")),
        type_params: vec![],
    });
    assert_eq!(uuid.to_codec_expr(), "uuid");
    assert_eq!(uuid.to_ts_type(), "string");
}

#[test]
fn test_external_bytes_codec_expr() {
    let bytes = TypeDef::External(ExternalType {
        codec_expr: "bytes".to_string(),
        ts_type: "Uint8Array".to_string(),
        import: Some(Import::new("rkyv-js/lib/bytes", "bytes")),
        type_params: vec![],
    });
    assert_eq!(bytes.to_codec_expr(), "bytes");
    assert_eq!(bytes.to_ts_type(), "Uint8Array");
}

#[test]
fn test_external_smol_str_codec_expr() {
    // a small-string type archives to the same format as a plain string
    let smol_str = TypeDef::External(ExternalType {
        codec_expr: "r.string".to_string(),
        ts_type: "string".to_string(),
        import: None,
        type_params: vec![],
    });
    assert_eq!(smol_str.to_codec_expr(), "r.string");
    assert_eq!(smol_str.to_ts_type(), "string");
}

#[test]
fn test_external_thin_vec_codec_expr() {
    // a thin vector archives to the same format as a plain list
    let thin_vec = TypeDef::External(ExternalType {
        codec_expr: "r.vec({0})".to_string(),
        ts_type: "{0}[]".to_string(),
        import: None,
        type_params: vec![TypeDef::U32],
    });
    assert_eq!(thin_vec.to_codec_expr(), "r.vec(r.u32)");
    assert_eq!(thin_vec.to_ts_type(), "number[]");
}

#[test]
fn test_external_arrayvec_codec_expr() {
    let arrayvec = TypeDef::External(ExternalType {
        codec_expr: "r.vec({0})".to_string(),
        ts_type: "{0}[]".to_string(),
        import: None,
        type_params: vec![TypeDef::U32],
    });
    assert_eq!(arrayvec.to_codec_expr(), "r.vec(r.u32)");
    assert_eq!(arrayvec.to_ts_type(), "number[]");
}

#[test]
fn test_external_smallvec_codec_expr() {
    let smallvec = TypeDef::External(ExternalType {
        codec_expr: "r.vec({0})".to_string(),
        ts_type: "{0}[]".to_string(),
        import: None,
        type_params: vec![TypeDef::U32],
    });
    assert_eq!(smallvec.to_codec_expr(), "r.vec(r.u32)");
    assert_eq!(smallvec.to_ts_type(), "number[]");
}

#[test]
fn test_external_tinyvec_codec_expr() {
    let tinyvec = TypeDef::External(ExternalType {
        codec_expr: "r.vec({0})".to_string(),
        ts_type: "{0}[]".to_string(),
        import: None,
        type_params: vec![TypeDef::Text],
    });
    assert_eq!(tinyvec.to_codec_expr(), "r.vec(r.string)");
    assert_eq!(tinyvec.to_ts_type(), "string[]");
}

#[test]
fn test_external_tiny_arrayvec_codec_expr() {
    let tiny_arrayvec = TypeDef::External(ExternalType {
        codec_expr: "r.vec({0})".to_string(),
        ts_type: "{0}[]".to_string(),
        import: None,
        type_params: vec![TypeDef::U8],
    });
    assert_eq!(tiny_arrayvec.to_codec_expr(), "r.vec(r.u8)");
    assert_eq!(tiny_arrayvec.to_ts_type(), "number[]");
}

#[test]
fn test_external_vec_deque_codec_expr() {
    let vec_deque = TypeDef::External(ExternalType {
        codec_expr: "r.vec({0})".to_string(),
        ts_type: "{0}[]".to_string(),
        import: None,
        type_params: vec![TypeDef::U32],
    });
    assert_eq!(vec_deque.to_codec_expr(), "r.vec(r.u32)");
    assert_eq!(vec_deque.to_ts_type(), "number[]");
}

#[test]
fn test_external_hash_set_codec_expr() {
    let hash_set = TypeDef::External(ExternalType {
        codec_expr: "hashSet({0})".to_string(),
        ts_type: "Set<{0}>".to_string(),
        import: Some(Import::new("rkyv-js/lib/std-hash-set", "hashSet")),
        type_params: vec![TypeDef::Text],
    });
    assert_eq!(hash_set.to_codec_expr(), "hashSet(r.string)");
    assert_eq!(hash_set.to_ts_type(), "Set<string>");
}

#[test]
fn test_external_btree_set_codec_expr() {
    let btree_set = TypeDef::External(ExternalType {
        codec_expr: "btreeSet({0})".to_string(),
        ts_type: "Set<{0}>".to_string(),
        import: Some(Import::new("rkyv-js/lib/std-btree-set", "btreeSet")),
        type_params: vec![TypeDef::U64],
    });
    assert_eq!(btree_set.to_codec_expr(), "btreeSet(r.u64)");
    assert_eq!(btree_set.to_ts_type(), "Set<bigint>");
}

#[test]
fn test_external_indexmap_codec_expr() {
    let indexmap = TypeDef::External(ExternalType {
        codec_expr: "indexMap({0}, {1})".to_string(),
        ts_type: "Map<{0}, {1}>".to_string(),
        import: Some(Import::new("rkyv-js/lib/indexmap", "indexMap")),
        type_params: vec![TypeDef::Text, TypeDef::U32],
    });
    assert_eq!(indexmap.to_codec_expr(), "indexMap(r.string, r.u32)");
    assert_eq!(indexmap.to_ts_type(), "Map<string, number>");
}

#[test]
fn test_external_indexset_codec_expr() {
    let indexset = TypeDef::External(ExternalType {
        codec_expr: "indexSet({0})".to_string(),
        ts_type: "Set<{0}>".to_string(),
        import: Some(Import::new("rkyv-js/lib/indexmap", "indexSet")),
        type_params: vec![TypeDef::Text],
    });
    assert_eq!(indexset.to_codec_expr(), "indexSet(r.string)");
    assert_eq!(indexset.to_ts_type(), "Set<string>");
}

#[test]
fn test_external_arc_codec_expr() {
    let arc = TypeDef::External(ExternalType {
        codec_expr: "r.arc({0})".to_string(),
        ts_type: "{0}".to_string(),
        import: None,
        type_params: vec![TypeDef::Named("Config".to_string())],
    });
    assert_eq!(arc.to_codec_expr(), "r.arc(ArchivedConfig)");
    assert_eq!(arc.to_ts_type(), "Config");
}

#[test]
fn test_external_rc_codec_expr() {
    let rc = TypeDef::External(ExternalType {
        codec_expr: "r.rc({0})".to_string(),
        ts_type: "{0}".to_string(),
        import: None,
        type_params: vec![TypeDef::Text],
    });
    assert_eq!(rc.to_codec_expr(), "r.rc(r.string)");
    assert_eq!(rc.to_ts_type(), "string");
}

#[test]
fn test_external_weak_codec_expr() {
    let rc_weak = TypeDef::External(ExternalType {
        codec_expr: "r.rcWeak({0})".to_string(),
        ts_type: "{0} | null".to_string(),
        import: None,
        type_params: vec![TypeDef::U32],
    });
    assert_eq!(rc_weak.to_codec_expr(), "r.rcWeak(r.u32)");
    assert_eq!(rc_weak.to_ts_type(), "number | null");

    let arc_weak = TypeDef::External(ExternalType {
        codec_expr: "r.arcWeak({0})".to_string(),
        ts_type: "{0} | null".to_string(),
        import: None,
        type_params: vec![TypeDef::Text],
    });
    assert_eq!(arc_weak.to_codec_expr(), "r.arcWeak(r.string)");
    assert_eq!(arc_weak.to_ts_type(), "string | null");
}

#[test]
fn test_generate_imports_single_export() {
    let mut imports = Vec::new();
    imports.push(Import::new("rkyv-js/lib/uuid", "uuid"));

    let result = generate_imports(&imports);
    assert_eq!(result, "import { uuid } from 'rkyv-js/lib/uuid';\n");
}

#[test]
fn test_generate_imports_multiple_exports_same_module() {
    let mut imports = Vec::new();
    imports.push(Import::new("rkyv-js/lib/indexmap", "indexMap"));
    imports.push(Import::new("rkyv-js/lib/indexmap", "indexSet"));

    let result = generate_imports(&imports);
    assert_eq!(
        result,
        "import { indexMap, indexSet } from 'rkyv-js/lib/indexmap';\n"
    );
}

#[test]
fn test_generate_imports_multiple_modules() {
    let mut imports = Vec::new();
    imports.push(Import::new("rkyv-js/lib/uuid", "uuid"));
    imports.push(Import::new("rkyv-js/lib/bytes", "bytes"));
    imports.push(Import::new("rkyv-js/lib/indexmap", "indexMap"));

    let result = generate_imports(&imports);
    // modules are sorted alphabetically by module path
    assert!(result.contains("import { bytes } from 'rkyv-js/lib/bytes';"));
    assert!(result.contains("import { indexMap } from 'rkyv-js/lib/indexmap';"));
    assert!(result.contains("import { uuid } from 'rkyv-js/lib/uuid';"));
}

#[test]
fn test_generate_imports_custom_module() {
    let mut imports = Vec::new();
    imports.push(Import::new("my-package/custom", "foo"));
    imports.push(Import::new("my-package/custom", "bar"));

    let result = generate_imports(&imports);
    assert_eq!(result, "import { bar, foo } from 'my-package/custom';\n");
}

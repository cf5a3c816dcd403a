use rkyv_js_codegen::registry::GenericShape;
use rkyv_js_codegen::registry::TypeMapping;
use rkyv_js_codegen::registry::TypeRegistry;
use rkyv_js_codegen::Import;
use rkyv_js_codegen::TypeDef;

#[test]
fn test_registry_with_builtins() {
    let registry = TypeRegistry::with_builtins();
    assert!(registry.contains("Uuid"));
    assert!(registry.contains("Bytes"));
    assert!(registry.contains("SmolStr"));
    assert!(registry.contains("VecDeque"));
    assert!(registry.contains("HashMap"));
    assert!(registry.contains("Arc"));
    assert!(!registry.contains("NonExistent"));
}

#[test]
fn test_registry_custom_type() {
    let mut registry = TypeRegistry::new();
    registry.register(
        "MyType",
        TypeMapping {
            codec_expr: "myCodec({0})".to_string(),
            ts_type: "MyType<{0}>".to_string(),
            import: Some(Import::new("my-pkg/codecs", "myCodec")),
            generics: GenericShape::Single,
        },
    );

    let mapping = registry.get("MyType").unwrap();
    let td = mapping.to_type_def(vec![TypeDef::Text]);
    assert_eq!(td.to_codec_expr(), "myCodec(r.string)");
    assert_eq!(td.to_ts_type(), "MyType<string>");
}

#[test]
fn test_registry_override_builtin() {
    let mut registry = TypeRegistry::with_builtins();

    // shadow the builtin mapping with a custom one
    registry.register(
        "Uuid",
        TypeMapping {
            codec_expr: "customUuid".to_string(),
            ts_type: "CustomUuid".to_string(),
            import: Some(Import::new("my-pkg/uuid", "customUuid")),
            generics: GenericShape::NoArgs,
        },
    );

    let mapping = registry.get("Uuid").unwrap();
    let td = mapping.to_type_def(vec![]);
    assert_eq!(td.to_codec_expr(), "customUuid");
}

#[test]
fn test_registry_unregister() {
    let mut registry = TypeRegistry::with_builtins();
    assert!(registry.contains("Uuid"));
    registry.unregister("Uuid");
    assert!(!registry.contains("Uuid"));
}

#[test]
fn test_builtin_uuid_mapping() {
    let registry = TypeRegistry::with_builtins();
    let mapping = registry.get("Uuid").unwrap();
    let td = mapping.to_type_def(vec![]);
    assert_eq!(td.to_codec_expr(), "uuid");
    assert_eq!(td.to_ts_type(), "string");
}

#[test]
fn test_builtin_hashmap_mapping() {
    let registry = TypeRegistry::with_builtins();
    let mapping = registry.get("HashMap").unwrap();
    let td = mapping.to_type_def(vec![TypeDef::Text, TypeDef::U32]);
    assert_eq!(td.to_codec_expr(), "hashMap(r.string, r.u32)");
    assert_eq!(td.to_ts_type(), "Map<string, number>");
}

#[test]
fn test_builtin_smolstr_mapping() {
    let registry = TypeRegistry::with_builtins();
    let mapping = registry.get("SmolStr").unwrap();
    let td = mapping.to_type_def(vec![]);
    assert_eq!(td.to_codec_expr(), "r.string");
    assert_eq!(td.to_ts_type(), "string");
}

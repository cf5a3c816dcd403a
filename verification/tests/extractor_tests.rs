use rkyv_js_codegen::registry::GenericShape;
use rkyv_js_codegen::registry::TypeMapping;
use rkyv_js_codegen::CodeGenerator;
use rkyv_js_codegen::Import;

#[test]
fn test_extract_simple_struct() {
    let mut codegen = CodeGenerator::new();
    codegen.add_source_str(
        r#"
            use rkyv::Archive;
            #[derive(Archive)]
            struct Point { x: f64, y: f64 }
        "#,
    );
    let code = codegen.generate();
    assert!(code.contains("export const ArchivedPoint = r.struct({"));
    assert!(code.contains("x: r.f64"));
    assert!(code.contains("y: r.f64"));
    assert!(code.contains("export type Point = r.Infer<typeof ArchivedPoint>;"));
}

#[test]
fn test_extract_struct_with_containers() {
    let mut codegen = CodeGenerator::new();
    codegen.add_source_str(
        r#"
            use rkyv::Archive;
            #[derive(Archive)]
            struct Person { name: String, age: u32, scores: Vec<u32>, email: Option<String> }
        "#,
    );
    let code = codegen.generate();
    assert!(code.contains("name: r.string"));
    assert!(code.contains("scores: r.vec(r.u32)"));
    assert!(code.contains("email: r.option(r.string)"));
}

#[test]
fn test_extract_enum() {
    let mut codegen = CodeGenerator::new();
    codegen.add_source_str(
        r#"
            use rkyv::Archive;
            #[derive(Archive)]
            enum Message { Quit, Move { x: i32, y: i32 }, Write(String) }
        "#,
    );
    let code = codegen.generate();
    assert!(code.contains("export const ArchivedMessage = r.taggedEnum({"));
    assert!(code.contains("Quit: r.unit"));
    assert!(code.contains("Move: r.struct({"));
    assert!(code.contains("Write: r.struct({"));
}

#[test]
fn test_ignores_non_typescript_types() {
    let mut codegen = CodeGenerator::new();
    codegen.add_source_str(
        r#"
            use rkyv::Archive;
            #[derive(Debug)]
            struct NotExported { x: i32 }
            #[derive(Debug, Archive)]
            struct Exported { y: i32 }
        "#,
    );
    let code = codegen.generate();
    assert!(!code.contains("ArchivedNotExported"));
    assert!(code.contains("ArchivedExported"));
}

#[test]
fn test_qualified_archive_derive() {
    let mut codegen = CodeGenerator::new();
    codegen.add_source_str(
        r#"
            #[derive(rkyv::Archive)]
            struct QualifiedPath { value: u32 }
        "#,
    );
    let code = codegen.generate();
    assert!(code.contains("export const ArchivedQualifiedPath = r.struct({"));
}

#[test]
fn test_aliased_archive_derive() {
    let mut codegen = CodeGenerator::new();
    codegen.add_source_str(
        r#"
            #[derive(some_alias::Archive)]
            struct AliasedPath { id: u64 }
            #[derive(deeply::nested::module::Archive)]
            struct DeeplyNested { data: String }
        "#,
    );
    let code = codegen.generate();
    assert!(code.contains("id: r.u64"));
    assert!(code.contains("data: r.string"));
}

#[test]
fn test_auto_detect_marker_alias() {
    let mut codegen = CodeGenerator::new();
    codegen.add_source_str(
        r#"
            use rkyv::Archive as Rkyv;
            #[derive(Rkyv)]
            struct AliasedMarker { value: i32 }
            #[derive(rkyv::Archive)]
            struct DefaultMarker { value: u32 }
        "#,
    );
    let code = codegen.generate();
    assert!(code.contains("ArchivedAliasedMarker"));
    assert!(code.contains("ArchivedDefaultMarker"));
}

#[test]
fn test_auto_detect_marker_alias_qualified() {
    let mut codegen = CodeGenerator::new();
    codegen.add_source_str(
        r#"
            use rkyv::Archive as Serialize;
            #[derive(Serialize)]
            struct WithAlias { a: i32 }
        "#,
    );
    let code = codegen.generate();
    assert!(code.contains("ArchivedWithAlias"));
}

#[test]
fn test_unimported_marker_not_detected() {
    // without an import of the marker, neither bare name should be detected
    let mut codegen = CodeGenerator::new();
    codegen.add_source_str(
        r#"
            #[derive(Rkyv)]
            struct NotDetected1 { a: i32 }
            #[derive(Archive)]
            struct NotDetected2 { b: i32 }
        "#,
    );
    let code = codegen.generate();
    assert!(!code.contains("ArchivedNotDetected1"));
    assert!(!code.contains("ArchivedNotDetected2"));
}

#[test]
fn test_extract_nested_types() {
    let mut codegen = CodeGenerator::new();
    codegen.add_source_str(
        r#"
            use rkyv::Archive;
            #[derive(Archive)]
            struct Inner { value: u32 }
            #[derive(Archive)]
            struct Outer { inner: Inner, items: Vec<Inner> }
        "#,
    );
    let code = codegen.generate();
    assert!(code.contains("inner: ArchivedInner"));
    assert!(code.contains("items: r.vec(ArchivedInner)"));
}

#[test]
fn test_extract_lib_uuid() {
    let mut codegen = CodeGenerator::new();
    codegen.add_source_str(
        r#"
            use rkyv::Archive;
            use uuid::Uuid;
            #[derive(Archive)]
            struct Record { id: Uuid, name: String }
        "#,
    );
    let code = codegen.generate();
    assert!(code.contains("import { uuid } from 'rkyv-js/lib/uuid';"));
    assert!(code.contains("id: uuid"));
}

#[test]
fn test_extract_lib_bytes() {
    let mut codegen = CodeGenerator::new();
    codegen.add_source_str(
        r#"
            use rkyv::Archive;
            use bytes::Bytes;
            #[derive(Archive)]
            struct Message { payload: Bytes }
        "#,
    );
    let code = codegen.generate();
    assert!(code.contains("import { bytes } from 'rkyv-js/lib/bytes';"));
    assert!(code.contains("payload: bytes"));
}

#[test]
fn test_extract_lib_smol_str() {
    let mut codegen = CodeGenerator::new();
    codegen.add_source_str(
        r#"
            use rkyv::Archive;
            use smol_str::SmolStr;
            #[derive(Archive)]
            struct Config { key: SmolStr }
        "#,
    );
    let code = codegen.generate();
    assert!(code.contains("key: r.string"));
}

#[test]
fn test_extract_lib_thin_vec() {
    let mut codegen = CodeGenerator::new();
    codegen.add_source_str(
        r#"
            use rkyv::Archive;
            use thin_vec::ThinVec;
            #[derive(Archive)]
            struct Data { items: ThinVec<u32> }
        "#,
    );
    let code = codegen.generate();
    assert!(code.contains("items: r.vec(r.u32)"));
}

#[test]
fn test_extract_lib_arrayvec() {
    let mut codegen = CodeGenerator::new();
    codegen.add_source_str(
        r#"
            use rkyv::Archive;
            use arrayvec::ArrayVec;
            #[derive(Archive)]
            struct Buffer { data: ArrayVec<u8, 64> }
        "#,
    );
    let code = codegen.generate();
    assert!(code.contains("data: r.vec(r.u8)"));
}

#[test]
fn test_extract_lib_smallvec() {
    let mut codegen = CodeGenerator::new();
    codegen.add_source_str(
        r#"
            use rkyv::Archive;
            use smallvec::SmallVec;
            #[derive(Archive)]
            struct Items { values: SmallVec<[u32; 4]> }
        "#,
    );
    let code = codegen.generate();
    assert!(code.contains("values: r.vec(r.u32)"));
}

#[test]
fn test_extract_lib_tinyvec() {
    let mut codegen = CodeGenerator::new();
    codegen.add_source_str(
        r#"
            use rkyv::Archive;
            use tinyvec::TinyVec;
            #[derive(Archive)]
            struct Stack { elements: TinyVec<[String; 8]> }
        "#,
    );
    let code = codegen.generate();
    assert!(code.contains("elements: r.vec(r.string)"));
}

#[test]
fn test_extract_lib_indexmap() {
    let mut codegen = CodeGenerator::new();
    codegen.add_source_str(
        r#"
            use rkyv::Archive;
            use indexmap::IndexMap;
            #[derive(Archive)]
            struct Config { settings: IndexMap<String, u32> }
        "#,
    );
    let code = codegen.generate();
    assert!(code.contains("import { indexMap } from 'rkyv-js/lib/indexmap';"));
    assert!(!code.contains("indexSet"));
    assert!(code.contains("settings: indexMap(r.string, r.u32)"));
}

#[test]
fn test_extract_lib_indexset() {
    let mut codegen = CodeGenerator::new();
    codegen.add_source_str(
        r#"
            use rkyv::Archive;
            use indexmap::IndexSet;
            #[derive(Archive)]
            struct Tags { items: IndexSet<String> }
        "#,
    );
    let code = codegen.generate();
    assert!(code.contains("import { indexSet } from 'rkyv-js/lib/indexmap';"));
    assert!(!code.contains("indexMap"));
    assert!(code.contains("items: indexSet(r.string)"));
}

#[test]
fn test_extract_lib_vec_deque() {
    let mut codegen = CodeGenerator::new();
    codegen.add_source_str(
        r#"
            use rkyv::Archive;
            use std::collections::VecDeque;
            #[derive(Archive)]
            struct Queue { items: VecDeque<u32> }
        "#,
    );
    let code = codegen.generate();
    assert!(code.contains("items: r.vec(r.u32)"));
}

#[test]
fn test_extract_lib_hash_set() {
    let mut codegen = CodeGenerator::new();
    codegen.add_source_str(
        r#"
            use rkyv::Archive;
            use std::collections::HashSet;
            #[derive(Archive)]
            struct UniqueItems { ids: HashSet<String> }
        "#,
    );
    let code = codegen.generate();
    assert!(code.contains("import { hashSet } from 'rkyv-js/lib/std-hash-set';"));
    assert!(code.contains("ids: hashSet(r.string)"));
}

#[test]
fn test_extract_lib_btree_set() {
    let mut codegen = CodeGenerator::new();
    codegen.add_source_str(
        r#"
            use rkyv::Archive;
            use std::collections::BTreeSet;
            #[derive(Archive)]
            struct SortedItems { values: BTreeSet<i64> }
        "#,
    );
    let code = codegen.generate();
    assert!(code.contains("import { btreeSet } from 'rkyv-js/lib/std-btree-set';"));
    assert!(code.contains("values: btreeSet(r.i64)"));
}

#[test]
fn test_extract_lib_arc() {
    let mut codegen = CodeGenerator::new();
    codegen.add_source_str(
        r#"
            use rkyv::Archive;
            use triomphe::Arc;
            #[derive(Archive)]
            struct Shared { config: Arc<String> }
        "#,
    );
    let code = codegen.generate();
    assert!(code.contains("config: r.arc(r.string)"));
}

#[test]
fn test_extract_lib_rc() {
    let mut codegen = CodeGenerator::new();
    codegen.add_source_str(
        r#"
            use rkyv::Archive;
            use std::rc::Rc;
            #[derive(Archive)]
            struct Shared { data: Rc<String> }
        "#,
    );
    let code = codegen.generate();
    assert!(code.contains("data: r.rc(r.string)"));
}

#[test]
fn test_extract_lib_weak() {
    let mut codegen = CodeGenerator::new();
    codegen.add_source_str(
        r#"
            use rkyv::Archive;
            use std::rc::Weak;
            #[derive(Archive)]
            struct MaybeShared { weak_ref: Weak<u32> }
        "#,
    );
    let code = codegen.generate();
    assert!(code.contains("weak_ref: r.rcWeak(r.u32)"));
}

#[test]
fn test_custom_registered_type() {
    let mut codegen = CodeGenerator::new();
    codegen.register_type(
        "my_crate::CustomVec",
        TypeMapping {
            codec_expr: "customVec({0})".to_string(),
            ts_type: "{0}[]".to_string(),
            import: Some(Import::new("my-package/codecs", "customVec")),
            generics: GenericShape::Single,
        },
    );
    codegen.add_source_str(
        r#"
            use rkyv::Archive;
            use my_crate::CustomVec;
            #[derive(Archive)]
            struct MyData { custom: CustomVec<u32> }
        "#,
    );
    let code = codegen.generate();
    assert!(code.contains("import { customVec } from 'my-package/codecs';"));
    assert!(code.contains("custom: customVec(r.u32)"));
}

#[test]
fn test_aliased_btreemap() {
    let mut codegen = CodeGenerator::new();
    codegen.add_source_str(
        r#"
            use rkyv::Archive;
            use std::collections::BTreeMap as MyMap;
            #[derive(Archive)]
            struct Config { data: MyMap<String, u32> }
        "#,
    );
    let code = codegen.generate();
    assert!(code.contains("import { btreeMap } from 'rkyv-js/lib/std-btree-map';"));
    assert!(code.contains("data: btreeMap(r.string, r.u32)"));
}

#[test]
fn test_aliased_hashmap() {
    let mut codegen = CodeGenerator::new();
    codegen.add_source_str(
        r#"
            use rkyv::Archive;
            use std::collections::HashMap as Map;
            #[derive(Archive)]
            struct Data { entries: Map<String, u64> }
        "#,
    );
    let code = codegen.generate();
    assert!(code.contains("import { hashMap } from 'rkyv-js/lib/std-hash-map';"));
    assert!(code.contains("entries: hashMap(r.string, r.u64)"));
}

#[test]
fn test_aliased_vec_as_list() {
    let mut codegen = CodeGenerator::new();
    codegen.add_source_str(
        r#"
            use rkyv::Archive;
            use std::vec::Vec as List;
            #[derive(Archive)]
            struct Data { items: List<u32> }
        "#,
    );
    let code = codegen.generate();
    assert!(code.contains("items: r.vec(r.u32)"));
}

#[test]
fn test_aliased_option() {
    let mut codegen = CodeGenerator::new();
    codegen.add_source_str(
        r#"
            use rkyv::Archive;
            use std::option::Option as Maybe;
            #[derive(Archive)]
            struct Data { value: Maybe<String> }
        "#,
    );
    let code = codegen.generate();
    assert!(code.contains("value: r.option(r.string)"));
}

#[test]
fn test_aliased_uuid() {
    let mut codegen = CodeGenerator::new();
    codegen.add_source_str(
        r#"
            use rkyv::Archive;
            use uuid::Uuid as Id;
            #[derive(Archive)]
            struct Record { id: Id }
        "#,
    );
    let code = codegen.generate();
    assert!(code.contains("import { uuid } from 'rkyv-js/lib/uuid';"));
    assert!(code.contains("id: uuid"));
}

#[test]
fn test_aliased_in_group_import() {
    let mut codegen = CodeGenerator::new();
    codegen.add_source_str(
        r#"
            use rkyv::Archive;
            use std::collections::{HashMap as Map, BTreeSet as SortedSet};
            #[derive(Archive)]
            struct Data { map: Map<String, u32>, set: SortedSet<String> }
        "#,
    );
    let code = codegen.generate();
    assert!(code.contains("map: hashMap(r.string, r.u32)"));
    assert!(code.contains("set: btreeSet(r.string)"));
}

#[test]
fn test_mixed_aliased_and_non_aliased() {
    let mut codegen = CodeGenerator::new();
    codegen.add_source_str(
        r#"
            use rkyv::Archive;
            use std::collections::{HashMap as Map, BTreeMap};
            #[derive(Archive)]
            struct Data { map: Map<String, u32>, tree: BTreeMap<String, u64> }
        "#,
    );
    let code = codegen.generate();
    assert!(code.contains("map: hashMap(r.string, r.u32)"));
    assert!(code.contains("tree: btreeMap(r.string, r.u64)"));
}

#[test]
fn test_remote_derive_skips_proxy_type() {
    let mut codegen = CodeGenerator::new();
    codegen.register_type(
        "chrono::NaiveDate",
        TypeMapping {
            codec_expr: "naiveDate".to_string(),
            ts_type: "string".to_string(),
            import: Some(Import::new("my-package/chrono", "naiveDate")),
            generics: GenericShape::NoArgs,
        },
    );
    codegen.add_source_str(
        r#"
            use rkyv::Archive;
            #[derive(Archive)]
            #[rkyv(remote = chrono::NaiveDate)]
            struct NaiveDateDef {
                year: i32,
                ordinal: u32,
            }
        "#,
    );
    let code = codegen.generate();
    // the proxy type must not appear in the output
    assert!(!code.contains("NaiveDateDef"));
    assert!(!code.contains("ArchivedNaiveDateDef"));
}

#[test]
fn test_remote_derive_referenced_by_other_type() {
    let mut codegen = CodeGenerator::new();
    codegen.register_type(
        "chrono::NaiveDate",
        TypeMapping {
            codec_expr: "naiveDate".to_string(),
            ts_type: "string".to_string(),
            import: Some(Import::new("my-package/chrono", "naiveDate")),
            generics: GenericShape::NoArgs,
        },
    );
    codegen.add_source_str(
        r#"
            use rkyv::Archive;
            use chrono::NaiveDate;
            #[derive(Archive)]
            #[rkyv(remote = chrono::NaiveDate)]
            struct NaiveDateDef {
                year: i32,
                ordinal: u32,
            }

            #[derive(Archive)]
            struct Event {
                name: String,
                date: NaiveDate,
            }
        "#,
    );
    let code = codegen.generate();
    // the proxy type is skipped
    assert!(!code.contains("NaiveDateDef"));
    // the other struct resolves the remote type via the registered codec
    assert!(code.contains("date: naiveDate"));
    assert!(code.contains("import { naiveDate } from 'my-package/chrono';"));
}

#[test]
fn test_remote_derive_with_other_rkyv_attrs() {
    // the remote target is detected even alongside other archive attributes
    let mut codegen = CodeGenerator::new();
    codegen.register_type(
        "external::Foo",
        TypeMapping {
            codec_expr: "foo".to_string(),
            ts_type: "string".to_string(),
            import: Some(Import::new("my-package/foo", "foo")),
            generics: GenericShape::NoArgs,
        },
    );
    codegen.add_source_str(
        r#"
            use rkyv::Archive;
            #[derive(Archive)]
            #[rkyv(compare(PartialEq), remote = external::Foo)]
            struct FooDef {
                value: u32,
            }
        "#,
    );
    let code = codegen.generate();
    assert!(!code.contains("FooDef"));
}

#[test]
fn test_remote_derive_unregistered_warns() {
    // when the remote target is not registered, the proxy is still skipped
    let mut codegen = CodeGenerator::new();
    codegen.add_source_str(
        r#"
            use rkyv::Archive;
            #[derive(Archive)]
            #[rkyv(remote = chrono::NaiveDate)]
            struct NaiveDateDef {
                year: i32,
                ordinal: u32,
            }
        "#,
    );
    let code = codegen.generate();
    assert!(!code.contains("NaiveDateDef"));
}

#[test]
fn test_non_remote_type_still_generated() {
    // declarations without a remote target are generated normally
    let mut codegen = CodeGenerator::new();
    codegen.add_source_str(
        r#"
            use rkyv::Archive;
            #[derive(Archive)]
            #[rkyv(compare(PartialEq), derive(Debug))]
            struct Normal {
                value: u32,
            }
        "#,
    );
    let code = codegen.generate();
    assert!(code.contains("ArchivedNormal"));
    assert!(code.contains("value: r.u32"));
}

#[test]
fn test_archived_rename_struct() {
    let mut codegen = CodeGenerator::new();
    codegen.add_source_str(
        r#"
            use rkyv::Archive;
            #[derive(Archive)]
            #[rkyv(archived = CustomPoint)]
            struct Point {
                x: f64,
                y: f64,
            }
        "#,
    );
    let code = codegen.generate();
    assert!(code.contains("export const CustomPoint = r.struct({"));
    assert!(code.contains("export type Point = r.Infer<typeof CustomPoint>;"));
    assert!(!code.contains("ArchivedPoint"));
}

#[test]
fn test_archived_rename_enum() {
    let mut codegen = CodeGenerator::new();
    codegen.add_source_str(
        r#"
            use rkyv::Archive;
            #[derive(Archive)]
            #[rkyv(archived = CustomMessage)]
            enum Message {
                Quit,
                Write(String),
            }
        "#,
    );
    let code = codegen.generate();
    assert!(code.contains("export const CustomMessage = r.taggedEnum({"));
    assert!(code.contains("export type Message = r.Infer<typeof CustomMessage>;"));
    assert!(!code.contains("ArchivedMessage"));
}

#[test]
fn test_archived_rename_cross_reference() {
    let mut codegen = CodeGenerator::new();
    codegen.add_source_str(
        r#"
            use rkyv::Archive;
            #[derive(Archive)]
            #[rkyv(archived = MyPoint)]
            struct Point {
                x: f64,
                y: f64,
            }

            #[derive(Archive)]
            struct Line {
                start: Point,
                end: Point,
            }
        "#,
    );
    let code = codegen.generate();
    // Point uses the custom archived name
    assert!(code.contains("export const MyPoint = r.struct({"));
    // Line references MyPoint instead of ArchivedPoint
    assert!(code.contains("start: MyPoint"));
    assert!(code.contains("end: MyPoint"));
    assert!(!code.contains("ArchivedPoint"));
}

#[test]
fn test_archived_rename_with_other_rkyv_attrs() {
    let mut codegen = CodeGenerator::new();
    codegen.add_source_str(
        r#"
            use rkyv::Archive;
            #[derive(Archive)]
            #[rkyv(compare(PartialEq), archived = APoint, derive(Debug))]
            struct Point {
                x: f64,
            }
        "#,
    );
    let code = codegen.generate();
    assert!(code.contains("export const APoint = r.struct({"));
    assert!(!code.contains("ArchivedPoint"));
}

#[test]
fn test_archived_rename_on_remote_derive() {
    // when both a remote target and a custom output name are present, the
    // declaration is still a skipped proxy
    let mut codegen = CodeGenerator::new();
    codegen.register_type(
        "external::Coord",
        TypeMapping {
            codec_expr: "Coord".to_string(),
            ts_type: "Coord".to_string(),
            import: None,
            generics: GenericShape::NoArgs,
        },
    );
    codegen.add_source_str(
        r#"
            use rkyv::Archive;
            #[derive(Archive)]
            #[rkyv(remote = external::Coord)]
            #[rkyv(archived = ArchivedCoord)]
            struct CoordDef {
                x: f32,
                y: f32,
            }
        "#,
    );
    let code = codegen.generate();
    assert!(!code.contains("CoordDef"));
    assert!(!code.contains("ArchivedCoord"));
}

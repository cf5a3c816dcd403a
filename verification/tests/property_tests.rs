use rkyv_js_codegen::registry::GenericShape;
use rkyv_js_codegen::registry::TypeMapping;
use rkyv_js_codegen::CodeGenerator;
use rkyv_js_codegen::ExternalType;
use rkyv_js_codegen::Import;
use rkyv_js_codegen::TypeDef;

// -- purity ---------------------------------------------------------

#[test]
fn generation_is_pure() {
    let mut codegen = CodeGenerator::new();
    codegen.add_struct("Inner", &[("value", TypeDef::U32)]);
    codegen.add_struct("Outer", &[("inner", TypeDef::Named("Inner".to_string()))]);
    let first = codegen.generate();
    let second = codegen.generate();
    assert_eq!(first, second);
}

#[test]
fn template_resolution_is_pure() {
    let template = TypeDef::External(ExternalType {
        codec_expr: "pair({0}, {1})".to_string(),
        ts_type: "[{0}, {1}]".to_string(),
        import: None,
        type_params: vec![TypeDef::U8, TypeDef::Text],
    });
    assert_eq!(template.to_codec_expr(), template.to_codec_expr());
    assert_eq!(template.to_codec_expr(), "pair(r.u8, r.string)");
    assert_eq!(template.to_ts_type(), "[number, string]");
}

// -- dependency ordering and cycle safety ---------------------------

#[test]
fn dependency_ordering_referenced_entry_first() {
    let mut codegen = CodeGenerator::new();
    // add the referencing entry first on purpose
    codegen.add_struct("Zebra", &[("home", TypeDef::Named("Habitat".to_string()))]);
    codegen.add_struct("Habitat", &[("area", TypeDef::U64)]);
    let code = codegen.generate();
    let habitat = code.find("export const ArchivedHabitat").unwrap();
    let zebra = code.find("export const ArchivedZebra").unwrap();
    assert!(habitat < zebra);
}

#[test]
fn cycle_completes_each_entry_once() {
    let mut codegen = CodeGenerator::new();
    codegen.add_struct("A", &[("b", TypeDef::Named("B".to_string()))]);
    codegen.add_struct("B", &[("a", TypeDef::Named("A".to_string()))]);
    let code = codegen.generate();
    assert_eq!(code.matches("export const ArchivedA = r.struct({").count(), 1);
    assert_eq!(code.matches("export const ArchivedB = r.struct({").count(), 1);
}

// -- override propagation -------------------------------------------

#[test]
fn override_set_after_both_entries() {
    let mut codegen = CodeGenerator::new();
    codegen.add_struct("B", &[("value", TypeDef::U32)]);
    codegen.add_struct("A", &[("b", TypeDef::Named("B".to_string()))]);
    // the override comes after both entries were added
    codegen.set_archived_name("B", "CustomB");
    let code = codegen.generate();
    assert!(code.contains("b: CustomB"));
    assert!(!code.contains("ArchivedB"));
}

// -- import merging --------------------------------------------------

#[test]
fn imports_merged_sorted_and_deduplicated() {
    let mut imports = Vec::new();
    imports.push(Import::new("lib/codecs", "zeta"));
    imports.push(Import::new("lib/codecs", "alpha"));
    imports.push(Import::new("lib/codecs", "alpha"));
    let block = rkyv_js_codegen::generate_imports(&imports);
    assert_eq!(block, "import { alpha, zeta } from 'lib/codecs';\n");
}

// -- the scenarios ---------------------------------------------------

#[test]
fn scenario_plain_struct() {
    let mut codegen = CodeGenerator::new();
    codegen.add_struct("Point", &[("x", TypeDef::F64), ("y", TypeDef::F64)]);
    let code = codegen.generate();
    assert!(code.contains("export const ArchivedPoint = r.struct({\n  x: r.f64,\n  y: r.f64,\n});"));
    assert!(code.contains("export type Point = r.Infer<typeof ArchivedPoint>;"));
}

#[test]
fn scenario_nested_structs_ordered() {
    let mut codegen = CodeGenerator::new();
    codegen.add_struct("Inner", &[("value", TypeDef::U32)]);
    codegen.add_struct("Outer", &[("inner", TypeDef::Named("Inner".to_string()))]);
    let code = codegen.generate();
    let inner = code.find("export const ArchivedInner").unwrap();
    let outer = code.find("export const ArchivedOuter").unwrap();
    assert!(inner < outer);
    assert!(code.contains("inner: ArchivedInner"));
}

#[test]
fn scenario_override_before_generation() {
    let mut codegen = CodeGenerator::new();
    codegen.add_struct("Inner", &[("value", TypeDef::U32)]);
    codegen.add_struct("Outer", &[("inner", TypeDef::Named("Inner".to_string()))]);
    codegen.set_archived_name("Inner", "CustomInner");
    let code = codegen.generate();
    assert!(code.contains("inner: CustomInner"));
    assert!(!code.contains("ArchivedInner"));
}

#[test]
fn scenario_remote_projection() {
    let mut codegen = CodeGenerator::new();
    codegen.register_type(
        "ext::Thing",
        TypeMapping {
            codec_expr: "thingCodec".to_string(),
            ts_type: "Thing".to_string(),
            import: Some(Import::new("ext-codecs", "thingCodec")),
            generics: GenericShape::NoArgs,
        },
    );
    codegen.add_source_str(
        r#"
            use rkyv::Archive;
            use ext::Thing;
            #[derive(Archive)]
            #[rkyv(remote = ext::Thing)]
            struct ThingDef { raw: u32 }

            #[derive(Archive)]
            struct Event { thing: Thing }
        "#,
    );
    let code = codegen.generate();
    // no block for the projection entry
    assert!(!code.contains("ThingDef"));
    // the field resolves through the registered template
    assert!(code.contains("thing: thingCodec"));
    assert!(code.contains("import { thingCodec } from 'ext-codecs';"));
}

#[test]
fn scenario_two_modules_one_line_each() {
    let mut codegen = CodeGenerator::new();
    codegen.register_type(
        "liba::Foo",
        TypeMapping {
            codec_expr: "fooCodec".to_string(),
            ts_type: "Foo".to_string(),
            import: Some(Import::new("lib/a", "fooCodec")),
            generics: GenericShape::NoArgs,
        },
    );
    codegen.register_type(
        "libb::Bar",
        TypeMapping {
            codec_expr: "barCodec".to_string(),
            ts_type: "Bar".to_string(),
            import: Some(Import::new("lib/b", "barCodec")),
            generics: GenericShape::NoArgs,
        },
    );
    codegen.add_source_str(
        r#"
            use rkyv::Archive;
            use liba::Foo;
            use libb::Bar;
            #[derive(Archive)]
            struct First { foo: Foo }
            #[derive(Archive)]
            struct Second { bar: Bar }
        "#,
    );
    let code = codegen.generate();
    assert!(code.contains("import { fooCodec } from 'lib/a';"));
    assert!(code.contains("import { barCodec } from 'lib/b';"));
    assert_eq!(code.matches("from 'lib/a'").count(), 1);
    assert_eq!(code.matches("from 'lib/b'").count(), 1);
}

// -- edge cases -------------------------------------------------------

#[test]
fn empty_generator_emits_header_and_runtime_import() {
    let codegen = CodeGenerator::new();
    let code = codegen.generate();
    assert!(code.contains("import * as r from 'rkyv-js';"));
    assert!(code.ends_with("\n"));
}

#[test]
fn re_adding_a_name_overwrites_the_entry() {
    let mut codegen = CodeGenerator::new();
    codegen.add_struct("Config", &[("old_field", TypeDef::U8)]);
    codegen.add_struct("Config", &[("new_field", TypeDef::U16)]);
    let code = codegen.generate();
    assert!(!code.contains("old_field"));
    assert!(code.contains("new_field: r.u16"));
    assert_eq!(code.matches("export const ArchivedConfig").count(), 1);
}

#[test]
fn unparsable_unit_is_skipped() {
    let mut codegen = CodeGenerator::new();
    codegen.add_struct("Kept", &[("v", TypeDef::U8)]);
    codegen.add_source_str("this is not a source unit $$$");
    let code = codegen.generate();
    assert!(code.contains("export const ArchivedKept"));
}

#[test]
fn array_length_is_rendered_in_decimal() {
    let arr = TypeDef::Array(Box::new(TypeDef::U8), 255);
    assert_eq!(arr.to_codec_expr(), "r.array(r.u8, 255)");
}

#[test]
fn too_few_template_arguments_leave_placeholders() {
    // the registry's sharp edge: fewer arguments than the arity leaves
    // unresolved placeholder text in the output
    let td = TypeDef::External(ExternalType {
        codec_expr: "pair({0}, {1})".to_string(),
        ts_type: "[{0}, {1}]".to_string(),
        import: None,
        type_params: vec![TypeDef::U8],
    });
    assert_eq!(td.to_codec_expr(), "pair(r.u8, {1})");
}

#[test]
fn extra_generic_arguments_are_discarded() {
    let mut codegen = CodeGenerator::new();
    codegen.add_source_str(
        r#"
            use rkyv::Archive;
            use smol_str::SmolStr;
            #[derive(Archive)]
            struct Weird { s: SmolStr }
        "#,
    );
    let code = codegen.generate();
    assert!(code.contains("s: r.string"));
}

#[test]
fn custom_marker_names() {
    let mut codegen = CodeGenerator::new();
    codegen.set_markers(&["my::Marker"]);
    codegen.add_source_str(
        r#"
            use my::Marker;
            use rkyv::Archive;
            #[derive(Marker)]
            struct Selected { v: u8 }
            #[derive(Archive)]
            struct Unselected { v: u8 }
        "#,
    );
    let code = codegen.generate();
    assert!(code.contains("ArchivedSelected"));
    assert!(!code.contains("ArchivedUnselected"));
}

#[test]
fn added_marker_extends_the_defaults() {
    let mut codegen = CodeGenerator::new();
    codegen.add_marker("extra::Tag");
    codegen.add_source_str(
        r#"
            use extra::Tag;
            use rkyv::Archive;
            #[derive(Tag)]
            struct Tagged { v: u8 }
            #[derive(Archive)]
            struct Marked { v: u8 }
        "#,
    );
    let code = codegen.generate();
    assert!(code.contains("ArchivedTagged"));
    assert!(code.contains("ArchivedMarked"));
}

#[test]
fn custom_header_is_rendered() {
    let mut codegen = CodeGenerator::new();
    codegen.set_header("my bindings\nsecond line");
    codegen.add_struct("Point", &[("x", TypeDef::F64)]);
    let code = codegen.generate();
    assert!(code.starts_with("/**\n * my bindings\n * second line\n */\n\n"));
}

#[test]
fn unregistered_builtin_falls_back_to_named_reference() {
    let mut codegen = CodeGenerator::new();
    codegen.unregister_type("Uuid");
    codegen.add_source_str(
        r#"
            use rkyv::Archive;
            use uuid::Uuid;
            #[derive(Archive)]
            struct Record { id: Uuid }
        "#,
    );
    let code = codegen.generate();
    // without the mapping, the field becomes a named reference
    assert!(code.contains("id: ArchivedUuid"));
}

#[test]
fn parse_source_returns_declarations() {
    // the parser boundary hands back real declaration data, not its input
    let unit = rkyv_js_codegen::parse_source(
        r#"
            use rkyv::Archive;
            #[derive(Archive)]
            struct Point { x: f64 }
        "#,
    );
    assert!(unit.is_some());
    assert!(rkyv_js_codegen::parse_source("not rust $$$").is_none());
    let mut codegen = CodeGenerator::new();
    codegen.add_unit(&unit.unwrap());
    let code = codegen.generate();
    assert!(code.contains("export const ArchivedPoint"));
}

#[test]
fn tuple_struct_fields_are_positional() {
    let mut codegen = CodeGenerator::new();
    codegen.add_source_str(
        r#"
            use rkyv::Archive;
            #[derive(Archive)]
            struct Pair(u8, String);
        "#,
    );
    let code = codegen.generate();
    assert!(code.contains("_0: r.u8"));
    assert!(code.contains("_1: r.string"));
}

#[test]
fn type_alias_resolves_to_registered_path() {
    let mut codegen = CodeGenerator::new();
    codegen.register_type(
        "chrono::NaiveDate",
        TypeMapping {
            codec_expr: "naiveDate".to_string(),
            ts_type: "string".to_string(),
            import: Some(Import::new("my-package/chrono", "naiveDate")),
            generics: GenericShape::NoArgs,
        },
    );
    codegen.add_source_str(
        r#"
            use rkyv::Archive;
            type Day = chrono::NaiveDate;
            #[derive(Archive)]
            struct Event { day: Day }
        "#,
    );
    let code = codegen.generate();
    assert!(code.contains("day: naiveDate"));
}

// -- diagnostics ------------------------------------------------------

#[test]
fn unregistered_remote_target_is_diagnosed() {
    let mut codegen = CodeGenerator::new();
    codegen.add_source_str(
        r#"
            use rkyv::Archive;
            #[derive(Archive)]
            #[rkyv(remote = chrono::NaiveDate)]
            struct NaiveDateDef { year: i32 }
        "#,
    );
    assert_eq!(codegen.diagnostics().len(), 1);
    assert_eq!(
        codegen.diagnostics()[0],
        "remote projection `NaiveDateDef` targets `chrono::NaiveDate`, which is not registered"
    );
}

#[test]
fn registered_remote_target_is_not_diagnosed() {
    let mut codegen = CodeGenerator::new();
    codegen.register_type(
        "chrono::NaiveDate",
        TypeMapping {
            codec_expr: "naiveDate".to_string(),
            ts_type: "string".to_string(),
            import: None,
            generics: GenericShape::NoArgs,
        },
    );
    codegen.add_source_str(
        r#"
            use rkyv::Archive;
            #[derive(Archive)]
            #[rkyv(remote = chrono::NaiveDate)]
            struct NaiveDateDef { year: i32 }
        "#,
    );
    assert_eq!(codegen.diagnostics().len(), 0);
}

#[test]
fn dropped_declaration_is_diagnosed() {
    let mut codegen = CodeGenerator::new();
    codegen.add_source_str(
        r#"
            use rkyv::Archive;
            #[derive(Archive)]
            struct Holder { callback: fn(u32) -> u32 }
        "#,
    );
    let code = codegen.generate();
    assert!(!code.contains("ArchivedHolder"));
    assert_eq!(codegen.diagnostics().len(), 1);
    assert_eq!(
        codegen.diagnostics()[0],
        "declaration `Holder` was dropped: a field or variant type could not be mapped"
    );
}

#[test]
fn parse_failure_is_diagnosed() {
    let mut codegen = CodeGenerator::new();
    codegen.add_source_str("not a source unit $$$");
    assert_eq!(codegen.diagnostics().len(), 1);
    assert_eq!(
        codegen.diagnostics()[0],
        "a source unit failed to parse and was skipped"
    );
}

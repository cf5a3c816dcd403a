use rkyv_js_codegen::CodeGenerator;
use rkyv_js_codegen::EnumVariant;
use rkyv_js_codegen::TypeDef;
use rkyv_js_codegen::UnionVariant;

#[test]
fn test_generate_simple_struct() {
    let mut codegen = CodeGenerator::new();
    codegen.add_struct("Point", &[("x", TypeDef::F64), ("y", TypeDef::F64)]);

    let code = codegen.generate();
    assert!(code.contains("import * as r from 'rkyv-js';\n"));
    assert!(code.contains("export const ArchivedPoint = r.struct({"));
    assert!(code.contains("x: r.f64"));
    assert!(code.contains("y: r.f64"));
    assert!(code.contains("export type Point = r.Infer<typeof ArchivedPoint>;"));
}

#[test]
fn test_generate_enum() {
    let mut codegen = CodeGenerator::new();
    codegen.add_enum(
        "Status",
        &[
            EnumVariant::Unit("Pending".to_string()),
            EnumVariant::Unit("Active".to_string()),
        ],
    );

    let code = codegen.generate();
    assert!(code.contains("export const ArchivedStatus = r.taggedEnum({"));
    assert!(code.contains("Pending: r.unit"));
    assert!(code.contains("Active: r.unit"));
    assert!(code.contains("export type Status = r.Infer<typeof ArchivedStatus>;"));
}

#[test]
fn test_generate_nested_types() {
    let mut codegen = CodeGenerator::new();
    codegen.add_struct(
        "Person",
        &[
            ("name", TypeDef::Text),
            ("age", TypeDef::U32),
            ("scores", TypeDef::List(Box::new(TypeDef::U32))),
            ("email", TypeDef::Optional(Box::new(TypeDef::Text))),
        ],
    );

    let code = codegen.generate();
    assert!(code.contains("name: r.string"));
    assert!(code.contains("age: r.u32"));
    assert!(code.contains("scores: r.vec(r.u32)"));
    assert!(code.contains("email: r.option(r.string)"));
}

#[test]
fn test_generate_union() {
    let mut codegen = CodeGenerator::new();
    codegen.add_union(
        "NumberUnion",
        &[
            UnionVariant::new("asU32", TypeDef::U32),
            UnionVariant::new("asF32", TypeDef::F32),
            UnionVariant::new("asBytes", TypeDef::Array(Box::new(TypeDef::U8), 4)),
        ],
    );

    let code = codegen.generate();
    assert!(code.contains("export interface NumberUnionVariants"));
    assert!(code.contains("asU32: number"));
    assert!(code.contains("asF32: number"));
    assert!(code.contains("asBytes: number[]"));
    assert!(code.contains("export const ArchivedNumberUnion = r.union("));
    assert!(code.contains("asU32: r.u32"));
}

#[test]
fn test_generate_enum_with_data() {
    let mut codegen = CodeGenerator::new();
    codegen.add_enum(
        "Message",
        &[
            EnumVariant::Unit("Quit".to_string()),
            EnumVariant::Struct(
                "Move".to_string(),
                vec![
                    ("x".to_string(), TypeDef::I32),
                    ("y".to_string(), TypeDef::I32),
                ],
            ),
            EnumVariant::Tuple("Write".to_string(), vec![TypeDef::Text]),
        ],
    );

    let code = codegen.generate();
    assert!(code.contains("Quit: r.unit"));
    assert!(code.contains("Move: r.struct({ x: r.i32, y: r.i32 })"));
    assert!(code.contains("Write: r.struct({ _0: r.string })"));
}

#[test]
fn test_set_archived_name_struct() {
    let mut codegen = CodeGenerator::new();
    codegen.add_struct("Foo", &[("x", TypeDef::U32)]);
    codegen.set_archived_name("Foo", "MyFoo");
    let code = codegen.generate();
    assert!(code.contains("export const MyFoo = r.struct({"));
    assert!(code.contains("export type Foo = r.Infer<typeof MyFoo>;"));
    assert!(!code.contains("ArchivedFoo"));
}

#[test]
fn test_set_archived_name_enum() {
    let mut codegen = CodeGenerator::new();
    codegen.add_enum("Status", &[EnumVariant::Unit("Active".to_string())]);
    codegen.set_archived_name("Status", "MyStatus");
    let code = codegen.generate();
    assert!(code.contains("export const MyStatus = r.taggedEnum({"));
    assert!(code.contains("export type Status = r.Infer<typeof MyStatus>;"));
    assert!(!code.contains("ArchivedStatus"));
}

#[test]
fn test_archived_name_cross_reference() {
    let mut codegen = CodeGenerator::new();
    codegen.add_struct("Inner", &[("value", TypeDef::U32)]);
    codegen.set_archived_name("Inner", "CustomInner");
    codegen.add_struct("Outer", &[("inner", TypeDef::Named("Inner".to_string()))]);
    let code = codegen.generate();
    // Inner should use the custom name
    assert!(code.contains("export const CustomInner = r.struct({"));
    // Outer should reference CustomInner, not ArchivedInner
    assert!(code.contains("inner: CustomInner"));
    assert!(!code.contains("ArchivedInner"));
}

#[test]
fn test_archived_name_default_when_not_set() {
    let mut codegen = CodeGenerator::new();
    codegen.add_struct("Point", &[("x", TypeDef::F64)]);
    // no set_archived_name call
    let code = codegen.generate();
    assert!(code.contains("export const ArchivedPoint = r.struct({"));
    assert!(code.contains("export type Point = r.Infer<typeof ArchivedPoint>;"));
}

#[test]
fn test_js_mode_struct_omits_type() {
    let mut codegen = CodeGenerator::new();
    codegen.allow_typescript_syntax(false);
    codegen.add_struct("Point", &[("x", TypeDef::F64), ("y", TypeDef::F64)]);
    let code = codegen.generate();
    assert!(code.contains("export const ArchivedPoint = r.struct({"));
    assert!(!code.contains("export type"));
    assert!(!code.contains("r.Infer"));
}

#[test]
fn test_js_mode_enum_omits_type() {
    let mut codegen = CodeGenerator::new();
    codegen.allow_typescript_syntax(false);
    codegen.add_enum(
        "Status",
        &[
            EnumVariant::Unit("Pending".to_string()),
            EnumVariant::Unit("Active".to_string()),
        ],
    );
    let code = codegen.generate();
    assert!(code.contains("export const ArchivedStatus = r.taggedEnum({"));
    assert!(!code.contains("export type"));
    assert!(!code.contains("r.Infer"));
}

#[test]
fn test_js_mode_union_omits_interface_and_type() {
    let mut codegen = CodeGenerator::new();
    codegen.allow_typescript_syntax(false);
    codegen.add_union(
        "NumberUnion",
        &[
            UnionVariant::new("asU32", TypeDef::U32),
            UnionVariant::new("asF32", TypeDef::F32),
        ],
    );
    let code = codegen.generate();
    assert!(code.contains("export const ArchivedNumberUnion = r.union("));
    assert!(!code.contains("export interface"));
    assert!(!code.contains("export type"));
    assert!(!code.contains("r.Infer"));
}

#[test]
fn test_js_mode_alias_omits_type() {
    let mut codegen = CodeGenerator::new();
    codegen.allow_typescript_syntax(false);
    codegen.add_alias("UserId", TypeDef::U32);
    let code = codegen.generate();
    assert!(code.contains("export const ArchivedUserId = r.u32;"));
    assert!(!code.contains("export type"));
}

#[test]
fn test_ts_mode_is_default() {
    let mut codegen = CodeGenerator::new();
    codegen.add_struct("Point", &[("x", TypeDef::F64)]);
    let code = codegen.generate();
    // the default includes the typed declarations
    assert!(code.contains("export type Point = r.Infer<typeof ArchivedPoint>;"));
}

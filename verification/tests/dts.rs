use napi_typedef::emit::{EXTERNAL_OBJECT, NO_DEFINITIONS, TYPE_DEF_HEADER};
use napi_typedef::{IntermidiateTypeDefFile, TypeDefKind, TypeDefLine, TOP_LEVEL_NAMESPACE};

fn line(kind: TypeDefKind, name: &str, def: &str) -> TypeDefLine {
    TypeDefLine {
        kind,
        name: name.to_string(),
        original_name: None,
        def: def.to_string(),
        doc_comment: None,
        namespace: None,
    }
}

fn within(namespace: &str, mut record: TypeDefLine) -> TypeDefLine {
    record.namespace = Some(namespace.to_string());
    record
}

fn dts(records: Vec<TypeDefLine>) -> String {
    let text = IntermidiateTypeDefFile::new(records).into_dts(false).unwrap();
    assert!(text.starts_with(EXTERNAL_OBJECT));
    text[EXTERNAL_OBJECT.len()..].to_string()
}

#[test]
fn the_fixed_texts_are_exact() {
    assert_eq!(
        TYPE_DEF_HEADER,
        "/* tslint:disable */\n/* eslint-disable */\n\n/* auto-generated by NAPI-RS */\n\n"
    );
    assert_eq!(
        EXTERNAL_OBJECT,
        r#"export class ExternalObject<T> {
  readonly '': {
    readonly '': unique symbol
    [K: symbol]: T
  }
}

"#
    );
    assert_eq!(TOP_LEVEL_NAMESPACE, "__TOP_LEVEL__");
}

#[test]
fn struct_with_impl_and_const() {
    let records = vec![
        line(TypeDefKind::Struct, "Foo", "a: number"),
        line(TypeDefKind::Impl, "Foo", "bar(): void"),
        line(TypeDefKind::Const, "X", "export const X = 1"),
    ];
    let text = IntermidiateTypeDefFile::new(records).into_dts(false).unwrap();
    let expected = format!(
        "{}{}{}",
        EXTERNAL_OBJECT,
        "export class Foo {\n  a: number\n  bar(): void\n}\n\n",
        "export const X = 1\n"
    );
    assert_eq!(text, expected);
}

#[test]
fn header_comes_first_when_asked_for() {
    let records = vec![line(TypeDefKind::Const, "X", "export const X = 1")];
    let text = IntermidiateTypeDefFile::new(records).into_dts(true).unwrap();
    let expected = format!("{}{}export const X = 1\n", TYPE_DEF_HEADER, EXTERNAL_OBJECT);
    assert_eq!(text, expected);
}

#[test]
fn no_records_is_an_error() {
    let empty = IntermidiateTypeDefFile::new(Vec::new());
    assert_eq!(empty.into_dts(false), Err(NO_DEFINITIONS.to_string()));
    let empty = IntermidiateTypeDefFile::new(Vec::new());
    assert_eq!(empty.into_dts(true), Err("No type definitions found".to_string()));
}

#[test]
fn file_order_does_not_matter_where_names_differ() {
    let a = vec![
        line(TypeDefKind::Const, "X", "export const X = 1"),
        line(TypeDefKind::Impl, "Foo", "bar(): void"),
        line(TypeDefKind::Fn, "f", "export function f(): void"),
        line(TypeDefKind::Struct, "Foo", "a: number"),
        line(TypeDefKind::Struct, "Bar", ""),
    ];
    let b = vec![
        line(TypeDefKind::Struct, "Bar", ""),
        line(TypeDefKind::Fn, "f", "export function f(): void"),
        line(TypeDefKind::Struct, "Foo", "a: number"),
        line(TypeDefKind::Const, "X", "export const X = 1"),
        line(TypeDefKind::Impl, "Foo", "bar(): void"),
    ];
    let expected = "export class Bar {\n\n}\n\n\
                    export class Foo {\n  a: number\n  bar(): void\n}\n\n\
                    export const X = 1\n\
                    export function f(): void\n";
    assert_eq!(dts(a), expected);
    assert_eq!(dts(b), expected);
}

#[test]
fn structs_come_first_and_names_ascend() {
    let records = vec![
        line(TypeDefKind::Fn, "b", "export function b(): void"),
        line(TypeDefKind::Enum, "A", "X = 0"),
        line(TypeDefKind::Struct, "Zed", "z: number"),
        line(TypeDefKind::Interface, "C", "c: string"),
        line(TypeDefKind::Struct, "Abc", "a: number"),
        line(TypeDefKind::Const, "a", "export const a = 1"),
    ];
    let expected = "export class Abc {\n  a: number\n}\n\n\
                    export class Zed {\n  z: number\n}\n\n\
                    export const enum A {\n  X = 0\n}\n\n\
                    export interface C {\n  c: string\n}\n\n\
                    export const a = 1\n\
                    export function b(): void\n";
    assert_eq!(dts(records), expected);
}

#[test]
fn impls_join_their_struct_in_file_order() {
    let records = vec![
        line(TypeDefKind::Impl, "Foo", "second(): void"),
        line(TypeDefKind::Struct, "Foo", "a: number"),
        line(TypeDefKind::Impl, "Foo", "first(): void"),
        line(TypeDefKind::Impl, "Foo", "third(): void"),
    ];
    let expected =
        "export class Foo {\n  a: number\n  second(): void\n  first(): void\n  third(): void\n}\n";
    assert_eq!(dts(records), expected);
}

#[test]
fn impl_of_a_struct_without_body_starts_the_body() {
    let records = vec![
        line(TypeDefKind::Struct, "Foo", ""),
        line(TypeDefKind::Impl, "Foo", "bar(): void"),
        line(TypeDefKind::Impl, "Foo", "baz(): void"),
    ];
    assert_eq!(dts(records), "export class Foo {\n  bar(): void\n  baz(): void\n}\n");
}

#[test]
fn alias_follows_the_class() {
    let mut record = line(TypeDefKind::Struct, "X", "a: number");
    record.original_name = Some("Y".to_string());
    let records = vec![record, line(TypeDefKind::Const, "c", "export const c = 1")];
    let expected =
        "export class X {\n  a: number\n}\nexport type Y = X\n\nexport const c = 1\n";
    assert_eq!(dts(records), expected);
}

#[test]
fn alias_is_left_out_where_the_names_agree() {
    let mut record = line(TypeDefKind::Struct, "X", "a: number");
    record.original_name = Some("X".to_string());
    let records = vec![record, line(TypeDefKind::Const, "c", "export const c = 1")];
    assert_eq!(dts(records), "export class X {\n  a: number\n}\n\nexport const c = 1\n");
}

#[test]
fn dangling_impl_leaves_no_trace() {
    let with = vec![
        line(TypeDefKind::Struct, "Foo", "a: number"),
        line(TypeDefKind::Impl, "Z", "gone(): void"),
        line(TypeDefKind::Const, "X", "export const X = 1"),
    ];
    let without = vec![
        line(TypeDefKind::Struct, "Foo", "a: number"),
        line(TypeDefKind::Const, "X", "export const X = 1"),
    ];
    assert_eq!(dts(with), dts(without));
}

#[test]
fn dangling_impl_alone_leaves_only_the_handle_type() {
    let records = vec![within("Ns", line(TypeDefKind::Impl, "Z", "gone(): void"))];
    let text = IntermidiateTypeDefFile::new(records).into_dts(false).unwrap();
    assert_eq!(text, EXTERNAL_OBJECT.trim_end_matches('\n').to_string() + "\n");
}

#[test]
fn impl_does_not_cross_namespaces() {
    let records = vec![
        within("a", line(TypeDefKind::Struct, "Foo", "x: number")),
        within("b", line(TypeDefKind::Impl, "Foo", "lost(): void")),
        line(TypeDefKind::Impl, "Foo", "lost_too(): void"),
    ];
    assert_eq!(dts(records), "export namespace a {\n  export class Foo {\n    x: number\n  }\n\n}\n");
}

#[test]
fn impl_finds_its_struct_inside_a_namespace() {
    let records = vec![
        within("a", line(TypeDefKind::Impl, "Foo", "bar(): void")),
        within("a", line(TypeDefKind::Struct, "Foo", "x: number")),
        line(TypeDefKind::Struct, "Foo", "y: number"),
    ];
    let expected = "export class Foo {\n  y: number\n}\n\n\
                    export namespace a {\n  export class Foo {\n    x: number\n    bar(): void\n  }\n\n}\n";
    assert_eq!(dts(records), expected);
}

#[test]
fn namespaces_are_wrapped_and_sorted_by_key() {
    let records = vec![
        line(TypeDefKind::Const, "A", "export const A = 1"),
        within("ns", line(TypeDefKind::Fn, "g", "export function g(): void")),
        within("Ns", line(TypeDefKind::Fn, "f", "export function f(): void")),
        within("Ns", line(TypeDefKind::Struct, "S", "s: number")),
    ];
    let expected = "export namespace Ns {\n  export class S {\n    s: number\n  }\n\n  export function f(): void\n}\n\
                    export const A = 1\n\
                    export namespace ns {\n  export function g(): void\n}\n";
    assert_eq!(dts(records), expected);
}

#[test]
fn the_sentinel_key_names_the_top_level() {
    let records = vec![
        within(TOP_LEVEL_NAMESPACE, line(TypeDefKind::Const, "B", "export const B = 2")),
        line(TypeDefKind::Const, "A", "export const A = 1"),
    ];
    assert_eq!(dts(records), "export const A = 1\nexport const B = 2\n");
}

#[test]
fn the_text_ends_in_one_line_feed() {
    let records = vec![line(TypeDefKind::Struct, "Foo", "a: number")];
    let text = IntermidiateTypeDefFile::new(records).into_dts(false).unwrap();
    assert_eq!(text, format!("{}export class Foo {{\n  a: number\n}}\n", EXTERNAL_OBJECT));
    let records = vec![line(TypeDefKind::Enum, "E", "A = 0,\nB = 1")];
    assert_eq!(dts(records), "export const enum E {\n  A = 0,\n  B = 1\n}\n");
    let records = vec![line(TypeDefKind::Const, "c", "export const c = 1\n\n\n")];
    assert_eq!(dts(records), "export const c = 1\n");
}

#[test]
fn doc_comments_come_before_the_declaration() {
    let mut record = line(TypeDefKind::Interface, "I", "a: number\nb(): {\nc: string\n}");
    record.doc_comment = Some("/**\n* An interface.\n*/\n".to_string());
    let records = vec![record, line(TypeDefKind::Const, "c", "export const c = 1")];
    let expected = "/**\n * An interface.\n */\nexport interface I {\n  a: number\n  b(): {\n    c: string\n  }\n}\n\nexport const c = 1\n";
    assert_eq!(dts(records), expected);
}

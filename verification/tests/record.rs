use napi_typedef::merge::{find_target, fold_into, merge_line};
use napi_typedef::object::{KeyCollectionMode, KeyConversion, KeyFilter};
use napi_typedef::policy::compare;
use std::cmp::Ordering;
use napi_typedef::sort::sort_lines;
use napi_typedef::sys::{napi_key_collection_mode, napi_key_conversion, napi_key_filter};
use napi_typedef::{NamespaceGroup, TypeDefKind, TypeDefLine};

fn line(kind: TypeDefKind, name: &str, def: &str) -> TypeDefLine {
    TypeDefLine {
        kind,
        name: name.to_string(),
        original_name: None,
        def: def.to_string(),
        doc_comment: None,
        namespace: None,
    }
}

fn within(namespace: &str, mut record: TypeDefLine) -> TypeDefLine {
    record.namespace = Some(namespace.to_string());
    record
}

fn names(lines: &[TypeDefLine]) -> Vec<(TypeDefKind, String, String)> {
    lines.iter().map(|l| (l.kind, l.name.clone(), l.def.clone())).collect()
}

#[test]
fn precedes_puts_structs_first() {
    let s = line(TypeDefKind::Struct, "Z", "");
    let t = line(TypeDefKind::Struct, "A", "");
    let f = line(TypeDefKind::Fn, "A", "");
    let g = line(TypeDefKind::Impl, "B", "");
    assert!(s.precedes(&f));
    assert!(!f.precedes(&s));
    assert!(t.precedes(&s));
    assert!(!s.precedes(&t));
    assert!(f.precedes(&g));
    assert!(!g.precedes(&f));
    assert!(!s.precedes(&s));
    assert!(!f.precedes(&line(TypeDefKind::Const, "A", "x")));
}

#[test]
fn sort_is_stable() {
    let input = vec![
        line(TypeDefKind::Impl, "A", "1"),
        line(TypeDefKind::Fn, "B", "2"),
        line(TypeDefKind::Const, "A", "3"),
        line(TypeDefKind::Struct, "B", "4"),
        line(TypeDefKind::Impl, "A", "5"),
        line(TypeDefKind::Struct, "A", "6"),
        line(TypeDefKind::Struct, "B", "7"),
    ];
    let mut expected = input.clone();
    expected.sort_by(|a, b| {
        let key = |l: &TypeDefLine| (l.kind != TypeDefKind::Struct, l.name.clone());
        key(a).cmp(&key(b))
    });
    let sorted = sort_lines(input);
    assert_eq!(sorted, expected);
    let defs: Vec<&str> = sorted.iter().map(|l| l.def.as_str()).collect();
    assert_eq!(defs, vec!["6", "4", "7", "1", "3", "5", "2"]);
}

#[test]
fn sort_of_nothing_is_nothing() {
    assert_eq!(sort_lines(Vec::new()), Vec::<TypeDefLine>::new());
}

#[test]
fn preprocess_groups_by_namespace_in_key_order() {
    let lines = vec![
        within("b", line(TypeDefKind::Struct, "S", "s")),
        line(TypeDefKind::Struct, "S", "top"),
        within("B", line(TypeDefKind::Fn, "f", "f")),
        within("b", line(TypeDefKind::Impl, "S", "m")),
        within("b", line(TypeDefKind::Const, "c", "c")),
        line(TypeDefKind::Impl, "S", "n"),
        within("B", line(TypeDefKind::Impl, "S", "dropped")),
    ];
    let groups = TypeDefLine::preprocess(lines);
    let keys: Vec<&str> = groups.iter().map(|g| g.namespace.as_str()).collect();
    assert_eq!(keys, vec!["B", "__TOP_LEVEL__", "b"]);
    assert_eq!(names(&groups[0].lines), vec![(TypeDefKind::Fn, "f".to_string(), "f".to_string())]);
    assert_eq!(
        names(&groups[1].lines),
        vec![(TypeDefKind::Struct, "S".to_string(), "top\nn".to_string())]
    );
    assert_eq!(
        names(&groups[2].lines),
        vec![
            (TypeDefKind::Struct, "S".to_string(), "s\nm".to_string()),
            (TypeDefKind::Const, "c".to_string(), "c".to_string()),
        ]
    );
}

#[test]
fn preprocess_drops_an_impl_that_comes_before_its_struct() {
    let lines = vec![
        line(TypeDefKind::Impl, "S", "early"),
        line(TypeDefKind::Struct, "S", "s"),
    ];
    let groups = TypeDefLine::preprocess(lines);
    assert_eq!(groups.len(), 1);
    assert_eq!(names(&groups[0].lines), vec![(TypeDefKind::Struct, "S".to_string(), "s".to_string())]);
}

#[test]
fn preprocess_folds_into_the_latest_struct_of_the_name() {
    let lines = vec![
        line(TypeDefKind::Struct, "S", "one"),
        line(TypeDefKind::Impl, "S", "a"),
        line(TypeDefKind::Struct, "S", "two"),
        line(TypeDefKind::Impl, "S", "b"),
    ];
    let groups = TypeDefLine::preprocess(lines);
    let defs: Vec<&str> = groups[0].lines.iter().map(|l| l.def.as_str()).collect();
    assert_eq!(defs, vec!["one\na", "two\nb"]);
}

#[test]
fn preprocess_of_nothing_is_nothing() {
    assert!(TypeDefLine::preprocess(Vec::new()).is_empty());
    let only_impl = vec![within("Ns", line(TypeDefKind::Impl, "S", "x"))];
    assert!(TypeDefLine::preprocess(only_impl).is_empty());
}

#[test]
fn merge_line_creates_a_group_at_its_rank() {
    let mut groups: Vec<NamespaceGroup> = Vec::new();
    merge_line(&mut groups, within("m", line(TypeDefKind::Fn, "f", "")));
    merge_line(&mut groups, within("a", line(TypeDefKind::Fn, "g", "")));
    merge_line(&mut groups, within("z", line(TypeDefKind::Fn, "h", "")));
    merge_line(&mut groups, within("m", line(TypeDefKind::Fn, "i", "")));
    let keys: Vec<&str> = groups.iter().map(|g| g.namespace.as_str()).collect();
    assert_eq!(keys, vec!["a", "m", "z"]);
    assert_eq!(groups[1].lines.len(), 2);
}

#[test]
fn find_target_is_the_last_struct_of_the_name() {
    let lines = vec![
        line(TypeDefKind::Struct, "S", ""),
        line(TypeDefKind::Struct, "T", ""),
        line(TypeDefKind::Struct, "S", ""),
        line(TypeDefKind::Fn, "S", ""),
        line(TypeDefKind::Enum, "U", ""),
    ];
    assert_eq!(find_target(&lines, &"S".to_string()), Some(2));
    assert_eq!(find_target(&lines, &"T".to_string()), Some(1));
    assert_eq!(find_target(&lines, &"U".to_string()), None);
    assert_eq!(find_target(&Vec::new(), &"S".to_string()), None);
}

#[test]
fn fold_into_joins_bodies_by_a_line_feed() {
    let mut target = line(TypeDefKind::Struct, "S", "");
    fold_into(&mut target, "a");
    assert_eq!(target.def, "a");
    fold_into(&mut target, "b");
    assert_eq!(target.def, "a\nb");
    fold_into(&mut target, "");
    assert_eq!(target.def, "a\nb\n");
}

#[test]
fn into_pretty_print_follows_the_templates() {
    let mut record = line(TypeDefKind::Struct, "X", "a: number");
    record.original_name = Some("Y".to_string());
    assert_eq!(
        record.into_pretty_print(0),
        "export class X {\n  a: number\n}\nexport type Y = X\n\n"
    );
    assert_eq!(
        line(TypeDefKind::Struct, "X", "a: number").into_pretty_print(2),
        "  export class X {\n    a: number\n  }\n\n"
    );
    assert_eq!(
        line(TypeDefKind::Interface, "I", "a: number").into_pretty_print(0),
        "export interface I {\n  a: number\n}\n\n"
    );
    assert_eq!(
        line(TypeDefKind::Enum, "E", "A = 0").into_pretty_print(0),
        "export const enum E {\n  A = 0\n}\n\n"
    );
    assert_eq!(
        line(TypeDefKind::Const, "c", "export const c: number").into_pretty_print(2),
        "  export const c: number\n"
    );
    assert_eq!(
        line(TypeDefKind::Fn, "f", "export function f(): void").into_pretty_print(0),
        "export function f(): void\n"
    );
    assert_eq!(line(TypeDefKind::Impl, "S", "m(): void").into_pretty_print(0), "m(): void\n");
    let mut documented = line(TypeDefKind::Fn, "f", "export function f(): void");
    documented.doc_comment = Some("/** Does f. */\n".to_string());
    assert_eq!(
        documented.into_pretty_print(0),
        "/** Does f. */\nexport function f(): void\n"
    );
}

#[test]
fn key_options_convert_to_their_tags_and_back() {
    assert_eq!(
        napi_key_collection_mode::from(KeyCollectionMode::IncludePrototypes),
        napi_key_collection_mode::napi_key_include_prototypes
    );
    assert_eq!(
        KeyCollectionMode::from(napi_key_collection_mode::napi_key_own_only),
        KeyCollectionMode::OwnOnly
    );
    assert_eq!(
        napi_key_conversion::from(KeyConversion::NumbersToStrings),
        napi_key_conversion::napi_key_numbers_to_strings
    );
    assert_eq!(
        KeyConversion::from(napi_key_conversion::napi_key_keep_numbers),
        KeyConversion::KeepNumbers
    );
    let pairs = [
        (KeyFilter::AllProperties, napi_key_filter::napi_key_all_properties),
        (KeyFilter::Writable, napi_key_filter::napi_key_writable),
        (KeyFilter::Enumerable, napi_key_filter::napi_key_enumerable),
        (KeyFilter::Configurable, napi_key_filter::napi_key_configurable),
        (KeyFilter::SkipStrings, napi_key_filter::napi_key_skip_strings),
        (KeyFilter::SkipSymbols, napi_key_filter::napi_key_skip_symbols),
    ];
    for (filter, tag) in pairs {
        assert_eq!(napi_key_filter::from(filter), tag);
        assert_eq!(KeyFilter::from(tag), filter);
    }
}

#[test]
fn compare_orders_structs_first_and_then_by_name() {
    let kinds = [
        TypeDefKind::Const,
        TypeDefKind::Fn,
        TypeDefKind::Struct,
        TypeDefKind::Impl,
        TypeDefKind::Enum,
        TypeDefKind::Interface,
    ];
    let names = ["", "A", "B", "a", "ab", "\u{e9}"];
    for ka in kinds {
        for na in names {
            for kb in kinds {
                for nb in names {
                    let a = line(ka, na, "x");
                    let b = line(kb, nb, "y");
                    let expected = match (ka == TypeDefKind::Struct, kb == TypeDefKind::Struct) {
                        (true, false) => Ordering::Less,
                        (false, true) => Ordering::Greater,
                        _ => na.cmp(nb),
                    };
                    assert_eq!(compare(&a, &b), expected);
                    assert_eq!(a.precedes(&b), expected == Ordering::Less);
                }
            }
        }
    }
    let s = line(TypeDefKind::Struct, "Z", "");
    let f = line(TypeDefKind::Fn, "A", "");
    assert_eq!(compare(&s, &f), Ordering::Less);
    assert_eq!(compare(&f, &s), Ordering::Greater);
    assert_eq!(compare(&f, &line(TypeDefKind::Const, "A", "other")), Ordering::Equal);
}

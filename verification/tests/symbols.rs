use cargo_impact::cfg::FeatureSet;
use cargo_impact::symbols::{top_level_symbols, SymbolKind};

#[test]
fn tags_each_item_with_kind() {
    let f = String::from(
        "pub fn foo() {}\n\
         struct Bar;\n\
         enum Baz { A, B }\n\
         trait Quux {}\n",
    );
    let syms = top_level_symbols(&f, &FeatureSet::Permissive).unwrap();
    let by_name: std::collections::HashMap<_, _> =
        syms.iter().map(|s| (s.name.as_str(), s.kind)).collect();
    assert_eq!(by_name["foo"], SymbolKind::Fn);
    assert_eq!(by_name["Bar"], SymbolKind::Struct);
    assert_eq!(by_name["Baz"], SymbolKind::Enum);
    assert_eq!(by_name["Quux"], SymbolKind::Trait);
}

#[test]
fn descends_into_inline_modules() {
    let f =
        String::from("mod outer {\n    pub fn inner_fn() {}\n    pub struct InnerStruct;\n}\n");
    let syms = top_level_symbols(&f, &FeatureSet::Permissive).unwrap();
    let names: Vec<_> = syms.iter().map(|s| s.name.clone()).collect();
    assert!(names.iter().any(|n| n == "outer"));
    assert!(names.iter().any(|n| n == "inner_fn"));
    assert!(names.iter().any(|n| n == "InnerStruct"));
}

#[test]
fn rejects_unparseable_source() {
    let f = String::from("this is not valid rust !!!");
    assert!(top_level_symbols(&f, &FeatureSet::Permissive).is_none());
}

use cargo_impact::cfg::FeatureSet;
use cargo_impact::diff::{diff_file, ChangedItem, ItemChange};
use cargo_impact::names::NameSet;

fn versions<'a>(head: &'a str, wt: Option<&'a str>) -> (&'a str, Option<&'a str>) {
    (head, wt)
}

fn names(items: &[ChangedItem]) -> Vec<(&str, ItemChange)> {
    items.iter().map(|i| (i.name.as_str(), i.change)).collect()
}

#[test]
fn detects_added_item() {
    let (head, wt) = versions(
        "fn stable() {}\n",
        Some("fn stable() {}\nfn fresh() { 1 + 1; }\n"),
    );
    let items = diff_file(wt, Some(head), &FeatureSet::Permissive).unwrap();
    assert_eq!(names(&items), vec![("fresh", ItemChange::Added)]);
}

#[test]
fn detects_removed_item() {
    let (head, wt) = versions("fn stable() {}\nfn gone() {}\n", Some("fn stable() {}\n"));
    let items = diff_file(wt, Some(head), &FeatureSet::Permissive).unwrap();
    assert_eq!(names(&items), vec![("gone", ItemChange::Removed)]);
}

#[test]
fn detects_modified_item() {
    let (head, wt) = versions(
        "fn stable() {}\nfn changed() { 1; }\n",
        Some("fn stable() {}\nfn changed() { 2; }\n"),
    );
    let items = diff_file(wt, Some(head), &FeatureSet::Permissive).unwrap();
    assert_eq!(names(&items), vec![("changed", ItemChange::Modified)]);
}

#[test]
fn same_named_items_in_different_modules_do_not_collide() {
    let (head, wt) = versions(
        "mod a { pub trait Greeter { fn hi(&self) -> u32; } }\n\
         mod b { pub trait Greeter { fn hi(&self) -> u32; } }\n",
        Some(
            "mod a { pub trait Greeter { fn hi(&self) -> String; } }\n\
             mod b { pub trait Greeter { fn hi(&self) -> u32; } }\n",
        ),
    );
    let items = diff_file(wt, Some(head), &FeatureSet::Permissive).unwrap();
    assert!(
        names(&items)
            .iter()
            .any(|(name, change)| *name == "Greeter" && *change == ItemChange::Modified),
        "expected the changed nested trait to survive alongside same-named siblings: {items:?}"
    );
}

#[test]
fn deleted_file_marks_all_previous_items_removed() {
    let (head, wt) = versions("fn gone() {}\nstruct Removed;\n", None);

    let items = diff_file(wt, Some(head), &FeatureSet::Permissive).unwrap();
    let got = names(&items);
    assert!(got.contains(&("gone", ItemChange::Removed)));
    assert!(got.contains(&("Removed", ItemChange::Removed)));
}

#[test]
fn identical_files_produce_empty_diff() {
    let body = "fn a() {}\nfn b() {}\n";
    let (head, wt) = versions(body, Some(body));
    let items = diff_file(wt, Some(head), &FeatureSet::Permissive).unwrap();
    assert!(items.is_empty());
}

#[test]
fn new_file_with_no_head_version_marks_everything_added() {
    let wt = Some("fn hello() {}\nstruct S;\n");

    let items = diff_file(wt, None, &FeatureSet::Permissive).unwrap();
    let names: Vec<_> = names(&items);
    assert!(names.contains(&("hello", ItemChange::Added)));
    assert!(names.contains(&("S", ItemChange::Added)));
}

#[test]
fn unreadable_working_tree_returns_none() {
    let result = diff_file(None, None, &FeatureSet::Permissive);
    assert!(result.is_none(), "expected None for unreadable WT file");
}

#[test]
fn unparseable_file_returns_none_so_caller_can_fall_back() {
    let (head, wt) = versions("fn a() {}\n", Some("!! not rust !!"));
    let result = diff_file(wt, Some(head), &FeatureSet::Permissive);
    assert!(
        result.is_none(),
        "expected None when WT is not valid Rust so caller falls back"
    );
}

#[test]
fn changes_stand_in_order_of_their_names() {
    let items = diff_file(
        Some("fn zeta() {}\nfn beta() { 1; }\n"),
        Some("fn beta() {}\nfn alpha() {}\n"),
        &FeatureSet::Permissive,
    )
    .unwrap();
    assert_eq!(
        names(&items),
        vec![
            ("alpha", ItemChange::Removed),
            ("beta", ItemChange::Modified),
            ("zeta", ItemChange::Added),
        ]
    );
}

#[test]
fn inactive_items_are_no_change() {
    let none = FeatureSet::Exact(NameSet::new());
    let items = diff_file(
        Some("#[cfg(feature = \"x\")] fn gated() { 2; }\n"),
        Some("#[cfg(feature = \"x\")] fn gated() {}\n"),
        &none,
    )
    .unwrap();
    assert!(items.is_empty());
}

#[test]
fn a_version_that_does_not_parse_is_all_gone_when_the_other_is_missing() {
    assert_eq!(diff_file(Some("fn ("), None, &FeatureSet::Permissive), Some(vec![]));
    assert_eq!(diff_file(None, Some("fn ("), &FeatureSet::Permissive), Some(vec![]));
}

#[test]
fn comparing_backwards_exchanges_added_and_removed() {
    let a = "fn one() {}\nmod m { fn two() { 1; } fn gone() {} }\n";
    let b = "fn one() {}\nmod m { fn two() { 2; } fn fresh() {} }\n";
    let there = diff_file(Some(b), Some(a), &FeatureSet::Permissive).unwrap();
    let back = diff_file(Some(a), Some(b), &FeatureSet::Permissive).unwrap();
    assert_eq!(
        names(&there),
        vec![
            ("fresh", ItemChange::Added),
            ("gone", ItemChange::Removed),
            ("m", ItemChange::Modified),
            ("two", ItemChange::Modified),
        ]
    );
    assert_eq!(
        names(&back),
        vec![
            ("fresh", ItemChange::Removed),
            ("gone", ItemChange::Added),
            ("m", ItemChange::Modified),
            ("two", ItemChange::Modified),
        ]
    );
}

#[test]
fn an_added_file_is_a_removed_one_the_other_way() {
    let src = "fn one() {}\nmod m { fn two() {} }\n";
    let there = diff_file(Some(src), None, &FeatureSet::Permissive).unwrap();
    let back = diff_file(None, Some(src), &FeatureSet::Permissive).unwrap();
    assert_eq!(there.len(), 3);
    assert!(there.iter().all(|i| i.change == ItemChange::Added));
    assert!(back.iter().all(|i| i.change == ItemChange::Removed));
    assert_eq!(
        there.iter().map(|i| &i.name).collect::<Vec<_>>(),
        back.iter().map(|i| &i.name).collect::<Vec<_>>()
    );
}

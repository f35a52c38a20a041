use cargo_impact::git::{changed_rust_files, show_spec, tree_path};

#[test]
fn member_root_paths_are_returned_relative_to_member() {
    let files = changed_rust_files("member/\n", "member/src/lib.rs\n", "", "member/src/lib.rs\n", "");
    assert_eq!(files, vec!["src/lib.rs"]);
}

#[test]
fn deleted_rust_files_are_kept() {
    let files = changed_rust_files("\n", "lib.rs\n", "", "lib.rs\n", "");
    assert_eq!(files, vec!["lib.rs"]);
}

#[test]
fn untracked_rust_files_are_kept() {
    let files = changed_rust_files("\n", "", "", "", "new.rs\n");
    assert_eq!(files, vec!["new.rs"]);
}

#[test]
fn member_root_untracked_paths_are_returned_relative_to_member() {
    let files = changed_rust_files("member/\n", "", "", "", "member/src/new.rs\n");
    assert_eq!(files, vec!["src/new.rs"]);
}

#[test]
fn show_file_at_readds_member_prefix() {
    assert_eq!(tree_path("member/\n", "src/lib.rs"), "member/src/lib.rs");
    assert_eq!(show_spec("HEAD", "member/\n", "src/lib.rs"), "HEAD:member/src/lib.rs");
    assert_eq!(show_spec("main", "", "src\\lib.rs"), "main:src/lib.rs");
}

#[test]
fn files_are_listed_once_in_path_order() {
    let files = changed_rust_files(
        "",
        "src/z.rs\nREADME.md\nsrc/a/b.rs\n",
        "src/z.rs\n",
        "src/a.rs\n\nbuild.rs\n",
        ".rs\nsrc//z.rs\n",
    );
    assert_eq!(files, vec!["build.rs", "src/a/b.rs", "src/a.rs", "src/z.rs"]);
}

#[test]
fn files_outside_the_prefix_are_left_out() {
    let files = changed_rust_files("a/b", "a/b/c.rs\na/bc.rs\nx.rs\n", "", "", "");
    assert_eq!(files, vec!["c.rs"]);
}

use cargo_impact::adapters::find_runtime_surfaces;
use cargo_impact::cfg::FeatureSet;
use cargo_impact::finding::{Finding, FindingKind, SeverityClass, Tier};
use cargo_impact::names::NameSet;
use cargo_impact::symbols::SourceFile;

fn files(list: &[(&str, &str)]) -> Vec<SourceFile> {
    list.iter()
        .map(|(path, text)| SourceFile { path: path.to_string(), text: text.to_string() })
        .collect()
}

fn syms(list: &[&str]) -> NameSet {
    let list: Vec<String> = list.iter().map(|s| s.to_string()).collect();
    NameSet::from_names(&list)
}

fn payloads(findings: &[Finding]) -> Vec<(String, String)> {
    findings
        .iter()
        .filter_map(|f| match &f.kind {
            FindingKind::RuntimeSurface { framework, identifier, .. } => {
                Some((framework.clone(), identifier.clone()))
            }
            _ => None,
        })
        .collect()
}

#[test]
fn axum_route_with_changed_handler_fires() {
    let dir = files(&[(
        "src/lib.rs",
        r#"
            use axum::{Router, routing::get};
            fn build() -> Router {
                Router::new().route("/api/user", get(get_user))
            }
            async fn get_user() -> &'static str { "hi" }
        "#,
    )]);
    let hits = find_runtime_surfaces(&dir, &syms(&["get_user"]), &FeatureSet::Permissive);
    let pairs = payloads(&hits);
    assert!(
        pairs
            .iter()
            .any(|(fw, id)| fw == "axum" && id.contains("/api/user")),
        "expected axum route for /api/user; got {pairs:?}"
    );
}

#[test]
fn axum_nest_fires_when_nested_router_changed() {
    let dir = files(&[(
        "src/lib.rs",
        r#"
            use axum::Router;
            fn build(api: Router) -> Router {
                Router::new().nest("/v1", api)
            }
        "#,
    )]);
    // `api` isn't the changed symbol, but if the token stream of the
    // nest call references a changed ident, we fire. Use a
    // realistic example: calling a helper by name.
    let dir2 = files(&[(
        "src/lib.rs",
        r#"
            use axum::Router;
            fn build() -> Router {
                Router::new().nest("/v1", build_api())
            }
            fn build_api() -> Router { Router::new() }
        "#,
    )]);
    let _ = dir;
    let hits = find_runtime_surfaces(&dir2, &syms(&["build_api"]), &FeatureSet::Permissive);
    let pairs = payloads(&hits);
    assert!(pairs.iter().any(|(fw, _)| fw == "axum"));
}

#[test]
fn axum_ignores_routes_referencing_unrelated_symbols() {
    let dir = files(&[(
        "src/lib.rs",
        r#"
            use axum::{Router, routing::get};
            fn build() -> Router {
                Router::new().route("/health", get(health))
            }
            async fn health() -> &'static str { "ok" }
        "#,
    )]);
    let hits = find_runtime_surfaces(&dir, &syms(&["get_user"]), &FeatureSet::Permissive);
    assert!(hits.is_empty(), "no route mentions get_user; got {hits:?}");
}

#[test]
fn axum_avoids_substring_false_positives() {
    let dir = files(&[(
        "src/lib.rs",
        r#"
            use axum::{Router, routing::get};
            fn build() -> Router {
                Router::new().route("/x", get(get_user_helper))
            }
            async fn get_user_helper() -> &'static str { "hi" }
        "#,
    )]);
    let hits = find_runtime_surfaces(&dir, &syms(&["get_user"]), &FeatureSet::Permissive);
    assert!(hits.is_empty(), "get_user must not match get_user_helper");
}

// --- clap ---

#[test]
fn clap_parser_on_struct_fires_when_struct_name_changed() {
    let dir = files(&[(
        "src/lib.rs",
        r#"
            #[derive(clap::Parser)]
            pub struct Cli {
                #[arg(long)]
                pub verbose: bool,
            }
        "#,
    )]);
    let hits = find_runtime_surfaces(&dir, &syms(&["Cli"]), &FeatureSet::Permissive);
    let pairs = payloads(&hits);
    assert!(
        pairs
            .iter()
            .any(|(fw, id)| fw == "clap" && id.contains("Cli")),
        "expected clap Parser for Cli; got {pairs:?}"
    );
}

#[test]
fn clap_subcommand_enum_fires_when_variant_field_changed() {
    let dir = files(&[(
        "src/lib.rs",
        r#"
            #[derive(clap::Subcommand)]
            pub enum Cmd {
                Run { target: TargetConfig },
            }
            pub struct TargetConfig;
        "#,
    )]);
    let hits = find_runtime_surfaces(&dir, &syms(&["TargetConfig"]), &FeatureSet::Permissive);
    let pairs = payloads(&hits);
    assert!(
        pairs
            .iter()
            .any(|(fw, id)| fw == "clap" && id.contains("Cmd")),
        "expected clap Subcommand for Cmd; got {pairs:?}"
    );
}

#[test]
fn clap_args_derive_covered() {
    let dir = files(&[(
        "src/lib.rs",
        r#"
            #[derive(clap::Args)]
            pub struct ServeOpts {
                #[arg(long)]
                pub port: u16,
            }
        "#,
    )]);
    let hits = find_runtime_surfaces(&dir, &syms(&["ServeOpts"]), &FeatureSet::Permissive);
    assert!(hits.iter().any(|f| matches!(&f.kind, FindingKind::RuntimeSurface { framework, .. } if framework == "clap")));
}

#[test]
fn clap_ignores_structs_without_clap_derives() {
    let dir = files(&[(
        "src/lib.rs",
        r#"
            #[derive(Debug, Clone)]
            pub struct Cli {
                pub verbose: bool,
            }
        "#,
    )]);
    let hits = find_runtime_surfaces(&dir, &syms(&["Cli"]), &FeatureSet::Permissive);
    assert!(
        hits.is_empty(),
        "plain derives shouldn't fire; got {hits:?}"
    );
}

#[test]
fn adapters_empty_changed_set_returns_empty() {
    let dir = files(&[(
        "src/lib.rs",
        r#"
            #[derive(clap::Parser)]
            pub struct Cli { #[arg(long)] pub x: u32 }
        "#,
    )]);
    let hits = find_runtime_surfaces(&dir, &syms(&[]), &FeatureSet::Permissive);
    assert!(hits.is_empty());
}

#[test]
fn finding_severity_is_high() {
    let dir = files(&[(
        "src/lib.rs",
        r#"
            #[derive(clap::Parser)]
            pub struct Cli { pub verbose: bool }
        "#,
    )]);
    let hits = find_runtime_surfaces(&dir, &syms(&["Cli"]), &FeatureSet::Permissive);
    assert_eq!(hits[0].severity, SeverityClass::High);
    assert_eq!(hits[0].tier, Tier::Likely);
}

#[test]
fn routes_in_attributes_of_files_and_modules_are_met_in_order() {
    let dir = files(&[(
        "src/lib.rs",
        "#![x = router.route(\"/a\", login)]\n\
         #[y = router.nest(\"/b\", login)]\n\
         mod m {\n\
             #![z = router.route(\"/c\", login)]\n\
             fn f() { router.route(\"/d\", login); }\n\
         }\n\
         #[w = router.route(\"/e\", login)]\n\
         fn g() {}\n",
    )]);
    let hits = find_runtime_surfaces(&dir, &syms(&["login"]), &FeatureSet::Permissive);
    let ids: Vec<String> = payloads(&hits).into_iter().map(|p| p.1).collect();
    assert_eq!(ids, vec!["route `/a`", "nest `/b`", "route `/c`", "route `/d`", "route `/e`"]);
}

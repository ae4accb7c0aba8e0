use wire_build::ast::{TypeShape, UseTree};
use wire_build::decl::Inject;
use wire_build::module::{parse_file_path, parse_use_tree, ModuleContext, UseEntry};
use wire_build::is_absolute_path;
use wire_build::text::{join_segments, last_segment, rfind_char, split_on, strip_extension};

fn strings(parts: &[&str]) -> Vec<String> {
    parts.iter().map(|s| s.to_string()).collect()
}

fn context(mods: &[&str], uses: &[(&str, &[&str])]) -> ModuleContext {
    let mut m = ModuleContext::new(strings(mods));
    m.uses = uses
        .iter()
        .map(|(alias, path)| UseEntry { alias: alias.to_string(), path: strings(path) })
        .collect();
    m
}

#[test]
fn absolute_paths_recognized() {
    assert!(is_absolute_path(&strings(&["crate", "a", "B"])));
    assert!(is_absolute_path(&strings(&["", "std", "sync"])));
    assert!(!is_absolute_path(&strings(&["a", "B"])));
    assert!(!is_absolute_path(&strings(&[])));
}

/// An anchored reference is returned as written.
#[test]
fn resolve_keeps_anchored_reference() {
    let m = context(&["crate", "api"], &[]);
    assert_eq!(m.resolve_abs_path_type(&strings(&["crate", "db", "Pool"])), "crate::db::Pool");
}

/// A reference through an import alias splices onto the alias's prefix,
/// dropping the alias's own trailing segment.
#[test]
fn resolve_splices_import_alias() {
    let m = context(&["crate", "api"], &[("Pool", &["crate", "db", "Pool"])]);
    assert_eq!(m.resolve_abs_path_type(&strings(&["Pool"])), "crate::db::Pool");
    let m2 = context(&["crate", "api"], &[("db", &["crate", "db"])]);
    assert_eq!(m2.resolve_abs_path_type(&strings(&["db", "Pool"])), "crate::db::Pool");
}

/// A multi-segment reference with no matching alias is assumed already
/// qualified.
#[test]
fn resolve_assumes_qualified_multi_segment() {
    let m = context(&["crate", "api"], &[]);
    assert_eq!(m.resolve_abs_path_type(&strings(&["db", "Pool"])), "db::Pool");
}

/// A single unmapped segment is assumed declared in the referencing module.
#[test]
fn resolve_assumes_local_single_segment() {
    let m = context(&["crate", "api"], &[]);
    assert_eq!(m.resolve_abs_path_type(&strings(&["Pool"])), "crate::api::Pool");
}

#[test]
fn module_path_joins_segments() {
    let m = context(&["crate", "account", "api"], &[]);
    assert_eq!(m.mods_path(), "crate::account::api");
    assert_eq!(m.abs_struct_or_trait_type("Server".to_string()), "crate::account::api::Server");
}

/// Grouped and renamed imports contribute one entry per leaf, with the
/// rename as the alias of the old name's path.
#[test]
fn use_tree_groups_and_renames() {
    let tree = UseTree::Path {
        ident: "crate".to_string(),
        tree: Box::new(UseTree::Path {
            ident: "db".to_string(),
            tree: Box::new(UseTree::Group {
                items: vec![
                    UseTree::Name { ident: "Pool".to_string() },
                    UseTree::Rename { ident: "Conn".to_string(), rename: "Db".to_string() },
                ],
            }),
        }),
    };
    let entries = parse_use_tree(&tree, Vec::new());
    assert_eq!(entries.len(), 2);
    assert_eq!(entries[0].alias, "Pool");
    assert_eq!(entries[0].path, strings(&["crate", "db", "Pool"]));
    assert_eq!(entries[1].alias, "Db");
    assert_eq!(entries[1].path, strings(&["crate", "db", "Conn"]));
}

/// An ownership wrapper is unwrapped to the inner referenced type; the
/// wrapper's resolved path is kept.
#[test]
fn field_type_unwraps_shared_ownership() {
    let m = context(&["crate", "api"], &[]);
    let ty = TypeShape::Path {
        segments: strings(&["std", "sync", "Arc"]),
        arg: Some(Box::new(TypeShape::Path { segments: strings(&["Hasher"]), arg: None })),
    };
    let inject = Inject {
        trait_object: false,
        wrapper_type: None,
        struct_type: String::new(),
        manual: false,
    };
    let got = m.parse_inject_field_type(inject, &ty).expect("a recognized shape");
    assert_eq!(got.wrapper_type.as_deref(), Some("std::sync::Arc"));
    assert_eq!(got.struct_type, "crate::api::Hasher");
    assert!(!got.trait_object);
}

/// A trait object resolves its first named bound as a capability
/// reference.
#[test]
fn field_type_reads_trait_object_bound() {
    let m = context(&["crate", "api"], &[("PasswordHasher", &[
        "crate",
        "domain",
        "PasswordHasher",
    ])]);
    let ty = TypeShape::TraitObject { bound: Some(strings(&["PasswordHasher"])) };
    let inject = Inject {
        trait_object: false,
        wrapper_type: None,
        struct_type: String::new(),
        manual: false,
    };
    let got = m.parse_inject_field_type(inject, &ty).expect("a recognized shape");
    assert!(got.trait_object);
    assert_eq!(got.struct_type, "crate::domain::PasswordHasher");
}

/// A wrapper without an inner type argument, a trait object without a named
/// bound, and an unrecognized shape all yield no request.
#[test]
fn field_type_rejects_unrecognized_shapes() {
    let m = context(&["crate", "api"], &[]);
    let inject = || Inject {
        trait_object: false,
        wrapper_type: None,
        struct_type: String::new(),
        manual: false,
    };
    let bare_arc = TypeShape::Path { segments: strings(&["Arc"]), arg: None };
    assert!(m.parse_inject_field_type(inject(), &bare_arc).is_none());
    let no_bound = TypeShape::TraitObject { bound: None };
    assert!(m.parse_inject_field_type(inject(), &no_bound).is_none());
    assert!(m.parse_inject_field_type(inject(), &TypeShape::Other).is_none());
}

#[test]
fn file_paths_become_module_paths() {
    assert_eq!(parse_file_path("src/account/api.rs"), strings(&["crate", "account", "api"]));
    assert_eq!(parse_file_path("src/lib.rs"), strings(&["crate"]));
    assert_eq!(parse_file_path("src/account/mod.rs"), strings(&["crate", "account"]));
    assert_eq!(
        parse_file_path("src/account/infra/security/bcrypt_hasher.rs"),
        strings(&["crate", "account", "infra", "security", "bcrypt_hasher"]),
    );
    assert_eq!(parse_file_path("examples/api.rs"), Vec::<String>::new());
}

#[test]
fn text_utilities() {
    assert_eq!(join_segments(&strings(&["a", "b", "C"]), "::"), "a::b::C");
    assert_eq!(join_segments(&strings(&[]), "::"), "");
    assert_eq!(split_on("x.y.z", '.'), strings(&["x", "y", "z"]));
    assert_eq!(split_on("", '.'), strings(&[""]));
    assert_eq!(split_on(".x.", '.'), strings(&["", "x", ""]));
    assert_eq!(last_segment("crate::db::Connection"), "Connection");
    assert_eq!(last_segment("Connection"), "Connection");
    assert_eq!(strip_extension("api.rs"), "api");
    assert_eq!(strip_extension("api"), "api");
    assert_eq!(strip_extension(".rs"), ".rs");
    assert_eq!(rfind_char("a.b.c", '.'), Some(3));
    assert_eq!(rfind_char("abc", '.'), None);
}

/// The derived identifier of a manual dependency is the snake-case form of
/// the target's last path segment.
#[test]
fn manual_identifier_is_snake_case_of_last_segment() {
    let inject = Inject {
        trait_object: false,
        wrapper_type: Some("std::sync::Arc".to_string()),
        struct_type: "crate::db::PoolConnection".to_string(),
        manual: true,
    };
    let dep = inject.build_dep();
    assert_eq!(dep.ident, "pool_connection");
    assert_eq!(dep.path, "crate::db::PoolConnection");
    assert_eq!(dep.wrapper_type.as_deref(), Some("std::sync::Arc"));
}

/// A later import of the same alias overwrites the earlier one.
#[test]
fn later_import_overwrites_alias() {
    let mut m = context(&["crate", "api"], &[]);
    m.parse_item_use(&UseTree::Path {
        ident: "one".to_string(),
        tree: Box::new(UseTree::Name { ident: "Pool".to_string() }),
    });
    m.parse_item_use(&UseTree::Path {
        ident: "two".to_string(),
        tree: Box::new(UseTree::Name { ident: "Pool".to_string() }),
    });
    assert_eq!(m.uses.len(), 1);
    assert_eq!(m.resolve_abs_path_type(&strings(&["Pool"])), "two::Pool");
}

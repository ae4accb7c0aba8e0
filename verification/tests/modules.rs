use wire_build::ast::{FieldDecl, Item, StructDecl, TypeShape, UseTree};
use wire_build::builder::configure;
use wire_build::decl::{injectable_params, Attr, AttrArg, Provider};
use wire_build::errors::WireError;
use wire_build::module::{parse_module, ModuleContext};
use wire_build::account::{
    AccountConfig, AccountGrpcServer, BcryptHasher, BcryptHasherConfig, Connection,
    PasswordHasher,
};

fn strings(parts: &[&str]) -> Vec<String> {
    parts.iter().map(|s| s.to_string()).collect()
}

fn attr(name: &str, args: &[(&str, Option<&str>)]) -> Attr {
    Attr {
        name: name.to_string(),
        args: args
            .iter()
            .map(|(n, v)| AttrArg { name: n.to_string(), value: v.map(|s| s.to_string()) })
            .collect(),
    }
}

fn field(attrs: Vec<Attr>, ty: TypeShape) -> FieldDecl {
    FieldDecl { attrs, ty }
}

fn path_ty(segments: &[&str]) -> TypeShape {
    TypeShape::Path { segments: strings(segments), arg: None }
}

/// The example wiring, written as per-module items: a provider with a bare
/// `config` attribute takes the snake-case short name as its key; an entry
/// point with `export` and `rename` carries both; an `inject(manual)`
/// field is marked manual; a `provider`-tagged implementation registers a
/// capability binding.
#[test]
fn module_items_build_the_example_registry() {
    let api_items = vec![
        Item::Use {
            tree: UseTree::Path {
                ident: "crate".to_string(),
                tree: Box::new(UseTree::Path {
                    ident: "security".to_string(),
                    tree: Box::new(UseTree::Name { ident: "PasswordHasher".to_string() }),
                }),
            },
        },
        Item::Struct {
            decl: StructDecl {
                ident: "AccountConfig".to_string(),
                attrs: vec![attr("provider", &[("config", Some("account"))])],
                fields: vec![],
            },
        },
        Item::Struct {
            decl: StructDecl {
                ident: "AccountGrpcServer".to_string(),
                attrs: vec![attr(
                    "injectable",
                    &[("export", None), ("rename", Some("account_grpc_service"))],
                )],
                fields: vec![
                    field(vec![attr("inject", &[])], path_ty(&["AccountConfig"])),
                    field(
                        vec![attr("inject", &[])],
                        TypeShape::TraitObject { bound: Some(strings(&["PasswordHasher"])) },
                    ),
                ],
            },
        },
    ];
    let hasher_items = vec![
        Item::Struct {
            decl: StructDecl {
                ident: "BcryptHasherConfig".to_string(),
                attrs: vec![attr("provider", &[("config", None)])],
                fields: vec![],
            },
        },
        Item::Struct {
            decl: StructDecl {
                ident: "BcryptHasher".to_string(),
                attrs: vec![attr("provider", &[]), attr("injectable", &[])],
                fields: vec![
                    field(vec![attr("inject", &[])], path_ty(&["BcryptHasherConfig"])),
                    field(vec![attr("inject", &[("manual", None)])], path_ty(&["Connection"])),
                ],
            },
        },
        Item::Impl {
            attrs: vec![attr("provider", &[])],
            trait_path: Some(strings(&["crate", "security", "PasswordHasher"])),
            self_path: Some(strings(&["BcryptHasher"])),
        },
    ];

    let api = parse_module(strings(&["crate", "api"]), &api_items).expect("parsable");
    assert_eq!(api.len(), 1);
    let api = &api[0];
    assert_eq!(api.providers.len(), 1);
    assert_eq!(api.providers[0].struct_type, "crate::api::AccountConfig");
    assert_eq!(api.providers[0].metadata.config.as_deref(), Some("account"));
    assert_eq!(api.injectors.len(), 1);
    let server = &api.injectors[0];
    assert_eq!(server.struct_type, "crate::api::AccountGrpcServer");
    assert!(server.metadata.export);
    assert_eq!(server.metadata.rename.as_deref(), Some("account_grpc_service"));
    assert_eq!(server.injects.len(), 2);
    assert_eq!(server.injects[0].struct_type, "crate::api::AccountConfig");
    assert!(!server.injects[0].manual);
    assert_eq!(server.injects[1].struct_type, "crate::security::PasswordHasher");
    assert!(server.injects[1].trait_object);

    let hasher = parse_module(strings(&["crate", "hash"]), &hasher_items).expect("parsable");
    assert_eq!(hasher.len(), 1);
    let hasher = &hasher[0];
    // a bare `config` takes the snake-case short name as its key
    assert_eq!(hasher.providers[0].metadata.config.as_deref(), Some("bcrypt_hasher_config"));
    let bh = &hasher.providers[1];
    assert_eq!(bh.struct_type, "crate::hash::BcryptHasher");
    assert!(bh.injects[1].manual);
    assert_eq!(hasher.implements.len(), 1);
    assert_eq!(hasher.implements[0].capability, "crate::security::PasswordHasher");
    assert_eq!(hasher.implements[0].implementers, strings(&["crate::hash::BcryptHasher"]));

    // merge the modules and resolve the whole example
    let mut reg = configure();
    let mut modules = parse_module(strings(&["crate", "api"]), &api_items).expect("parsable");
    modules.extend(parse_module(strings(&["crate", "hash"]), &hasher_items).expect("parsable"));
    reg.merge(modules);
    let plan = reg.generate().expect("the example wiring resolves");
    let paths: Vec<&str> = plan.statements.iter().map(|s| s.path.as_str()).collect();
    assert_eq!(paths, vec!["crate::hash::BcryptHasher", "crate::api::AccountGrpcServer"]);
    assert!(plan.statements[0].shared);
    assert!(!plan.statements[1].shared);
    assert_eq!(plan.statements[1].ident, "account_grpc_service");
    assert_eq!(plan.deps.len(), 1);
    assert_eq!(plan.deps[0].ident, "connection");
    assert_eq!(plan.exports.len(), 1);
    assert_eq!(plan.exports[0].ident, "account_grpc_service");
    let mut keys: Vec<&str> = plan.config_fields.iter().map(|c| c.key.as_str()).collect();
    keys.sort();
    assert_eq!(keys, vec!["account", "bcrypt_hasher_config"]);
}

/// Nested modules contribute their own contexts, in traversal order,
/// before the enclosing module's.
#[test]
fn nested_modules_in_traversal_order() {
    let items = vec![
        Item::Mod {
            name: "inner".to_string(),
            items: Some(vec![Item::Struct {
                decl: StructDecl {
                    ident: "Leaf".to_string(),
                    attrs: vec![attr("provider", &[])],
                    fields: vec![],
                },
            }]),
        },
        Item::Mod { name: "empty".to_string(), items: None },
        Item::Other,
    ];
    let modules = parse_module(strings(&["crate"]), &items).expect("parsable");
    assert_eq!(modules.len(), 2);
    assert_eq!(modules[0].mods, strings(&["crate", "inner"]));
    assert_eq!(modules[0].providers[0].struct_type, "crate::inner::Leaf");
    assert_eq!(modules[1].mods, strings(&["crate"]));
}

/// An annotated field whose type matches no recognized shape fails the
/// parse, naming the declaration.
#[test]
fn unsupported_field_shape_is_fatal() {
    let items = vec![Item::Struct {
        decl: StructDecl {
            ident: "Broken".to_string(),
            attrs: vec![attr("provider", &[])],
            fields: vec![field(vec![attr("inject", &[])], TypeShape::Path {
                segments: strings(&["Arc"]),
                arg: None,
            })],
        },
    }];
    match parse_module(strings(&["crate"]), &items) {
        Err(WireError::UnsupportedFieldType { provider }) => {
            assert_eq!(provider, "crate::Broken");
        },
        Err(e) => panic!("expected an unsupported-shape error, got {:?}", e),
        Ok(_) => panic!("an unreadable request shape must fail the parse"),
    }
}

/// A later registration of the same declaration path overwrites an earlier
/// one; implementer lists append across modules in traversal order.
#[test]
fn merge_overwrites_paths_and_appends_implementers() {
    let mut m1 = ModuleContext::new(strings(&["crate", "one"]));
    let mut p1 = Provider::new("crate::X".to_string(), "X".to_string());
    p1.metadata.rename = Some("first".to_string());
    m1.providers = vec![p1];
    m1.implements = vec![wire_build::decl::Binding {
        capability: "crate::Cap".to_string(),
        implementers: strings(&["crate::one::I1"]),
    }];
    let mut m2 = ModuleContext::new(strings(&["crate", "two"]));
    let mut p2 = Provider::new("crate::X".to_string(), "X".to_string());
    p2.metadata.rename = Some("second".to_string());
    m2.providers = vec![p2];
    m2.implements = vec![wire_build::decl::Binding {
        capability: "crate::Cap".to_string(),
        implementers: strings(&["crate::two::I2"]),
    }];

    let mut reg = configure();
    reg.merge(vec![m1, m2]);
    assert_eq!(reg.providers.len(), 1);
    assert_eq!(reg.providers[0].metadata.rename.as_deref(), Some("second"));
    assert_eq!(reg.implements.len(), 1);
    assert_eq!(reg.implements[0].implementers, strings(&["crate::one::I1", "crate::two::I2"]));
}

/// One configuration field per distinct key, in registry order, the first
/// declaration with a key winning.
#[test]
fn config_fields_deduplicate_by_key() {
    let mut reg = configure();
    let mut c1 = Provider::new("crate::A".to_string(), "A".to_string());
    c1.metadata.config = Some("shared".to_string());
    let mut c2 = Provider::new("crate::B".to_string(), "B".to_string());
    c2.metadata.config = Some("shared".to_string());
    let mut c3 = Provider::new("crate::C".to_string(), "C".to_string());
    c3.metadata.config = Some("other".to_string());
    let plain = Provider::new("crate::D".to_string(), "D".to_string());
    reg.providers = vec![c1, c2, c3, plain];
    let fields = reg.generate_config();
    assert_eq!(fields.len(), 2);
    assert_eq!(fields[0].key, "shared");
    assert_eq!(fields[0].path, "crate::A");
    assert_eq!(fields[1].key, "other");
    assert_eq!(fields[1].path, "crate::C");
}

/// A dotted configuration key becomes a nested field path.
#[test]
fn dotted_config_key_becomes_field_path() {
    let mut reg = configure();
    let mut cfg = Provider::new("crate::cfg::Nested".to_string(), "Nested".to_string());
    cfg.metadata.config = Some("outer.inner".to_string());
    let mut a = Provider::new("crate::A".to_string(), "A".to_string());
    a.injects = vec![wire_build::decl::Inject {
        trait_object: false,
        wrapper_type: None,
        struct_type: "crate::cfg::Nested".to_string(),
        manual: false,
    }];
    reg.providers = vec![cfg];
    reg.injectors = vec![a];
    let plan = reg.generate().expect("resolvable");
    match &plan.statements[0].args[0] {
        wire_build::resolve::ArgRef::ConfigField { parts } => {
            assert_eq!(parts, &strings(&["config", "outer", "inner"]));
        },
        _ => panic!("expected a configuration field path"),
    }
}

/// Injected fields become constructor parameters; the rest are
/// default-initialized.
#[test]
fn injectable_constructor_shape() {
    let fields = vec![
        field(vec![attr("inject", &[])], path_ty(&["A"])),
        field(vec![], path_ty(&["B"])),
        field(vec![attr("inject", &[("manual", None)])], path_ty(&["C"])),
    ];
    assert_eq!(injectable_params(&fields), vec![true, false, true]);
}

/// The worked example types wire together as the generated constructor
/// would build them.
#[test]
fn account_example_types_construct() {
    let hasher = BcryptHasher::new(BcryptHasherConfig { cost: 10 }, Connection {});
    assert_eq!(hasher.verify("secret", "hash"), Ok(true));
    assert!(hasher.hash("secret").is_err());
    let _server = AccountGrpcServer::new(
        AccountConfig { addr: "localhost".to_string(), port: 50051 },
        BcryptHasher::new(BcryptHasherConfig { cost: 10 }, Connection {}),
    );
}

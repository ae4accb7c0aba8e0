use wire_build::builder::{configure, Builder};
use wire_build::decl::{Binding, Inject, Metadata, Provider};
use wire_build::errors::WireError;
use wire_build::resolve::{ArgRef, Plan};

fn provider(path: &str, ident: &str) -> Provider {
    Provider::new(path.to_string(), ident.to_string())
}

fn inject(path: &str) -> Inject {
    Inject {
        trait_object: false,
        wrapper_type: None,
        struct_type: path.to_string(),
        manual: false,
    }
}

fn manual_inject(path: &str) -> Inject {
    Inject { trait_object: false, wrapper_type: None, struct_type: path.to_string(), manual: true }
}

fn config_provider(path: &str, ident: &str, key: &str) -> Provider {
    let mut p = provider(path, ident);
    p.metadata = Metadata { config: Some(key.to_string()), export: false, rename: None };
    p
}

fn ident_of(a: &ArgRef) -> String {
    match a {
        ArgRef::Ident { ident } => ident.clone(),
        _ => panic!("expected a singleton identifier argument"),
    }
}

/// An acyclic registry where two entry points share a dependency: the plan
/// holds exactly one construction statement per distinct path, whatever the
/// fan-in.
#[test]
fn acyclic_fan_in_constructs_each_path_once() {
    let mut reg = configure();
    let shared = provider("crate::util::Pool", "Pool");
    let mut a = provider("crate::a::A", "A");
    a.injects = vec![inject("crate::util::Pool")];
    let mut b = provider("crate::b::B", "B");
    b.injects = vec![inject("crate::util::Pool")];
    reg.providers = vec![shared, a.clone(), b.clone()];
    reg.injectors = vec![a, b];
    let plan = reg.generate().expect("an acyclic, resolvable registry must produce a plan");
    let paths: Vec<&str> = plan.statements.iter().map(|s| s.path.as_str()).collect();
    assert_eq!(paths, vec!["crate::util::Pool", "crate::a::A", "crate::b::B"]);
    for (i, s) in plan.statements.iter().enumerate() {
        for (j, t) in plan.statements.iter().enumerate() {
            if i != j {
                assert_ne!(s.path, t.path, "one construction statement per distinct path");
            }
        }
    }
}

/// Capability binding resolves to the first implementer in discovery order.
#[test]
fn capability_binds_first_implementer() {
    let mut reg = configure();
    let h1 = provider("crate::hash::H1", "H1");
    let h2 = provider("crate::hash::H2", "H2");
    let mut a = provider("crate::a::A", "A");
    a.injects = vec![inject("crate::hash::Hasher")];
    reg.providers = vec![h1, h2, a.clone()];
    reg.implements = vec![Binding {
        capability: "crate::hash::Hasher".to_string(),
        implementers: vec!["crate::hash::H1".to_string(), "crate::hash::H2".to_string()],
    }];
    reg.injectors = vec![a];
    let plan = reg.generate().expect("resolvable");
    assert_eq!(plan.statements[0].path, "crate::hash::H1");
    assert_eq!(ident_of(&plan.statements[1].args[0]), "h1");
}

/// Reversing the discovery order flips the binding to the other
/// implementer.
#[test]
fn capability_binding_follows_discovery_order() {
    let mut reg = configure();
    let h1 = provider("crate::hash::H1", "H1");
    let h2 = provider("crate::hash::H2", "H2");
    let mut a = provider("crate::a::A", "A");
    a.injects = vec![inject("crate::hash::Hasher")];
    reg.providers = vec![h1, h2, a.clone()];
    reg.implements = vec![Binding {
        capability: "crate::hash::Hasher".to_string(),
        implementers: vec!["crate::hash::H2".to_string(), "crate::hash::H1".to_string()],
    }];
    reg.injectors = vec![a];
    let plan = reg.generate().expect("resolvable");
    assert_eq!(plan.statements[0].path, "crate::hash::H2");
    assert_eq!(ident_of(&plan.statements[1].args[0]), "h2");
}

/// A manual request for an unregistered type never produces a construction
/// statement, appears exactly once in the external-input shape even when
/// two declarations request it, and is referenced by field access.
#[test]
fn manual_dependency_registered_once() {
    let mut reg = configure();
    let mut a = provider("crate::a::A", "A");
    a.injects = vec![manual_inject("crate::db::Connection")];
    let mut b = provider("crate::b::B", "B");
    b.injects = vec![manual_inject("crate::db::Connection")];
    reg.injectors = vec![a, b];
    let plan = reg.generate().expect("manual requests resolve to the external input");
    assert!(plan.statements.iter().all(|s| s.path != "crate::db::Connection"));
    let conn: Vec<_> = plan.deps.iter().filter(|d| d.ident == "connection").collect();
    assert_eq!(conn.len(), 1, "one field per derived identifier");
    assert_eq!(plan.deps.len(), 1);
    assert_eq!(conn[0].path, "crate::db::Connection");
    for s in &plan.statements {
        match &s.args[0] {
            ArgRef::DepField { ident } => assert_eq!(ident, "connection"),
            _ => panic!("a manual request is read from the externally supplied input"),
        }
    }
}

/// A non-manual request with no matching declaration fails the run, naming
/// the unresolved path, and no plan is produced.
#[test]
fn missing_provider_fails_naming_path() {
    let mut reg = configure();
    let mut a = provider("crate::a::A", "A");
    a.injects = vec![inject("crate::missing::Missing")];
    reg.injectors = vec![a];
    match reg.generate() {
        Err(WireError::MissingProvider { path }) => assert_eq!(path, "crate::missing::Missing"),
        Err(_) => panic!("expected a missing-provider error"),
        Ok(_) => panic!("an unresolvable non-manual request must fail the run"),
    }
}

/// The worked example: an exported `A` depending on `B`, which reads the
/// configuration field `x`. Expected plan: construct `B` shared-wrapped
/// referencing `config.x`, then construct `A` unwrapped referencing `B`'s
/// identifier, and the assembly exposes `A`.
#[test]
fn config_sourced_dependency_plan_shape() {
    let mut reg = configure();
    let cfg = config_provider("crate::cfg::X", "X", "x");
    let mut b = provider("crate::b::B", "B");
    b.injects = vec![inject("crate::cfg::X")];
    let mut a = provider("crate::a::A", "A");
    a.metadata.export = true;
    a.injects = vec![inject("crate::b::B")];
    reg.providers = vec![cfg, b, a.clone()];
    reg.injectors = vec![a];
    let plan = reg.generate().expect("resolvable");

    assert_eq!(plan.statements.len(), 2);
    let sb = &plan.statements[0];
    assert_eq!(sb.path, "crate::b::B");
    assert_eq!(sb.ident, "b");
    assert!(sb.shared, "a non-exported singleton is shared-wrapped");
    match &sb.args[0] {
        ArgRef::ConfigField { parts } => {
            assert_eq!(parts, &vec!["config".to_string(), "x".to_string()]);
        },
        _ => panic!("a configuration-sourced dependency is a field path"),
    }
    let sa = &plan.statements[1];
    assert_eq!(sa.path, "crate::a::A");
    assert_eq!(sa.ident, "a");
    assert!(!sa.shared, "an exported singleton is held by value");
    assert_eq!(ident_of(&sa.args[0]), "b");

    assert_eq!(plan.exports.len(), 1);
    assert_eq!(plan.exports[0].ident, "a");
    assert_eq!(plan.exports[0].path, "crate::a::A");

    assert_eq!(plan.config_fields.len(), 1);
    assert_eq!(plan.config_fields[0].key, "x");
    assert_eq!(plan.config_fields[0].path, "crate::cfg::X");
}

/// `A` depends on the `Hasher` capability with two implementers: the first
/// discovered wins, and swapping discovery order flips the binding.
#[test]
fn capability_two_implementers_example() {
    for (order, winner) in [
        (vec!["crate::h::H1", "crate::h::H2"], "crate::h::H1"),
        (vec!["crate::h::H2", "crate::h::H1"], "crate::h::H2"),
    ] {
        let mut reg = configure();
        reg.providers = vec![provider("crate::h::H1", "H1"), provider("crate::h::H2", "H2")];
        let mut a = provider("crate::a::A", "A");
        a.injects = vec![inject("crate::h::Hasher")];
        reg.implements = vec![Binding {
            capability: "crate::h::Hasher".to_string(),
            implementers: order.iter().map(|s| s.to_string()).collect(),
        }];
        reg.injectors = vec![a];
        let plan = reg.generate().expect("resolvable");
        assert_eq!(plan.statements[0].path, winner);
    }
}

/// A dependency cycle is detected and reported with the full chain rather
/// than recursing without bound.
#[test]
fn cycle_reported_with_chain() {
    let mut reg = configure();
    let mut a = provider("crate::a::A", "A");
    a.injects = vec![inject("crate::b::B")];
    let mut b = provider("crate::b::B", "B");
    b.injects = vec![inject("crate::a::A")];
    reg.providers = vec![a.clone(), b];
    reg.injectors = vec![a];
    match reg.generate() {
        Err(WireError::DependencyCycle { chain }) => {
            assert_eq!(chain, vec![
                "crate::a::A".to_string(),
                "crate::b::B".to_string(),
                "crate::a::A".to_string(),
            ]);
        },
        Err(e) => panic!("expected a cycle error, got {:?}", e),
        Ok(_) => panic!("a self-referential declaration set must fail"),
    }
}

/// A declaration depending on itself is the smallest cycle.
#[test]
fn self_cycle_reported() {
    let mut reg = configure();
    let mut a = provider("crate::a::A", "A");
    a.injects = vec![inject("crate::a::A")];
    reg.providers = vec![a.clone()];
    reg.injectors = vec![a];
    assert!(matches!(reg.generate(), Err(WireError::DependencyCycle { .. })));
}

/// A rename overrides the derived identifier; without one the identifier is
/// the snake-case short name.
#[test]
fn rename_and_snake_case_identifiers() {
    let mut reg = configure();
    let mut a = provider("crate::a::AccountGrpcServer", "AccountGrpcServer");
    a.metadata.rename = Some("account_grpc_service".to_string());
    a.metadata.export = true;
    let b = provider("crate::b::BcryptHasher", "BcryptHasher");
    reg.providers = vec![b.clone()];
    reg.injectors = vec![a, b];
    let plan = reg.generate().expect("resolvable");
    assert_eq!(plan.statements[0].ident, "account_grpc_service");
    assert_eq!(plan.statements[1].ident, "bcrypt_hasher");
}

/// An entry point already constructed as a dependency of an earlier entry
/// point is not constructed again.
#[test]
fn entry_point_already_cached_is_skipped() {
    let mut reg = configure();
    let mut a = provider("crate::a::A", "A");
    a.injects = vec![inject("crate::b::B")];
    let b = provider("crate::b::B", "B");
    reg.providers = vec![b.clone()];
    reg.injectors = vec![a, b];
    let plan = reg.generate().expect("resolvable");
    assert_eq!(plan.statements.len(), 2);
    assert_eq!(plan.statements[0].path, "crate::b::B");
    assert_eq!(plan.statements[1].path, "crate::a::A");
}

/// A concrete request whose path has a registered capability binding is
/// still bound through the capability table first.
#[test]
fn capability_table_consulted_first() {
    let mut reg = configure();
    reg.providers = vec![provider("crate::x::Real", "Real"), provider("crate::x::Decoy", "Decoy")];
    let mut a = provider("crate::a::A", "A");
    a.injects = vec![inject("crate::x::Decoy")];
    reg.implements = vec![Binding {
        capability: "crate::x::Decoy".to_string(),
        implementers: vec!["crate::x::Real".to_string()],
    }];
    reg.injectors = vec![a];
    let plan = reg.generate().expect("resolvable");
    assert_eq!(plan.statements[0].path, "crate::x::Real");
}

/// The generated constructor's input parameter keeps its name.
#[test]
fn plan_carries_dep_name() {
    let reg: Builder = configure();
    let plan: Plan = reg.generate().expect("an empty registry resolves");
    assert_eq!(plan.dep, "dep");
    assert!(plan.statements.is_empty());
    assert!(plan.exports.is_empty());
    assert!(plan.deps.is_empty());
    assert!(plan.config_fields.is_empty());
}

/// A configuration-sourced entry point reads a field path: no statement is
/// emitted and nothing is cached for it.
#[test]
fn config_sourced_entry_emits_nothing() {
    let mut reg = configure();
    let cfg = config_provider("crate::cfg::Only", "Only", "only");
    reg.providers = vec![cfg.clone()];
    reg.injectors = vec![cfg];
    let plan = reg.generate().expect("resolvable");
    assert!(plan.statements.is_empty());
    assert!(plan.exports.is_empty());
    assert_eq!(plan.config_fields.len(), 1);
    assert_eq!(plan.config_fields[0].key, "only");
}

/// Two manual requests whose targets share a derived identifier are read
/// from one input field; the first registration wins.
#[test]
fn manual_ident_collision_first_wins() {
    let mut reg = configure();
    let mut a = provider("crate::a::A", "A");
    a.injects = vec![manual_inject("crate::one::Conn")];
    let mut b = provider("crate::b::B", "B");
    b.injects = vec![manual_inject("crate::two::Conn")];
    reg.injectors = vec![a, b];
    let plan = reg.generate().expect("manual requests resolve to the external input");
    assert_eq!(plan.deps.len(), 1);
    assert_eq!(plan.deps[0].ident, "conn");
    assert_eq!(plan.deps[0].path, "crate::one::Conn");
}

/// A capability binding whose implementer has no registered declaration
/// fails the run even for a manual request, naming the request's target.
#[test]
fn dangling_implementer_fails() {
    let mut reg = configure();
    let mut a = provider("crate::a::A", "A");
    a.injects = vec![manual_inject("crate::cap::Cap")];
    reg.implements = vec![Binding {
        capability: "crate::cap::Cap".to_string(),
        implementers: vec!["crate::ghostly::Unregistered".to_string()],
    }];
    reg.injectors = vec![a];
    match reg.generate() {
        Err(WireError::MissingProvider { path }) => assert_eq!(path, "crate::cap::Cap"),
        Err(e) => panic!("expected a missing-provider error, got {:?}", e),
        Ok(_) => panic!("a dangling implementer must fail the run"),
    }
}

/// A cycle below the entry point is reported with the full chain from the
/// entry; the suffix from the re-entered path is the cycle itself.
#[test]
fn cycle_below_entry_carries_full_chain() {
    let mut reg = configure();
    let mut e = provider("crate::e::Entry", "Entry");
    e.injects = vec![inject("crate::a::A")];
    let mut a = provider("crate::a::A", "A");
    a.injects = vec![inject("crate::b::B")];
    let mut b = provider("crate::b::B", "B");
    b.injects = vec![inject("crate::a::A")];
    reg.providers = vec![a, b];
    reg.injectors = vec![e];
    match reg.generate() {
        Err(WireError::DependencyCycle { chain }) => {
            assert_eq!(chain, vec![
                "crate::e::Entry".to_string(),
                "crate::a::A".to_string(),
                "crate::b::B".to_string(),
                "crate::a::A".to_string(),
            ]);
            let first = chain.iter().position(|p| *p == *chain.last().unwrap()).unwrap();
            assert_eq!(&chain[first..], ["crate::a::A", "crate::b::B", "crate::a::A"]);
        },
        Err(e) => panic!("expected a cycle error, got {:?}", e),
        Ok(_) => panic!("a cyclic declaration set must fail"),
    }
}

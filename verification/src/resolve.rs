//! The graph builder: recursive provider resolution with singleton
//! memoization, capability-to-implementer binding, manual-dependency
//! extraction, cycle detection, and construction-plan assembly. Statements
//! are emitted in post-order with respect to the dependency graph, so every
//! argument identifier is defined by an earlier statement.

use vstd::prelude::*;

use crate::builder::{Builder, BuilderView};
use crate::decl::{Dep, DepView, Inject, InjectView, Provider, ProviderView};
use crate::errors::WireError;
use crate::table::{
    lemma_map_find_at, lemma_map_find_extend, lemma_map_find_none, lemma_map_find_some,
    map_contains, map_find, map_get, string_eq, unique_keys, views, Keyed, KeyedView,
};
use crate::text::{
    snake_of, spec_last_segment, spec_split, split_on, to_snake_case,
};

verus! {

/// How one constructor argument is obtained: the identifier of a
/// constructed singleton (the rendered argument clones it), a field of the
/// externally supplied input, or a configuration field path.
pub enum ArgRef {
    Ident { ident: String },
    DepField { ident: String },
    ConfigField { parts: Vec<String> },
}

#[verifier::ext_equal]
pub enum ArgRefView {
    Ident { ident: Seq<char> },
    DepField { ident: Seq<char> },
    ConfigField { parts: Seq<Seq<char>> },
}

impl View for ArgRef {
    type V = ArgRefView;

    open spec fn view(&self) -> ArgRefView {
        match self {
            ArgRef::Ident { ident } => ArgRefView::Ident { ident: ident@ },
            ArgRef::DepField { ident } => ArgRefView::DepField { ident: ident@ },
            ArgRef::ConfigField { parts } => ArgRefView::ConfigField { parts: views(parts@) },
        }
    }
}

/// One construction statement: the identifier it binds, the constructed
/// type's absolute path, whether the value is wrapped in a shared-ownership
/// container (every non-exported singleton is), and the constructor
/// arguments in declared member order.
pub struct Statement {
    pub ident: String,
    pub path: String,
    pub shared: bool,
    pub args: Vec<ArgRef>,
}

#[verifier::ext_equal]
pub struct StatementView {
    pub ident: Seq<char>,
    pub path: Seq<char>,
    pub shared: bool,
    pub args: Seq<ArgRefView>,
}

impl View for Statement {
    type V = StatementView;

    open spec fn view(&self) -> StatementView {
        StatementView {
            ident: self.ident@,
            path: self.path@,
            shared: self.shared,
            args: views(self.args@),
        }
    }
}

/// One cache entry: a constructed declaration's path, the identifier its
/// singleton is bound to, and whether it is exported.
pub struct Variant {
    pub path: String,
    pub ident: String,
    pub export: bool,
}

#[verifier::ext_equal]
pub struct VariantView {
    pub path: Seq<char>,
    pub ident: Seq<char>,
    pub export: bool,
}

impl View for Variant {
    type V = VariantView;

    open spec fn view(&self) -> VariantView {
        VariantView { path: self.path@, ident: self.ident@, export: self.export }
    }
}

impl KeyedView for VariantView {
    open spec fn key(self) -> Seq<char> {
        self.path
    }
}

impl Keyed for Variant {
    fn key_ref(&self) -> (r: &String) {
        &self.path
    }
}

/// One field of the generated configuration aggregate: the configuration
/// key and the configuration type's absolute path.
pub struct ConfigField {
    pub key: String,
    pub path: String,
}

#[verifier::ext_equal]
pub struct ConfigFieldView {
    pub key: Seq<char>,
    pub path: Seq<char>,
}

impl View for ConfigField {
    type V = ConfigFieldView;

    open spec fn view(&self) -> ConfigFieldView {
        ConfigFieldView { key: self.key@, path: self.path@ }
    }
}

impl KeyedView for ConfigFieldView {
    open spec fn key(self) -> Seq<char> {
        self.key
    }
}

impl Keyed for ConfigField {
    fn key_ref(&self) -> (r: &String) {
        &self.key
    }
}

/// The mutable state of one resolution run: the statements emitted so far,
/// the variant cache (one entry per statement, same order), and the manual
/// dependencies registered so far.
pub struct ResolveState {
    pub statements: Vec<Statement>,
    pub variants: Vec<Variant>,
    pub dependencies: Vec<Dep>,
}

#[verifier::ext_equal]
pub struct ResolveStateView {
    pub statements: Seq<StatementView>,
    pub variants: Seq<VariantView>,
    pub dependencies: Seq<DepView>,
}

impl View for ResolveState {
    type V = ResolveStateView;

    open spec fn view(&self) -> ResolveStateView {
        ResolveStateView {
            statements: views(self.statements@),
            variants: views(self.variants@),
            dependencies: views(self.dependencies@),
        }
    }
}

/// The finished construction plan: the ordered statements, the exported
/// singletons (the generated container's fields), the deduplicated manual
/// dependencies, the configuration fields, and the name of the generated
/// constructor's input parameter.
pub struct Plan {
    pub statements: Vec<Statement>,
    pub exports: Vec<Variant>,
    pub deps: Vec<Dep>,
    pub config_fields: Vec<ConfigField>,
    pub dep: String,
}

#[verifier::ext_equal]
pub struct PlanView {
    pub statements: Seq<StatementView>,
    pub exports: Seq<VariantView>,
    pub deps: Seq<DepView>,
    pub config_fields: Seq<ConfigFieldView>,
    pub dep: Seq<char>,
}

impl View for Plan {
    type V = PlanView;

    open spec fn view(&self) -> PlanView {
        PlanView {
            statements: views(self.statements@),
            exports: views(self.exports@),
            deps: views(self.deps@),
            config_fields: views(self.config_fields@),
            dep: self.dep@,
        }
    }
}

/// Where a dependency request's target binds: the capability table is
/// consulted first, whatever the request's syntax was, and the first
/// implementer in discovery order wins; with no binding, the target path
/// itself must be a registered declaration.
pub open spec fn spec_lookup_target(reg: BuilderView, t: Seq<char>) -> Option<Seq<char>> {
    let b = map_find(reg.implements, t);
    if b is Some && b->Some_0.implementers.len() >= 1 {
        Some(b->Some_0.implementers[0])
    } else if map_contains(reg.providers, t) {
        Some(t)
    } else {
        None
    }
}

/// The registered declaration a request's target resolves to, if any.
pub open spec fn spec_resolve_target(reg: BuilderView, t: Seq<char>) -> Option<ProviderView> {
    match spec_lookup_target(reg, t) {
        Some(p) => map_find(reg.providers, p),
        None => None,
    }
}

/// Whether a request's target resolves to a constructible declaration.
pub open spec fn spec_target_resolves(reg: BuilderView, t: Seq<char>) -> bool {
    spec_resolve_target(reg, t) is Some
}

/// Whether `d` is one of the registry's declarations: registered under its
/// path, or listed as an entry point.
pub open spec fn spec_decl_in_registry(reg: BuilderView, d: ProviderView) -> bool {
    ||| map_find(reg.providers, d.struct_type) == Some(d)
    ||| exists|i: int| 0 <= i < reg.injectors.len() && reg.injectors[i] == d
}

/// Whether `d` is one of the registry's entry points.
pub open spec fn spec_is_entry(reg: BuilderView, d: ProviderView) -> bool {
    exists|i: int| 0 <= i < reg.injectors.len() && reg.injectors[i] == d
}

/// The declaration at path `p` is needed: a dependency chain leads to it
/// from an entry point.
#[verifier::opaque]
pub open spec fn spec_entry_reachable(reg: BuilderView, p: Seq<char>) -> bool {
    exists|ds: Seq<ProviderView>|
        #![trigger spec_is_chain(reg, ds)]
        {
            &&& spec_is_chain(reg, ds)
            &&& spec_is_entry(reg, ds[0])
            &&& ds.last().struct_type == p
        }
}

/// The generated identifier of a declaration: its explicit rename, or the
/// snake-case form of its short name.
pub open spec fn spec_provider_ident(p: ProviderView) -> Seq<char> {
    match p.metadata.rename {
        Some(r) => r,
        None => snake_of(p.ident),
    }
}

/// The configuration field path a configuration key stands for: the
/// configuration root, then the key split on `.`.
pub open spec fn spec_config_parts(key: Seq<char>) -> Seq<Seq<char>> {
    seq!["config"@] + spec_split(key, '.')
}

/// A dependency edge: some request of `d` resolves to the declaration at
/// path `p`.
pub open spec fn spec_dep_edge(reg: BuilderView, d: ProviderView, p: Seq<char>) -> bool {
    exists|k: int|
        0 <= k < d.injects.len() && {
            let t = spec_resolve_target(reg, (#[trigger] d.injects[k]).struct_type);
            t is Some && t->Some_0.struct_type == p
        }
}

/// A dependency chain: registry declarations in which each one's successor
/// is the registered resolution of one of its requests.
pub open spec fn spec_is_chain(reg: BuilderView, ds: Seq<ProviderView>) -> bool {
    &&& ds.len() >= 1
    &&& forall|i: int| 0 <= i < ds.len() ==> spec_decl_in_registry(reg, #[trigger] ds[i])
    &&& forall|i: int|
        1 <= i < ds.len() ==> map_find(reg.providers, (#[trigger] ds[i]).struct_type) == Some(
            ds[i],
        )
    &&& forall|i: int|
        0 <= i < ds.len() - 1 ==> spec_dep_edge(reg, #[trigger] ds[i], ds[i + 1].struct_type)
}

/// Whether some declaration depends on itself, directly or through others.
pub open spec fn spec_has_cycle(reg: BuilderView) -> bool {
    exists|ds: Seq<ProviderView>|
        #[trigger] spec_is_chain(reg, ds) && ds.len() >= 2 && ds[0].struct_type
            == ds.last().struct_type
}

/// A failing request: some registry declaration holds a request with this
/// target path that does not qualify for the manual route (it is not
/// manual, or a capability binding exists for its target).
#[verifier::opaque]
pub open spec fn spec_failing_request(reg: BuilderView, path: Seq<char>) -> bool {
    exists|d: ProviderView, k: int|
        #![trigger d.injects[k]]
        {
            &&& spec_decl_in_registry(reg, d)
            &&& 0 <= k < d.injects.len()
            &&& d.injects[k].struct_type == path
            &&& !(d.injects[k].manual && spec_lookup_target(reg, path) is None)
        }
}

/// The paths of an actual dependency cycle: a chain of registry
/// declarations, edge by edge, whose first and last paths coincide.
#[verifier::opaque]
pub open spec fn spec_path_cycle(reg: BuilderView, ps: Seq<Seq<char>>) -> bool {
    exists|ds: Seq<ProviderView>|
        #![trigger spec_is_chain(reg, ds)]
        {
            &&& spec_is_chain(reg, ds)
            &&& ds.map_values(|d: ProviderView| d.struct_type) == ps
            &&& ds.len() >= 2
            &&& ds[0].struct_type == ds.last().struct_type
        }
}

/// What a failed run's error means. A missing provider names a request's
/// target that resolves to no constructible declaration and does not
/// qualify for the manual route. A dependency cycle carries a chain whose
/// last path re-enters it; the suffix from the re-entered position is an
/// actual cycle of registry declarations. No other error arises during
/// resolution.
#[verifier::opaque]
pub open spec fn spec_error_characterized(reg: BuilderView, e: WireError) -> bool {
    match e {
        WireError::MissingProvider { path } => !spec_target_resolves(reg, path@)
            && spec_failing_request(reg, path@),
        WireError::DependencyCycle { chain } => {
            &&& spec_has_cycle(reg)
            &&& views(chain@).len() >= 2
            &&& exists|i: int|
                0 <= i < views(chain@).len() - 1 && (#[trigger] views(chain@)[i]) == views(
                    chain@,
                ).last() && spec_path_cycle(reg, views(chain@).skip(i))
        },
        WireError::UnsupportedFieldType { .. } => false,
    }
}

/// Every request of every registry declaration either resolves to a
/// constructible declaration, or is manual with a target no table knows
/// (a manual request whose capability binding names an unregistered
/// implementer still fails the run).
pub open spec fn spec_all_deps_resolve(reg: BuilderView) -> bool {
    forall|d: ProviderView, k: int|
        spec_decl_in_registry(reg, d) && 0 <= k < d.injects.len() ==> (((#[trigger] d.injects[k]).manual
            && spec_lookup_target(reg, d.injects[k].struct_type) is None) || spec_target_resolves(
            reg,
            d.injects[k].struct_type,
        ))
}

/// What one emitted argument may be, given the run's final state: a
/// singleton identifier defined by an earlier statement, a registered
/// manual dependency's field, or a configuration field path.
pub open spec fn spec_arg_wf(st: ResolveStateView, a: ArgRefView, i: int) -> bool {
    match a {
        ArgRefView::Ident { ident } => exists|j: int|
            0 <= j < i && (#[trigger] st.statements[j]).ident == ident,
        ArgRefView::DepField { ident } => map_contains(st.dependencies, ident),
        ArgRefView::ConfigField { parts } => parts.len() >= 1 && parts[0] == "config"@,
    }
}

/// The statement at position `i` is witnessed by a registered,
/// non-configuration declaration with its path: the statement binds that
/// declaration's generated identifier, is shared unless the declaration is
/// exported, and carries one argument per dependency request, each
/// resolved as `spec_arg_matches` says.
#[verifier::opaque]
pub open spec fn spec_stmt_witnessed(reg: BuilderView, st: ResolveStateView, i: int) -> bool {
    exists|d: ProviderView|
        #![trigger spec_decl_in_registry(reg, d)]
        {
            &&& spec_decl_in_registry(reg, d)
            &&& d.struct_type == st.statements[i].path
            &&& st.statements[i].ident == spec_provider_ident(d)
            &&& st.statements[i].shared == !d.metadata.export
            &&& d.metadata.config is None
            &&& st.statements[i].args.len() == d.injects.len()
            &&& forall|k: int|
                0 <= k < d.injects.len() ==> spec_arg_matches(
                    reg,
                    st,
                    d.injects[k],
                    #[trigger] st.statements[i].args[k],
                )
        }
}

/// The manual dependency carries the data of a registering request: some
/// registry declaration holds a manual request with this path, written
/// with this trait-object flag and ownership wrapper.
#[verifier::opaque]
pub open spec fn spec_dep_witnessed(reg: BuilderView, dep: DepView) -> bool {
    exists|d: ProviderView, k: int|
        #![trigger d.injects[k]]
        {
            &&& spec_decl_in_registry(reg, d)
            &&& 0 <= k < d.injects.len()
            &&& d.injects[k].manual
            &&& d.injects[k].struct_type == dep.path
            &&& d.injects[k].trait_object == dep.trait_object
            &&& d.injects[k].wrapper_type == dep.wrapper_type
        }
}

/// The invariant of one resolution run's state against the registry it
/// runs over: cache entries and statements correspond one to one and in
/// order; each statement constructs its path exactly once, fully witnessed
/// by a registered declaration, request by request; manual dependencies
/// are deduplicated by identifier, derive their identifiers from their
/// paths, name only unresolvable targets and carry a registering request's
/// data; and every statement's arguments refer only to earlier statements,
/// registered manual dependencies, or configuration fields.
pub open spec fn st_inv(reg: BuilderView, st: ResolveStateView) -> bool {
    &&& st.variants.len() == st.statements.len()
    &&& forall|i: int|
        0 <= i < st.variants.len() ==> {
            &&& (#[trigger] st.variants[i]).path == st.statements[i].path
            &&& st.variants[i].ident == st.statements[i].ident
            &&& st.statements[i].shared == !st.variants[i].export
        }
    &&& unique_keys(st.variants)
    &&& unique_keys(st.dependencies)
    &&& forall|i: int|
        0 <= i < st.dependencies.len() ==> {
            &&& !spec_target_resolves(reg, (#[trigger] st.dependencies[i]).path)
            &&& st.dependencies[i].ident == snake_of(spec_last_segment(st.dependencies[i].path))
            &&& spec_dep_witnessed(reg, st.dependencies[i])
        }
    &&& forall|i: int| 0 <= i < st.statements.len() ==> spec_stmt_witnessed(reg, st, i)
    &&& forall|i: int, k: int|
        #![trigger st.statements[i].args[k]]
        0 <= i < st.statements.len() && 0 <= k < st.statements[i].args.len() ==> spec_arg_wf(
            st,
            st.statements[i].args[k],
            i,
        )
}

/// What the argument emitted for one request is: a configuration field
/// path when the request resolves to a configuration-sourced declaration,
/// the cached singleton identifier of the resolved path otherwise, and a
/// manual dependency's field when the target is unresolvable (the request
/// must then be manual).
pub open spec fn spec_arg_matches(
    reg: BuilderView,
    st: ResolveStateView,
    inj: InjectView,
    a: ArgRefView,
) -> bool {
    match spec_resolve_target(reg, inj.struct_type) {
        Some(p) => match p.metadata.config {
            Some(key) => a == (ArgRefView::ConfigField { parts: spec_config_parts(key) }),
            None => {
                &&& a matches ArgRefView::Ident { ident }
                &&& map_find(st.variants, p.struct_type) is Some
                &&& map_find(st.variants, p.struct_type)->Some_0.ident == a->Ident_ident
            },
        },
        None => {
            &&& inj.manual
            &&& a == (ArgRefView::DepField {
                ident: snake_of(spec_last_segment(inj.struct_type)),
            })
            &&& map_contains(st.dependencies, snake_of(spec_last_segment(inj.struct_type)))
        },
    }
}

/// The state grows by appending: everything already emitted stays, at its
/// position.
pub open spec fn st_extends(old_st: ResolveStateView, new_st: ResolveStateView) -> bool {
    &&& old_st.statements.len() <= new_st.statements.len()
    &&& forall|i: int|
        0 <= i < old_st.statements.len() ==> (#[trigger] new_st.statements[i])
            == old_st.statements[i]
    &&& old_st.variants.len() <= new_st.variants.len()
    &&& forall|i: int|
        0 <= i < old_st.variants.len() ==> (#[trigger] new_st.variants[i]) == old_st.variants[i]
    &&& old_st.dependencies.len() <= new_st.dependencies.len()
    &&& forall|i: int|
        0 <= i < old_st.dependencies.len() ==> (#[trigger] new_st.dependencies[i])
            == old_st.dependencies[i]
}

/// An entry found in a table is still found, unchanged, after the table
/// grows by appending.
pub proof fn lemma_find_in_extended<V: KeyedView>(s: Seq<V>, t: Seq<V>, k: Seq<char>)
    requires
        s.len() <= t.len(),
        forall|i: int| 0 <= i < s.len() ==> (#[trigger] t[i]) == s[i],
        map_find(s, k) is Some,
    ensures
        map_find(t, k) == map_find(s, k),
{
    lemma_map_find_some(s, k);
    let i = crate::table::map_index_of(s, k);
    lemma_map_find_at(t, k, i);
}

/// Growth preserves the well-formedness of already-emitted arguments.
proof fn lemma_arg_wf_extends(old_st: ResolveStateView, new_st: ResolveStateView, a: ArgRefView, i: int)
    requires
        st_extends(old_st, new_st),
        spec_arg_wf(old_st, a, i),
        0 <= i <= old_st.statements.len(),
    ensures
        spec_arg_wf(new_st, a, i),
{
    match a {
        ArgRefView::Ident { ident } => {
            let j = choose|j: int| 0 <= j < i && (#[trigger] old_st.statements[j]).ident == ident;
            assert(new_st.statements[j] == old_st.statements[j]);
        },
        ArgRefView::DepField { ident } => {
            lemma_find_in_extended(old_st.dependencies, new_st.dependencies, ident);
        },
        ArgRefView::ConfigField { parts } => {},
    }
}

/// Re-entering a path under resolution closes an actual dependency cycle:
/// the suffix of the resolution stack from the re-entered position,
/// extended with the re-entered declaration's path, is a chain of registry
/// declarations whose first and last paths coincide.
proof fn lemma_cycle_witness(
    reg: BuilderView,
    chain: Seq<ProviderView>,
    stackv: Seq<Seq<char>>,
    prov: ProviderView,
    p: ProviderView,
    idx: int,
)
    requires
        stackv.len() == chain.len(),
        forall|i: int| 0 <= i < chain.len() ==> (#[trigger] chain[i]).struct_type == stackv[i],
        forall|i: int| 0 <= i < chain.len() ==> spec_decl_in_registry(reg, #[trigger] chain[i]),
        forall|i: int|
            1 <= i < chain.len() ==> map_find(reg.providers, (#[trigger] chain[i]).struct_type)
                == Some(chain[i]),
        forall|i: int|
            0 <= i < chain.len() - 1 ==> spec_dep_edge(
                reg,
                #[trigger] chain[i],
                chain[i + 1].struct_type,
            ),
        chain.len() >= 1 ==> spec_dep_edge(reg, chain.last(), prov.struct_type),
        chain.len() >= 1 ==> map_find(reg.providers, prov.struct_type) == Some(prov),
        spec_decl_in_registry(reg, prov),
        spec_dep_edge(reg, prov, p.struct_type),
        map_find(reg.providers, p.struct_type) == Some(p),
        0 <= idx < stackv.len() + 1,
        stackv.push(prov.struct_type)[idx] == p.struct_type,
    ensures
        spec_has_cycle(reg),
        spec_path_cycle(reg, stackv.push(prov.struct_type).skip(idx).push(p.struct_type)),
{
    let chain2 = chain.push(prov);
    let stack2v = stackv.push(prov.struct_type);
    assert forall|i: int|
        0 <= i < chain2.len() implies (#[trigger] chain2[i]).struct_type == stack2v[i] by {
        if i < chain.len() {
            assert(chain2[i] == chain[i]);
        } else {
            assert(chain2[i] == prov);
        }
    }
    let cyc = chain2.subrange(idx, chain2.len() as int).push(p);
    assert(chain2[idx].struct_type == p.struct_type);
    assert(spec_is_chain(reg, cyc)) by {
        assert forall|i: int|
            0 <= i < cyc.len() implies spec_decl_in_registry(reg, #[trigger] cyc[i]) by {
            if i < cyc.len() - 1 {
                assert(cyc[i] == chain2[idx + i]);
                if idx + i < chain.len() {
                    assert(chain2[idx + i] == chain[idx + i]);
                } else {
                    assert(chain2[idx + i] == prov);
                }
            } else {
                assert(cyc[i] == p);
            }
        }
        assert forall|i: int|
            1 <= i < cyc.len() implies map_find(reg.providers, (#[trigger] cyc[i]).struct_type)
            == Some(cyc[i]) by {
            if i < cyc.len() - 1 {
                assert(cyc[i] == chain2[idx + i]);
                if idx + i < chain.len() {
                    assert(chain2[idx + i] == chain[idx + i]);
                } else {
                    assert(chain2[idx + i] == prov);
                }
            } else {
                assert(cyc[i] == p);
            }
        }
        assert forall|i: int|
            0 <= i < cyc.len() - 1 implies spec_dep_edge(
            reg,
            #[trigger] cyc[i],
            cyc[i + 1].struct_type,
        ) by {
            assert(cyc[i] == chain2[idx + i]);
            if idx + i < chain.len() {
                assert(chain2[idx + i] == chain[idx + i]);
            } else {
                assert(chain2[idx + i] == prov);
            }
            if i < cyc.len() - 2 {
                assert(cyc[i + 1] == chain2[idx + i + 1]);
                if idx + i + 1 < chain.len() {
                    assert(chain2[idx + i + 1] == chain[idx + i + 1]);
                } else {
                    assert(chain2[idx + i + 1] == prov);
                }
            } else {
                assert(cyc[i + 1] == p);
            }
        }
    }
    assert(cyc[0].struct_type == cyc.last().struct_type);
    assert(spec_has_cycle(reg));
    assert(cyc.map_values(|d: ProviderView| d.struct_type) =~= stack2v.skip(idx).push(
        p.struct_type,
    )) by {
        assert forall|j: int|
            0 <= j < cyc.len() implies cyc.map_values(|d: ProviderView| d.struct_type)[j]
            == stack2v.skip(idx).push(p.struct_type)[j] by {
            if j < cyc.len() - 1 {
                assert(cyc[j] == chain2[idx + j]);
                assert(chain2[idx + j].struct_type == stack2v[idx + j]);
            } else {
                assert(cyc[j] == p);
            }
        }
    }
    assert(spec_path_cycle(reg, stack2v.skip(idx).push(p.struct_type))) by {
        reveal(spec_path_cycle);
    }
}

/// Registering a fresh manual dependency preserves the run invariant:
/// the new entry's identifier is new, derives from its path, names an
/// unresolvable target, and carries the registering request's data.
proof fn lemma_register_dep(
    reg: BuilderView,
    pre: ResolveStateView,
    post: ResolveStateView,
    dv: DepView,
    prov: ProviderView,
    k: int,
)
    requires
        st_inv(reg, pre),
        post.statements == pre.statements,
        post.variants == pre.variants,
        post.dependencies == pre.dependencies.push(dv),
        map_find(pre.dependencies, dv.ident) is None,
        !spec_target_resolves(reg, dv.path),
        dv.ident == snake_of(spec_last_segment(dv.path)),
        spec_decl_in_registry(reg, prov),
        0 <= k < prov.injects.len(),
        prov.injects[k].manual,
        prov.injects[k].struct_type == dv.path,
        prov.injects[k].trait_object == dv.trait_object,
        prov.injects[k].wrapper_type == dv.wrapper_type,
    ensures
        st_inv(reg, post),
        st_extends(pre, post),
        map_contains(post.dependencies, dv.ident),
{
    reveal(spec_dep_witnessed);
    crate::table::lemma_map_find_none_all(pre.dependencies, dv.ident);
    assert(unique_keys(post.dependencies)) by {
        assert forall|a: int, b: int|
            0 <= a < b < post.dependencies.len() implies post.dependencies[a].key()
            != post.dependencies[b].key() by {
            if b < pre.dependencies.len() {
                assert(post.dependencies[a] == pre.dependencies[a]);
                assert(post.dependencies[b] == pre.dependencies[b]);
            } else {
                assert(post.dependencies[a] == pre.dependencies[a]);
            }
        }
    }
    assert(st_extends(pre, post));
    lemma_map_find_extend(pre.dependencies, seq![dv], dv.ident);
    assert(pre.dependencies + seq![dv] =~= post.dependencies);
    assert(map_find(seq![dv], dv.ident) == Some(dv));
    assert(map_contains(post.dependencies, dv.ident));
    assert(spec_dep_witnessed(reg, dv)) by {
        assert(prov.injects[k].manual && prov.injects[k].struct_type == dv.path
            && prov.injects[k].trait_object == dv.trait_object && prov.injects[k].wrapper_type
            == dv.wrapper_type);
    }
    assert forall|i: int|
        0 <= i < post.dependencies.len() implies {
        &&& !spec_target_resolves(reg, (#[trigger] post.dependencies[i]).path)
        &&& post.dependencies[i].ident == snake_of(spec_last_segment(post.dependencies[i].path))
        &&& spec_dep_witnessed(reg, post.dependencies[i])
    } by {
        if i < pre.dependencies.len() {
            assert(post.dependencies[i] == pre.dependencies[i]);
        } else {
            assert(post.dependencies[i] == dv);
        }
    }
    assert forall|i: int, kk: int|
        #![trigger post.statements[i].args[kk]]
        0 <= i < post.statements.len() && 0 <= kk
            < post.statements[i].args.len() implies spec_arg_wf(
        post,
        post.statements[i].args[kk],
        i,
    ) by {
        lemma_arg_wf_extends(pre, post, post.statements[i].args[kk], i);
    }
    assert forall|i: int|
        0 <= i < post.statements.len() implies spec_stmt_witnessed(reg, post, i) by {
        lemma_stmt_witnessed_extends(reg, pre, post, i);
    }
}

/// A declaration under resolution is needed: the resolution stack is a
/// dependency chain from an entry point down to it.
proof fn lemma_reach_witness(
    reg: BuilderView,
    chain: Seq<ProviderView>,
    prov: ProviderView,
)
    requires
        forall|i: int| 0 <= i < chain.len() ==> spec_decl_in_registry(reg, #[trigger] chain[i]),
        forall|i: int|
            1 <= i < chain.len() ==> map_find(reg.providers, (#[trigger] chain[i]).struct_type)
                == Some(chain[i]),
        forall|i: int|
            0 <= i < chain.len() - 1 ==> spec_dep_edge(
                reg,
                #[trigger] chain[i],
                chain[i + 1].struct_type,
            ),
        chain.len() >= 1 ==> spec_dep_edge(reg, chain.last(), prov.struct_type),
        chain.len() >= 1 ==> map_find(reg.providers, prov.struct_type) == Some(prov),
        spec_decl_in_registry(reg, prov),
        chain.len() == 0 ==> spec_is_entry(reg, prov),
        chain.len() >= 1 ==> spec_is_entry(reg, chain[0]),
    ensures
        spec_entry_reachable(reg, prov.struct_type),
{
    reveal(spec_entry_reachable);
    let ds = chain.push(prov);
    assert(spec_is_chain(reg, ds)) by {
        assert forall|i: int|
            0 <= i < ds.len() implies spec_decl_in_registry(reg, #[trigger] ds[i]) by {
            if i < chain.len() {
                assert(ds[i] == chain[i]);
            } else {
                assert(ds[i] == prov);
            }
        }
        assert forall|i: int|
            1 <= i < ds.len() implies map_find(reg.providers, (#[trigger] ds[i]).struct_type)
            == Some(ds[i]) by {
            if i < chain.len() {
                assert(ds[i] == chain[i]);
            } else {
                assert(ds[i] == prov);
            }
        }
        assert forall|i: int|
            0 <= i < ds.len() - 1 implies spec_dep_edge(
            reg,
            #[trigger] ds[i],
            ds[i + 1].struct_type,
        ) by {
            assert(ds[i] == chain[i]);
            if i < ds.len() - 2 {
                assert(ds[i + 1] == chain[i + 1]);
            } else {
                assert(ds[i + 1] == prov);
            }
        }
    }
    assert(ds[0] == if chain.len() == 0 { prov } else { chain[0] });
    assert(ds.last() == prov);
}

/// A chain's declarations carry pairwise distinct paths no longer than the
/// registry: all but the first are distinct registered keys.
proof fn lemma_chain_len(reg: BuilderView, ds: Seq<ProviderView>)
    requires
        unique_keys(reg.providers),
        forall|i: int|
            1 <= i < ds.len() ==> map_contains(reg.providers, (#[trigger] ds[i]).struct_type),
        forall|i: int, j: int| 0 <= i < j < ds.len() ==> ds[i].struct_type != ds[j].struct_type,
    ensures
        ds.len() <= reg.providers.len() + 1,
{
    if ds.len() >= 2 {
        let paths = ds.drop_first().map_values(|d: ProviderView| d.struct_type);
        let keys = reg.providers.map_values(|p: ProviderView| p.key());
        assert(paths.no_duplicates()) by {
            assert forall|i: int, j: int|
                0 <= i < j < paths.len() implies paths[i] != paths[j] by {
                assert(paths[i] == ds[i + 1].struct_type);
                assert(paths[j] == ds[j + 1].struct_type);
            }
        }
        assert(keys.no_duplicates()) by {
            assert forall|i: int, j: int| 0 <= i < j < keys.len() implies keys[i] != keys[j] by {
                assert(keys[i] == reg.providers[i].key());
                assert(keys[j] == reg.providers[j].key());
            }
        }
        paths.unique_seq_to_set();
        keys.unique_seq_to_set();
        assert(paths.to_set().subset_of(keys.to_set())) by {
            assert forall|p: Seq<char>| paths.to_set().contains(p) implies keys.to_set().contains(
                p,
            ) by {
                let i = choose|i: int| 0 <= i < paths.len() && paths[i] == p;
                assert(map_contains(reg.providers, ds[i + 1].struct_type));
                lemma_map_find_some(reg.providers, p);
                let j = crate::table::map_index_of(reg.providers, p);
                assert(keys[j] == p);
            }
        }
        vstd::set_lib::lemma_len_subset(paths.to_set(), keys.to_set());
    }
}

impl Builder {
    /// Resolves one request's target: the capability table first (first
    /// implementer in discovery order wins), then the declaration map, as
    /// `spec_lookup_target` says.
    pub fn extract_struct_type(&self, inject: &Inject) -> (r: Option<String>)
        requires
            self@.wf(),
        ensures
            match r {
                Some(p) => spec_lookup_target(self@, inject.struct_type@) == Some(p@),
                None => spec_lookup_target(self@, inject.struct_type@) is None,
            },
    {
        match map_get(&self.implements, &inject.struct_type) {
            Some(b) => {
                proof {
                    lemma_map_find_some(self@.implements, inject.struct_type@);
                }
                Some(b.implementers[0].clone())
            },
            None => {
                match map_get(&self.providers, &inject.struct_type) {
                    Some(_) => Some(inject.struct_type.clone()),
                    None => None,
                }
            },
        }
    }
}

/// Growth preserves what an already-emitted argument was resolved to.
proof fn lemma_arg_matches_extends(
    reg: BuilderView,
    old_st: ResolveStateView,
    new_st: ResolveStateView,
    inj: InjectView,
    a: ArgRefView,
)
    requires
        spec_arg_matches(reg, old_st, inj, a),
        st_extends(old_st, new_st),
    ensures
        spec_arg_matches(reg, new_st, inj, a),
{
    match spec_resolve_target(reg, inj.struct_type) {
        Some(p) => {
            if p.metadata.config is None {
                lemma_find_in_extended(old_st.variants, new_st.variants, p.struct_type);
            }
        },
        None => {
            lemma_find_in_extended(
                old_st.dependencies,
                new_st.dependencies,
                snake_of(spec_last_segment(inj.struct_type)),
            );
        },
    }
}

/// Growth preserves a statement's witness.
proof fn lemma_stmt_witnessed_extends(
    reg: BuilderView,
    old_st: ResolveStateView,
    new_st: ResolveStateView,
    i: int,
)
    requires
        spec_stmt_witnessed(reg, old_st, i),
        st_extends(old_st, new_st),
        0 <= i < old_st.statements.len(),
    ensures
        spec_stmt_witnessed(reg, new_st, i),
{
    reveal(spec_stmt_witnessed);
    let d = choose|d: ProviderView|
        #![trigger spec_decl_in_registry(reg, d)]
        {
            &&& spec_decl_in_registry(reg, d)
            &&& d.struct_type == old_st.statements[i].path
            &&& old_st.statements[i].ident == spec_provider_ident(d)
            &&& old_st.statements[i].shared == !d.metadata.export
            &&& d.metadata.config is None
            &&& old_st.statements[i].args.len() == d.injects.len()
            &&& forall|k: int|
                0 <= k < d.injects.len() ==> spec_arg_matches(
                    reg,
                    old_st,
                    d.injects[k],
                    #[trigger] old_st.statements[i].args[k],
                )
        };
    assert(new_st.statements[i] == old_st.statements[i]);
    assert forall|k: int|
        0 <= k < d.injects.len() implies spec_arg_matches(
        reg,
        new_st,
        d.injects[k],
        #[trigger] new_st.statements[i].args[k],
    ) by {
        lemma_arg_matches_extends(reg, old_st, new_st, d.injects[k], old_st.statements[i].args[k]);
    }
}

/// Growth composes.
proof fn lemma_st_extends_trans(a: ResolveStateView, b: ResolveStateView, c: ResolveStateView)
    requires
        st_extends(a, b),
        st_extends(b, c),
    ensures
        st_extends(a, c),
{
    assert forall|i: int| 0 <= i < a.statements.len() implies (#[trigger] c.statements[i])
        == a.statements[i] by {
        assert(b.statements[i] == a.statements[i]);
    }
    assert forall|i: int| 0 <= i < a.variants.len() implies (#[trigger] c.variants[i])
        == a.variants[i] by {
        assert(b.variants[i] == a.variants[i]);
    }
    assert forall|i: int| 0 <= i < a.dependencies.len() implies (#[trigger] c.dependencies[i])
        == a.dependencies[i] by {
        assert(b.dependencies[i] == a.dependencies[i]);
    }
}


/// Emitting a declaration's own statement and caching its identifier
/// preserves the run invariant and what was already emitted.
proof fn lemma_emit_statement(
    reg: BuilderView,
    st0: ResolveStateView,
    pre: ResolveStateView,
    post: ResolveStateView,
    prov: ProviderView,
    nv: VariantView,
    ns: StatementView,
)
    requires
        st_inv(reg, pre),
        st_extends(st0, pre),
        post.variants == pre.variants.push(nv),
        post.statements == pre.statements.push(ns),
        post.dependencies == pre.dependencies,
        nv.path == prov.struct_type,
        nv.ident == spec_provider_ident(prov),
        nv.export == prov.metadata.export,
        ns.path == prov.struct_type,
        ns.ident == nv.ident,
        ns.shared == !prov.metadata.export,
        ns.args.len() == prov.injects.len(),
        forall|k: int|
            0 <= k < prov.injects.len() ==> spec_arg_matches(
                reg,
                pre,
                prov.injects[k],
                #[trigger] ns.args[k],
            ),
        spec_decl_in_registry(reg, prov),
        prov.metadata.config is None,
        !map_contains(pre.variants, prov.struct_type),
    ensures
        st_inv(reg, post),
        st_extends(st0, post),
        st_extends(pre, post),
        post.statements.len() == pre.statements.len() + 1,
        post.statements.last() == ns,
        map_find(post.variants, prov.struct_type) == Some(nv),
        forall|k: int|
            0 <= k < prov.injects.len() ==> spec_arg_matches(
                reg,
                post,
                prov.injects[k],
                #[trigger] ns.args[k],
            ),
        forall|q: Seq<char>|
            q != prov.struct_type && !map_contains(pre.variants, q) ==> !(#[trigger] map_contains(
                post.variants,
                q,
            )),
{
    reveal(spec_stmt_witnessed);
    crate::table::lemma_map_find_none_all(pre.variants, prov.struct_type);
    lemma_map_find_extend(pre.variants, seq![nv], prov.struct_type);
    assert(pre.variants + seq![nv] =~= post.variants);
    assert(map_find(seq![nv], prov.struct_type) == Some(nv));
    assert(map_find(post.variants, prov.struct_type) == Some(nv));
    assert(st_extends(pre, post));
    lemma_st_extends_trans(st0, pre, post);
    // the cache stays keyed by distinct paths
    assert(unique_keys(post.variants)) by {
        assert forall|a: int, b: int|
            0 <= a < b < post.variants.len() implies post.variants[a].key()
            != post.variants[b].key() by {
            if b < pre.variants.len() {
                assert(post.variants[a] == pre.variants[a]);
                assert(post.variants[b] == pre.variants[b]);
            } else {
                assert(post.variants[a] == pre.variants[a]);
                assert(post.variants[b] == nv);
            }
        }
    }
    // the emitted arguments still match in the new state
    assert forall|k: int|
        0 <= k < prov.injects.len() implies spec_arg_matches(
        reg,
        post,
        prov.injects[k],
        #[trigger] ns.args[k],
    ) by {
        lemma_arg_matches_extends(reg, pre, post, prov.injects[k], ns.args[k]);
    }
    // each statement is witnessed by a registered declaration
    assert forall|i: int|
        0 <= i < post.statements.len() implies spec_stmt_witnessed(reg, post, i) by {
        if i < pre.statements.len() {
            lemma_stmt_witnessed_extends(reg, pre, post, i);
        } else {
            assert(post.statements[i] == ns);
            assert(spec_decl_in_registry(reg, prov) && prov.struct_type == ns.path && ns.ident
                == spec_provider_ident(prov) && ns.shared == !prov.metadata.export
                && prov.metadata.config is None && ns.args.len() == prov.injects.len());
            assert(forall|k: int|
                0 <= k < prov.injects.len() ==> spec_arg_matches(
                    reg,
                    post,
                    prov.injects[k],
                    #[trigger] post.statements[i].args[k],
                ));
        }
    }
    // every argument of every statement is well formed
    assert forall|i: int, kk: int|
        #![trigger post.statements[i].args[kk]]
        0 <= i < post.statements.len() && 0 <= kk
            < post.statements[i].args.len() implies spec_arg_wf(
        post,
        post.statements[i].args[kk],
        i,
    ) by {
        if i < pre.statements.len() {
            assert(post.statements[i] == pre.statements[i]);
            lemma_arg_wf_extends(pre, post, pre.statements[i].args[kk], i);
        } else {
            assert(post.statements[i] == ns);
            let a = ns.args[kk];
            assert(spec_arg_matches(reg, pre, prov.injects[kk], a));
            match spec_resolve_target(reg, prov.injects[kk].struct_type) {
                Some(pd) => {
                    if pd.metadata.config is Some {
                        assert(a == (ArgRefView::ConfigField {
                            parts: spec_config_parts(pd.metadata.config->Some_0),
                        }));
                        assert(spec_config_parts(pd.metadata.config->Some_0)[0] == "config"@);
                    } else {
                        lemma_map_find_some(pre.variants, pd.struct_type);
                        let j = crate::table::map_index_of(pre.variants, pd.struct_type);
                        assert(pre.variants[j].ident == a->Ident_ident);
                        assert(post.statements[j].ident == a->Ident_ident);
                    }
                },
                None => {
                    lemma_find_in_extended(pre.dependencies, post.dependencies, a->DepField_ident);
                },
            }
        }
    }
    // no other path becomes cached
    assert forall|q: Seq<char>|
        q != prov.struct_type && !map_contains(pre.variants, q) implies !(#[trigger] map_contains(
        post.variants,
        q,
    )) by {
        lemma_map_find_extend(pre.variants, seq![nv], q);
        assert(seq![nv][0] == nv);
        assert(seq![nv].drop_first() =~= Seq::<VariantView>::empty());
        assert(map_find(Seq::<VariantView>::empty(), q) is None);
        assert(map_find(seq![nv].drop_first(), q) is None);
        assert(map_find(seq![nv], q) is None);
    }
}

impl Builder {
    /// Resolves one declaration. A configuration-sourced declaration
    /// becomes a configuration field path: no statement, no caching, no
    /// recursion. An already-cached path reuses its identifier and emits
    /// nothing. Otherwise every request is resolved in declared member
    /// order - appending, post-order, the statements its construction
    /// needs - then the declaration's own statement is appended and its
    /// path cached. `stack` holds the paths of the declarations currently
    /// under resolution; re-entering one is reported as a cycle with the
    /// full chain. `chain` is the stack's ghost counterpart, carrying the
    /// declarations themselves.
    #[verifier::loop_isolation(false)]
    #[verifier::rlimit(100)]
    fn build_provider(
        &self,
        provider: &Provider,
        stack: &Vec<String>,
        chain: Ghost<Seq<ProviderView>>,
        st: &mut ResolveState,
    ) -> (r: Result<ArgRef, WireError>)
        requires
            self@.wf(),
            st_inv(self@, old(st)@),
            spec_decl_in_registry(self@, provider@),
            views(stack@).len() == chain@.len(),
            forall|i: int|
                0 <= i < chain@.len() ==> (#[trigger] chain@[i]).struct_type == views(stack@)[i],
            forall|i: int|
                0 <= i < chain@.len() ==> spec_decl_in_registry(self@, #[trigger] chain@[i]),
            forall|i: int|
                1 <= i < chain@.len() ==> map_find(
                    self@.providers,
                    (#[trigger] chain@[i]).struct_type,
                ) == Some(chain@[i]),
            forall|i: int, j: int|
                0 <= i < j < chain@.len() ==> chain@[i].struct_type != chain@[j].struct_type,
            forall|i: int|
                0 <= i < chain@.len() - 1 ==> spec_dep_edge(
                    self@,
                    #[trigger] chain@[i],
                    chain@[i + 1].struct_type,
                ),
            chain@.len() >= 1 ==> spec_dep_edge(self@, chain@.last(), provider@.struct_type),
            chain@.len() >= 1 ==> map_find(self@.providers, provider@.struct_type) == Some(
                provider@,
            ),
            forall|i: int|
                0 <= i < chain@.len() ==> (#[trigger] chain@[i]).struct_type
                    != provider@.struct_type,
            chain@.len() == 0 ==> spec_is_entry(self@, provider@),
            chain@.len() >= 1 ==> spec_is_entry(self@, chain@[0]),
        ensures
            st_inv(self@, final(st)@),
            st_extends(old(st)@, final(st)@),
            forall|j: int|
                old(st)@.statements.len() <= j < final(st)@.statements.len()
                    ==> spec_entry_reachable(self@, (#[trigger] final(st)@.statements[j]).path),
            forall|p: Seq<char>|
                views(stack@).contains(p) && !map_contains(old(st)@.variants, p)
                    ==> !(#[trigger] map_contains(final(st)@.variants, p)),
            (match provider@.metadata.config {
                Some(key) => final(st)@ == old(st)@ && (r matches Ok(a) && a@ == (
                ArgRefView::ConfigField { parts: spec_config_parts(key) })),
                None => true,
            }),
            (provider@.metadata.config is None && r is Ok) ==> {
                &&& map_find(final(st)@.variants, provider@.struct_type) is Some
                &&& (r matches Ok(a) && a@ == (ArgRefView::Ident {
                    ident: map_find(final(st)@.variants, provider@.struct_type)->Some_0.ident,
                }))
            },
            (provider@.metadata.config is None && map_contains(
                old(st)@.variants,
                provider@.struct_type,
            )) ==> final(st)@ == old(st)@,
            (provider@.metadata.config is None && !map_contains(
                old(st)@.variants,
                provider@.struct_type,
            ) && r is Ok) ==> {
                &&& final(st)@.statements.len() > old(st)@.statements.len()
                &&& final(st)@.statements.last().path == provider@.struct_type
                &&& final(st)@.statements.last().ident == spec_provider_ident(provider@)
                &&& final(st)@.statements.last().shared == !provider@.metadata.export
                &&& final(st)@.statements.last().args.len() == provider@.injects.len()
                &&& forall|k: int|
                    0 <= k < provider@.injects.len() ==> spec_arg_matches(
                        self@,
                        final(st)@,
                        provider@.injects[k],
                        #[trigger] final(st)@.statements.last().args[k],
                    )
                &&& map_find(final(st)@.variants, provider@.struct_type) == Some(
                    VariantView {
                        path: provider@.struct_type,
                        ident: spec_provider_ident(provider@),
                        export: provider@.metadata.export,
                    },
                )
            },
            (match r {
                Err(e) => spec_error_characterized(self@, e),
                _ => true,
            }),
            (!spec_has_cycle(self@) && spec_all_deps_resolve(self@)) ==> r is Ok,
        decreases self.providers@.len() + 1 - stack@.len(),
    {
        let ghost reg = self@;
        let ghost st0 = old(st)@;
        // configuration-sourced: a field path, never cached, never recursed
        match &provider.metadata.config {
            Some(key) => {
                let mut parts = split_on(key.as_str(), '.');
                parts.insert(0, "config".to_owned());
                proof {
                    assert(views(parts@) =~= spec_config_parts(key@));
                }
                return Ok(ArgRef::ConfigField { parts });
            },
            None => {},
        }
        // already cached: reuse the singleton's identifier
        match map_get(&st.variants, &provider.struct_type) {
            Some(v) => {
                let ident = v.ident.clone();
                return Ok(ArgRef::Ident { ident });
            },
            None => {},
        }
        // this declaration is now under resolution
        let mut stack2 = crate::text::clone_string_vec(stack);
        stack2.push(provider.struct_type.clone());
        let ghost chain2 = chain@.push(provider@);
        proof {
            assert(views(stack2@) =~= views(stack@).push(provider@.struct_type));
            lemma_chain_len(reg, chain2);
        }
        let mut args: Vec<ArgRef> = Vec::new();
        let mut k: usize = 0;
        while k < provider.injects.len()
            invariant
                0 <= k <= provider.injects@.len(),
                st_inv(reg, st@),
                st_extends(st0, st@),
                args@.len() == k,
                forall|x: int|
                    0 <= x < k ==> spec_arg_matches(
                        reg,
                        st@,
                        provider@.injects[x],
                        #[trigger] views(args@)[x],
                    ),
                forall|p: Seq<char>|
                    views(stack2@).contains(p) && !map_contains(st0.variants, p) ==> !(
                #[trigger] map_contains(st@.variants, p)),
                !map_contains(st@.variants, provider@.struct_type),
                forall|j: int|
                    st0.statements.len() <= j < st@.statements.len() ==> spec_entry_reachable(
                        self@,
                        (#[trigger] st@.statements[j]).path,
                    ),
            decreases provider.injects@.len() - k,
        {
            let ghost stk = st@;
            let inject = &provider.injects[k];
            proof {
                assert(views(provider.injects@)[k as int] == inject@);
            }
            match self.extract_struct_type(inject) {
                None => {
                    if inject.manual {
                        let d = inject.build_dep();
                        let ghost dv = d@;
                        let arg_ident = d.ident.clone();
                        let ghost args_before = views(args@);
                        match map_get(&st.dependencies, &d.ident) {
                            Some(_) => {
                                args.push(ArgRef::DepField { ident: arg_ident });
                                proof {
                                    assert(views(args@) =~= args_before.push(
                                        ArgRefView::DepField { ident: dv.ident },
                                    ));
                                }
                            },
                            None => {
                                args.push(ArgRef::DepField { ident: arg_ident });
                                let ghost deps_before = st@.dependencies;
                                st.dependencies.push(d);
                                proof {
                                    assert(st@.dependencies =~= deps_before.push(dv));
                                    lemma_register_dep(reg, stk, st@, dv, provider@, k as int);
                                    assert(views(args@) =~= args_before.push(
                                        ArgRefView::DepField { ident: dv.ident },
                                    ));
                                }
                            },
                        }
                        proof {
                            lemma_st_extends_trans(st0, stk, st@);
                            assert forall|x: int|
                                0 <= x < k + 1 implies spec_arg_matches(
                                reg,
                                st@,
                                provider@.injects[x],
                                #[trigger] views(args@)[x],
                            ) by {
                                if x < k {
                                    lemma_arg_matches_extends(
                                        reg,
                                        stk,
                                        st@,
                                        provider@.injects[x],
                                        views(args@)[x],
                                    );
                                } else {
                                    assert(views(args@)[x] == (ArgRefView::DepField {
                                        ident: dv.ident,
                                    }));
                                }
                            }
                        }
                    } else {
                        let err = WireError::MissingProvider { path: inject.struct_type.clone() };
                        proof {
                            if spec_all_deps_resolve(reg) {
                                assert((provider@.injects[k as int].manual && spec_lookup_target(
                                    reg,
                                    provider@.injects[k as int].struct_type,
                                ) is None) || spec_target_resolves(
                                    reg,
                                    provider@.injects[k as int].struct_type,
                                ));
                            }
                            assert(spec_failing_request(self@, inject@.struct_type)) by {
                                reveal(spec_failing_request);
                                assert(spec_decl_in_registry(self@, provider@));
                                assert(provider@.injects[k as int].struct_type
                                    == inject@.struct_type);
                                assert(!provider@.injects[k as int].manual);
                            }
                            assert(spec_error_characterized(self@, err)) by {
                                reveal(spec_error_characterized);
                            }
                            assert forall|p: Seq<char>|
                                views(stack@).contains(p) && !map_contains(
                                    st0.variants,
                                    p,
                                ) implies !(#[trigger] map_contains(st@.variants, p)) by {
                                let j = choose|j: int|
                                    0 <= j < views(stack@).len() && views(stack@)[j] == p;
                                assert(views(stack2@)[j] == p);
                                assert(views(stack2@).contains(p));
                            }
                        }
                        return Err(err);
                    }
                },
                Some(path) => {
                    match map_get(&self.providers, &path) {
                        None => {
                            let err = WireError::MissingProvider {
                                path: inject.struct_type.clone(),
                            };
                            proof {
                                if spec_all_deps_resolve(reg) {
                                    assert((provider@.injects[k as int].manual
                                        && spec_lookup_target(
                                        reg,
                                        provider@.injects[k as int].struct_type,
                                    ) is None) || spec_target_resolves(
                                        reg,
                                        provider@.injects[k as int].struct_type,
                                    ));
                                }
                                assert(spec_failing_request(self@, inject@.struct_type)) by {
                                    reveal(spec_failing_request);
                                    assert(spec_decl_in_registry(self@, provider@));
                                    assert(provider@.injects[k as int].struct_type
                                        == inject@.struct_type);
                                    assert(spec_lookup_target(
                                        self@,
                                        provider@.injects[k as int].struct_type,
                                    ) is Some);
                                }
                                assert(spec_error_characterized(self@, err)) by {
                                    reveal(spec_error_characterized);
                                }
                                assert forall|p: Seq<char>|
                                    views(stack@).contains(p) && !map_contains(
                                        st0.variants,
                                        p,
                                    ) implies !(#[trigger] map_contains(st@.variants, p)) by {
                                    let j = choose|j: int|
                                        0 <= j < views(stack@).len() && views(stack@)[j] == p;
                                    assert(views(stack2@)[j] == p);
                                    assert(views(stack2@).contains(p));
                                }
                            }
                            return Err(err);
                        },
                        Some(p) => {
                            proof {
                                lemma_map_find_some(reg.providers, path@);
                                assert(p@.struct_type == path@);
                                assert(spec_resolve_target(reg, inject@.struct_type) == Some(p@));
                            }
                            // cycle check: re-entering a path under resolution
                            let mut ci: usize = 0;
                            let mut in_stack = false;
                            let ghost mut cyc_idx: int = 0;
                            while ci < stack2.len()
                                invariant
                                    0 <= ci <= stack2@.len(),
                                    !in_stack ==> forall|j: int|
                                        0 <= j < ci ==> views(stack2@)[j] != path@,
                                    in_stack ==> 0 <= cyc_idx < stack2@.len() && views(
                                        stack2@,
                                    )[cyc_idx] == path@,
                                decreases stack2@.len() - ci,
                            {
                                if string_eq(&stack2[ci], &path) {
                                    in_stack = true;
                                    proof {
                                        cyc_idx = ci as int;
                                    }
                                }
                                ci = ci + 1;
                            }
                            if in_stack {
                                proof {
                                    assert(spec_dep_edge(reg, provider@, p@.struct_type)) by {
                                        assert(spec_resolve_target(
                                            reg,
                                            provider@.injects[k as int].struct_type,
                                        ) == Some(p@));
                                    }
                                    lemma_cycle_witness(
                                        reg,
                                        chain@,
                                        views(stack@),
                                        provider@,
                                        p@,
                                        cyc_idx,
                                    );
                                    assert forall|q: Seq<char>|
                                        views(stack@).contains(q) && !map_contains(
                                            st0.variants,
                                            q,
                                        ) implies !(#[trigger] map_contains(
                                        st@.variants,
                                        q,
                                    )) by {
                                        let j = choose|j: int|
                                            0 <= j < views(stack@).len() && views(stack@)[j] == q;
                                        assert(views(stack2@)[j] == q);
                                        assert(views(stack2@).contains(q));
                                    }
                                }
                                let ghost pathv = path@;
                                let mut cyc_chain = crate::text::clone_string_vec(&stack2);
                                cyc_chain.push(path);
                                let ghost chainv = views(cyc_chain@);
                                proof {
                                    assert(chainv =~= views(stack2@).push(pathv));
                                    assert(chainv.skip(cyc_idx) =~= views(stack2@).skip(
                                        cyc_idx,
                                    ).push(pathv));
                                    assert(chainv[cyc_idx] == pathv);
                                    assert(chainv.last() == pathv);
                                    assert(chainv.len() >= 2);
                                    assert(spec_path_cycle(self@, chainv.skip(cyc_idx)));
                                }
                                let err = WireError::DependencyCycle { chain: cyc_chain };
                                proof {
                                    assert(spec_error_characterized(self@, err)) by {
                                        reveal(spec_error_characterized);
                                        assert(views(err->DependencyCycle_chain@) == chainv);
                                        assert(views(err->DependencyCycle_chain@)[cyc_idx]
                                            == views(err->DependencyCycle_chain@).last());
                                    }
                                }
                                return Err(err);
                            }
                            // resolve the dependency first: post-order
                            proof {
                                assert forall|j: int|
                                    0 <= j < chain2.len() implies (#[trigger] chain2[j]).struct_type
                                        != path@ by {
                                    if j < chain@.len() {
                                        assert(chain2[j] == chain@[j]);
                                        assert(views(stack2@)[j] == views(stack@)[j]);
                                    } else {
                                        assert(chain2[j] == provider@);
                                    }
                                    assert(chain2[j].struct_type == views(stack2@)[j]);
                                }
                                assert(chain2.last() == provider@);
                                assert(spec_dep_edge(reg, provider@, p@.struct_type)) by {
                                    assert(spec_resolve_target(
                                        reg,
                                        provider@.injects[k as int].struct_type,
                                    ) == Some(p@));
                                }
                                if chain@.len() == 0 {
                                    assert(chain2[0] == provider@);
                                } else {
                                    assert(chain2[0] == chain@[0]);
                                }
                                lemma_chain_len(reg, chain2.push(p@));
                            }
                            let sub = self.build_provider(p, &stack2, Ghost(chain2), st);
                            match sub {
                                Ok(a) => {
                                    let ghost av = a@;
                                    let ghost args_before = views(args@);
                                    args.push(a);
                                    proof {
                                        lemma_st_extends_trans(st0, stk, st@);
                                        assert(views(args@) =~= args_before.push(av));
                                        assert(spec_arg_matches(
                                            reg,
                                            st@,
                                            provider@.injects[k as int],
                                            av,
                                        ));
                                        assert forall|x: int|
                                            0 <= x < k + 1 implies spec_arg_matches(
                                            reg,
                                            st@,
                                            provider@.injects[x],
                                            #[trigger] views(args@)[x],
                                        ) by {
                                            if x < k {
                                                lemma_arg_matches_extends(
                                                    reg,
                                                    stk,
                                                    st@,
                                                    provider@.injects[x],
                                                    views(args@)[x],
                                                );
                                            }
                                        }
                                        assert(!map_contains(st@.variants, provider@.struct_type))
                                            by {
                                            assert(views(stack2@).contains(provider@.struct_type))
                                                by {
                                                assert(views(stack2@).last()
                                                    == provider@.struct_type);
                                            }
                                        }
                                        assert forall|j: int|
                                            st0.statements.len() <= j
                                                < st@.statements.len() implies spec_entry_reachable(
                                            self@,
                                            (#[trigger] st@.statements[j]).path,
                                        ) by {
                                            if j < stk.statements.len() {
                                                assert(st@.statements[j] == stk.statements[j]);
                                            }
                                        }
                                    }
                                },
                                Err(e) => {
                                    proof {
                                        assert forall|p: Seq<char>|
                                            views(stack@).contains(p) && !map_contains(
                                                st0.variants,
                                                p,
                                            ) implies !(#[trigger] map_contains(
                                            st@.variants,
                                            p,
                                        )) by {
                                            let j = choose|j: int|
                                                0 <= j < views(stack@).len() && views(
                                                    stack@,
                                                )[j] == p;
                                            assert(views(stack2@)[j] == p);
                                            assert(views(stack2@).contains(p));
                                        }
                                        assert forall|j: int|
                                            st0.statements.len() <= j
                                                < st@.statements.len() implies spec_entry_reachable(
                                            self@,
                                            (#[trigger] st@.statements[j]).path,
                                        ) by {
                                            if j < stk.statements.len() {
                                                assert(st@.statements[j] == stk.statements[j]);
                                            }
                                        }
                                    }
                                    return Err(e);
                                },
                            }
                        },
                    }
                },
            }
            k = k + 1;
        }
        // emit this declaration's statement and cache its identifier
        let ident = match &provider.metadata.rename {
            Some(rn) => rn.clone(),
            None => to_snake_case(provider.ident.as_str()),
        };
        let export = provider.metadata.export;
        let ghost pre = st@;
        let new_variant = Variant {
            path: provider.struct_type.clone(),
            ident: ident.clone(),
            export,
        };
        let ghost nv = new_variant@;
        st.variants.push(new_variant);
        let new_stmt = Statement {
            ident: ident.clone(),
            path: provider.struct_type.clone(),
            shared: !export,
            args,
        };
        let ghost ns = new_stmt@;
        st.statements.push(new_stmt);
        proof {
            assert(st@.variants =~= pre.variants.push(nv));
            assert(st@.statements =~= pre.statements.push(ns));
            assert(nv.ident == spec_provider_ident(provider@));
            lemma_emit_statement(reg, st0, pre, st@, provider@, nv, ns);
            lemma_reach_witness(reg, chain@, provider@);
            assert forall|j: int|
                st0.statements.len() <= j < st@.statements.len() implies spec_entry_reachable(
                self@,
                (#[trigger] st@.statements[j]).path,
            ) by {
                if j < pre.statements.len() {
                    assert(st@.statements[j] == pre.statements[j]);
                } else {
                    assert(st@.statements[j] == ns);
                    assert(spec_entry_reachable(reg, ns.path));
                }
            }
            assert forall|q: Seq<char>|
                views(stack@).contains(q) && !map_contains(st0.variants, q) implies !(
            #[trigger] map_contains(st@.variants, q)) by {
                let j = choose|j: int| 0 <= j < views(stack@).len() && views(stack@)[j] == q;
                assert(views(stack2@)[j] == q);
                assert(views(stack2@).contains(q));
                assert(!map_contains(pre.variants, q));
                assert(chain@[j].struct_type == q);
                assert(q != provider@.struct_type);
            }
        }
        Ok(ArgRef::Ident { ident })
    }
}

/// The keys a configuration-field list already holds.
pub open spec fn spec_keyset(s: Seq<ConfigFieldView>) -> Set<Seq<char>> {
    Set::new(|k: Seq<char>| map_contains(s, k))
}

/// The configuration fields the registry's declarations contribute, in
/// registry order, one per distinct configuration key (the first
/// declaration with a key wins), skipping keys in `seen`.
pub open spec fn spec_config_fields_excl(ps: Seq<ProviderView>, seen: Set<Seq<char>>) -> Seq<
    ConfigFieldView,
>
    decreases ps.len(),
{
    if ps.len() == 0 {
        Seq::empty()
    } else {
        match ps[0].metadata.config {
            Some(key) => if seen.contains(key) {
                spec_config_fields_excl(ps.drop_first(), seen)
            } else {
                seq![ConfigFieldView { key: key, path: ps[0].struct_type }]
                    + spec_config_fields_excl(ps.drop_first(), seen.insert(key))
            },
            None => spec_config_fields_excl(ps.drop_first(), seen),
        }
    }
}

/// One configuration field per distinct configuration key discovered
/// anywhere in the registry, in registry order.
pub open spec fn spec_config_fields(ps: Seq<ProviderView>) -> Seq<ConfigFieldView> {
    spec_config_fields_excl(ps, Set::empty())
}

/// A plan's state: its statements, the singleton cache they define (one
/// entry per statement, in order), and its manual dependencies.
pub open spec fn spec_plan_state(p: PlanView) -> ResolveStateView {
    ResolveStateView {
        statements: p.statements,
        variants: p.statements.map_values(
            |s: StatementView| VariantView { path: s.path, ident: s.ident, export: !s.shared },
        ),
        dependencies: p.deps,
    }
}

/// Every statement of the plan is fully witnessed by a registered,
/// non-configuration declaration: the statement binds that declaration's
/// generated identifier, is shared unless exported, and carries one
/// argument per dependency request, each resolved against the plan's own
/// cache and manual dependencies, as `spec_arg_matches` says.
pub open spec fn spec_stmt_constructs_registered(reg: BuilderView, p: PlanView) -> bool {
    forall|i: int|
        0 <= i < p.statements.len() ==> spec_stmt_witnessed(reg, spec_plan_state(p), i)
}

/// Every argument of every statement refers to an earlier statement's
/// identifier, a registered manual dependency, or a configuration field.
pub open spec fn spec_plan_args_wf(p: PlanView) -> bool {
    forall|i: int, k: int|
        #![trigger p.statements[i].args[k]]
        0 <= i < p.statements.len() && 0 <= k < p.statements[i].args.len() ==> spec_arg_wf(
            ResolveStateView {
                statements: p.statements,
                variants: Seq::empty(),
                dependencies: p.deps,
            },
            p.statements[i].args[k],
            i,
        )
}

impl Builder {
    /// Collects the configuration fields: one per distinct configuration
    /// key, in registry order, as `spec_config_fields` says.
    #[verifier::loop_isolation(false)]
    pub fn generate_config(&self) -> (r: Vec<ConfigField>)
        ensures
            views(r@) == spec_config_fields(self@.providers),
            unique_keys(views(r@)),
    {
        let ghost ps = self@.providers;
        let mut out: Vec<ConfigField> = Vec::new();
        let mut i: usize = 0;
        proof {
            assert(views(out@) =~= Seq::<ConfigFieldView>::empty());
            assert(ps.skip(0) =~= ps);
            assert(spec_keyset(views(out@)) =~= Set::<Seq<char>>::empty());
        }
        while i < self.providers.len()
            invariant
                0 <= i <= ps.len(),
                unique_keys(views(out@)),
                spec_config_fields(ps) == views(out@) + spec_config_fields_excl(
                    ps.skip(i as int),
                    spec_keyset(views(out@)),
                ),
            decreases ps.len() - i,
        {
            proof {
                assert(ps.skip(i as int)[0] == ps[i as int]);
                assert(ps.skip(i as int).drop_first() =~= ps.skip(i + 1));
            }
            match &self.providers[i].metadata.config {
                Some(key) => {
                    match map_get(&out, key) {
                        Some(_) => {
                            proof {
                                assert(spec_keyset(views(out@)).contains(key@));
                            }
                        },
                        None => {
                            let ghost before = views(out@);
                            let cf = ConfigField {
                                key: key.clone(),
                                path: self.providers[i].struct_type.clone(),
                            };
                            let ghost cfv = cf@;
                            out.push(cf);
                            proof {
                                assert(views(out@) =~= before.push(cfv));
                                assert(before.push(cfv) =~= before + seq![cfv]);
                                crate::table::lemma_map_find_none_all(before, key@);
                                assert(unique_keys(views(out@))) by {
                                    assert forall|a: int, b: int|
                                        0 <= a < b < views(out@).len() implies views(
                                        out@,
                                    )[a].key() != views(out@)[b].key() by {
                                        if b < before.len() {
                                            assert(views(out@)[a] == before[a]);
                                            assert(views(out@)[b] == before[b]);
                                        } else {
                                            assert(views(out@)[a] == before[a]);
                                        }
                                    }
                                }
                                assert(spec_keyset(views(out@)) =~= spec_keyset(before).insert(
                                    key@,
                                )) by {
                                    assert forall|k: Seq<char>|
                                        spec_keyset(views(out@)).contains(k) == spec_keyset(
                                        before,
                                    ).insert(key@).contains(k) by {
                                        lemma_map_find_extend(before, seq![cfv], k);
                                        assert(before + seq![cfv] =~= views(out@));
                                        assert(seq![cfv][0] == cfv);
                                        assert(seq![cfv].drop_first()
                                            =~= Seq::<ConfigFieldView>::empty());
                                        if k != key@ {
                                            assert(map_find(
                                                Seq::<ConfigFieldView>::empty(),
                                                k,
                                            ) is None);
                                            assert(map_find(seq![cfv], k) is None);
                                        } else {
                                            assert(map_find(seq![cfv], k) == Some(cfv));
                                        }
                                    }
                                }
                                assert(before + (seq![cfv] + spec_config_fields_excl(
                                    ps.skip(i + 1),
                                    spec_keyset(before).insert(key@),
                                )) =~= (before + seq![cfv]) + spec_config_fields_excl(
                                    ps.skip(i + 1),
                                    spec_keyset(before).insert(key@),
                                ));
                            }
                        },
                    }
                },
                None => {},
            }
            i = i + 1;
        }
        proof {
            assert(ps.skip(ps.len() as int) =~= Seq::<ProviderView>::empty());
            assert(views(out@) + Seq::<ConfigFieldView>::empty() =~= views(out@));
        }
        out
    }

    /// Resolves every entry point, in registry order, into a construction
    /// plan, or fails on the first unresolvable condition with no partial
    /// plan. In the plan: every entry point that is not configuration-
    /// sourced has a construction statement for its path, and each distinct
    /// path is constructed at most once, so fan-in shares one singleton;
    /// every statement is needed (a dependency chain leads to its path from
    /// an entry point) and is fully witnessed by a registered declaration,
    /// one argument per request, each resolved as `spec_arg_matches` says;
    /// statements are post-ordered, so every argument identifier refers to
    /// an earlier statement, a registered manual dependency or a
    /// configuration field; manual dependencies are deduplicated, name only
    /// targets no table resolves, derive their identifiers from their
    /// paths, and carry a registering request's data; the exports are
    /// exactly the export-flagged statements; and the configuration fields
    /// cover each distinct configuration key once. An error means what
    /// `spec_error_characterized` says: a missing provider names a failing
    /// request's target; a cycle carries a chain that actually closes. On
    /// an acyclic registry whose requests all resolve (or are manual with
    /// fully unresolved targets), resolution succeeds.
    #[verifier::loop_isolation(false)]
    #[verifier::rlimit(60)]
    pub fn generate(&self) -> (r: Result<Plan, WireError>)
        requires
            self@.wf(),
        ensures
            (match r {
                Ok(plan) => {
                    &&& plan@.dep == self@.dep
                    &&& plan@.config_fields == spec_config_fields(self@.providers)
                    &&& unique_keys(plan@.config_fields)
                    &&& forall|i: int, j: int|
                        0 <= i < j < plan@.statements.len() ==> (#[trigger] plan@.statements[i]).path
                            != (#[trigger] plan@.statements[j]).path
                    &&& spec_plan_args_wf(plan@)
                    &&& unique_keys(plan@.deps)
                    &&& forall|i: int|
                        0 <= i < plan@.deps.len() ==> !spec_target_resolves(
                            self@,
                            (#[trigger] plan@.deps[i]).path,
                        ) && plan@.deps[i].ident == snake_of(
                            spec_last_segment(plan@.deps[i].path),
                        )
                    &&& spec_stmt_constructs_registered(self@, plan@)
                    &&& forall|x: int|
                        0 <= x < plan@.exports.len() ==> (#[trigger] plan@.exports[x]).export
                            && exists|j: int|
                            0 <= j < plan@.statements.len() && (#[trigger] plan@.statements[j]).ident
                                == plan@.exports[x].ident && plan@.statements[j].path
                                == plan@.exports[x].path && !plan@.statements[j].shared
                    &&& forall|j: int|
                        0 <= j < plan@.statements.len() && !(#[trigger] plan@.statements[j]).shared
                            ==> exists|x: int|
                            0 <= x < plan@.exports.len() && (#[trigger] plan@.exports[x]).path
                                == plan@.statements[j].path && plan@.exports[x].ident
                                == plan@.statements[j].ident
                    &&& forall|i: int|
                        0 <= i < self@.injectors.len() && (#[trigger] self@.injectors[i]).metadata.config is None
                            ==> exists|j: int|
                            0 <= j < plan@.statements.len() && (#[trigger] plan@.statements[j]).path
                                == self@.injectors[i].struct_type
                    &&& forall|i: int|
                        0 <= i < plan@.deps.len() ==> spec_dep_witnessed(
                            self@,
                            #[trigger] plan@.deps[i],
                        )
                    &&& forall|j: int|
                        0 <= j < plan@.statements.len() ==> spec_entry_reachable(
                            self@,
                            (#[trigger] plan@.statements[j]).path,
                        )
                },
                Err(e) => spec_error_characterized(self@, e),
            }),
            (!spec_has_cycle(self@) && spec_all_deps_resolve(self@)) ==> r is Ok,
    {
        let ghost reg = self@;
        let mut st = ResolveState {
            statements: Vec::new(),
            variants: Vec::new(),
            dependencies: Vec::new(),
        };
        proof {
            assert(views(st.statements@) =~= Seq::<StatementView>::empty());
            assert(views(st.variants@) =~= Seq::<VariantView>::empty());
            assert(views(st.dependencies@) =~= Seq::<DepView>::empty());
        }
        let empty_stack: Vec<String> = Vec::new();
        proof {
            assert(views(empty_stack@) =~= Seq::<Seq<char>>::empty());
        }
        let mut i: usize = 0;
        while i < self.injectors.len()
            invariant
                0 <= i <= self.injectors@.len(),
                st_inv(self@, st@),
                forall|x: int|
                    0 <= x < i && (#[trigger] self@.injectors[x]).metadata.config is None
                        ==> map_contains(st@.variants, self@.injectors[x].struct_type),
                forall|j: int|
                    0 <= j < st@.statements.len() ==> spec_entry_reachable(
                        self@,
                        (#[trigger] st@.statements[j]).path,
                    ),
            decreases self.injectors@.len() - i,
        {
            proof {
                assert(spec_decl_in_registry(self@, views(self.injectors@)[i as int])) by {
                    assert(self@.injectors[i as int] == views(self.injectors@)[i as int]);
                }
            }
            let ghost st_before = st@;
            let entry = &self.injectors[i];
            match self.build_provider(entry, &empty_stack, Ghost(Seq::empty()), &mut st) {
                Ok(_) => {
                    proof {
                        assert forall|x: int|
                            0 <= x < i + 1 && (#[trigger] self@.injectors[x]).metadata.config
                                is None implies map_contains(
                            st@.variants,
                            self@.injectors[x].struct_type,
                        ) by {
                            if x < i {
                                lemma_find_in_extended(
                                    st_before.variants,
                                    st@.variants,
                                    self@.injectors[x].struct_type,
                                );
                            } else {
                                assert(entry@ == self@.injectors[i as int]);
                            }
                        }
                        assert forall|j: int|
                            0 <= j < st@.statements.len() implies spec_entry_reachable(
                            self@,
                            (#[trigger] st@.statements[j]).path,
                        ) by {
                            if j < st_before.statements.len() {
                                assert(st@.statements[j] == st_before.statements[j]);
                            }
                        }
                    }
                },
                Err(e) => {
                    return Err(e);
                },
            }
            i = i + 1;
        }
        // the container's public fields: every export-flagged singleton
        let ghost sv = st@;
        let mut exports: Vec<Variant> = Vec::new();
        let mut j: usize = 0;
        proof {
            assert(views(exports@) =~= Seq::<VariantView>::empty());
        }
        while j < st.variants.len()
            invariant
                0 <= j <= sv.variants.len(),
                st@ == sv,
                forall|x: int|
                    0 <= x < views(exports@).len() ==> (#[trigger] views(exports@)[x]).export
                        && exists|y: int|
                        0 <= y < sv.variants.len() && (#[trigger] sv.variants[y]) == views(
                            exports@,
                        )[x],
                forall|y: int|
                    0 <= y < j && (#[trigger] sv.variants[y]).export ==> exists|x: int|
                        0 <= x < views(exports@).len() && (#[trigger] views(exports@)[x])
                            == sv.variants[y],
            decreases sv.variants.len() - j,
        {
            if st.variants[j].export {
                let ghost before = views(exports@);
                exports.push(
                    Variant {
                        path: st.variants[j].path.clone(),
                        ident: st.variants[j].ident.clone(),
                        export: true,
                    },
                );
                proof {
                    assert(views(exports@) =~= before.push(sv.variants[j as int]));
                    assert forall|y: int|
                        0 <= y < j + 1 && (#[trigger] sv.variants[y]).export implies exists|x: int|
                        0 <= x < views(exports@).len() && (#[trigger] views(exports@)[x])
                            == sv.variants[y] by {
                        if y < j {
                            let x = choose|x: int|
                                0 <= x < before.len() && (#[trigger] before[x]) == sv.variants[y];
                            assert(views(exports@)[x] == sv.variants[y]);
                        } else {
                            assert(views(exports@)[before.len() as int] == sv.variants[j as int]);
                        }
                    }
                }
            }
            j = j + 1;
        }
        let config_fields = self.generate_config();
        let dep = self.dep.clone();
        let ghost expv = views(exports@);
        let plan = Plan {
            statements: st.statements,
            exports,
            deps: st.dependencies,
            config_fields,
            dep,
        };
        proof {
            assert(plan@.statements == sv.statements);
            assert(plan@.deps == sv.dependencies);
            assert(plan@.exports == expv);
            // distinct construction paths, from the cache's distinct keys
            assert forall|a: int, b: int|
                0 <= a < b < plan@.statements.len() implies (#[trigger] plan@.statements[a]).path
                != (#[trigger] plan@.statements[b]).path by {
                assert(sv.variants[a].path == sv.statements[a].path);
                assert(sv.variants[b].path == sv.statements[b].path);
                assert(sv.variants[a].key() != sv.variants[b].key());
            }
            // argument well-formedness carries over to the plan
            assert(spec_plan_args_wf(plan@)) by {
                assert forall|a: int, k: int|
                    #![trigger plan@.statements[a].args[k]]
                    0 <= a < plan@.statements.len() && 0 <= k
                        < plan@.statements[a].args.len() implies spec_arg_wf(
                    ResolveStateView {
                        statements: plan@.statements,
                        variants: Seq::empty(),
                        dependencies: plan@.deps,
                    },
                    plan@.statements[a].args[k],
                    a,
                ) by {
                    assert(spec_arg_wf(sv, sv.statements[a].args[k], a));
                    let st2 = ResolveStateView {
                        statements: plan@.statements,
                        variants: Seq::<VariantView>::empty(),
                        dependencies: plan@.deps,
                    };
                    match sv.statements[a].args[k] {
                        ArgRefView::Ident { ident } => {
                            let jj = choose|jj: int|
                                0 <= jj < a && (#[trigger] sv.statements[jj]).ident == ident;
                            assert(st2.statements[jj].ident == ident);
                            assert(spec_arg_wf(st2, plan@.statements[a].args[k], a));
                        },
                        _ => {},
                    }
                }
            }
            // the plan's own state is the run's final state, so every
            // statement's full witness carries over
            let ghost ps = spec_plan_state(plan@);
            assert(ps.variants =~= sv.variants) by {
                assert forall|a: int|
                    0 <= a < sv.variants.len() implies ps.variants[a] =~= sv.variants[a] by {
                    assert(sv.variants[a].path == sv.statements[a].path);
                    assert(sv.variants[a].ident == sv.statements[a].ident);
                    assert(sv.statements[a].shared == !sv.variants[a].export);
                }
            }
            assert(ps.statements == sv.statements && ps.dependencies == sv.dependencies);
            assert(ps == sv);
            // every resolvable entry point's path is constructed
            assert forall|i2: int|
                0 <= i2 < self@.injectors.len() && (#[trigger] self@.injectors[i2]).metadata.config
                    is None implies exists|j: int|
                0 <= j < plan@.statements.len() && (#[trigger] plan@.statements[j]).path
                    == self@.injectors[i2].struct_type by {
                assert(map_contains(sv.variants, self@.injectors[i2].struct_type));
                lemma_map_find_some(sv.variants, self@.injectors[i2].struct_type);
                let j = crate::table::map_index_of(sv.variants, self@.injectors[i2].struct_type);
                assert(sv.variants[j].path == sv.statements[j].path);
                assert(plan@.statements[j].path == self@.injectors[i2].struct_type);
            }
            assert(spec_stmt_constructs_registered(self@, plan@)) by {
                assert forall|a: int|
                    0 <= a < plan@.statements.len() implies spec_stmt_witnessed(
                    self@,
                    spec_plan_state(plan@),
                    a,
                ) by {
                    assert(spec_stmt_witnessed(self@, sv, a));
                }
            }
            // exports are exactly the export-flagged statements
            assert forall|x: int|
                0 <= x < plan@.exports.len() implies (#[trigger] plan@.exports[x]).export
                    && exists|jj: int|
                    0 <= jj < plan@.statements.len() && (#[trigger] plan@.statements[jj]).ident
                        == plan@.exports[x].ident && plan@.statements[jj].path
                        == plan@.exports[x].path && !plan@.statements[jj].shared by {
                let y = choose|y: int|
                    0 <= y < sv.variants.len() && (#[trigger] sv.variants[y]) == expv[x];
                assert(sv.statements[y].ident == expv[x].ident && sv.statements[y].path
                    == expv[x].path && !sv.statements[y].shared);
            }
            assert forall|jj: int|
                0 <= jj < plan@.statements.len() && !(#[trigger] plan@.statements[jj]).shared
                    implies exists|x: int|
                    0 <= x < plan@.exports.len() && (#[trigger] plan@.exports[x]).path
                        == plan@.statements[jj].path && plan@.exports[x].ident
                        == plan@.statements[jj].ident by {
                assert(sv.variants[jj].export);
                let x = choose|x: int|
                    0 <= x < expv.len() && (#[trigger] expv[x]) == sv.variants[jj];
                assert(expv[x].path == plan@.statements[jj].path && expv[x].ident
                    == plan@.statements[jj].ident);
            }
        }
        Ok(plan)
    }
}

/// Law: a capability-typed request binds to the first implementer in
/// discovery order. With implementers discovered as `[h1, h2]` the request
/// binds `h1`; a registry whose discovery order is `[h2, h1]` binds `h2`:
/// the tie-break follows the binding's list order and nothing else.
pub proof fn lemma_capability_first_wins(reg: BuilderView, t: Seq<char>)
    requires
        reg.wf(),
        map_contains(reg.implements, t),
    ensures
        spec_lookup_target(reg, t) == Some(
            map_find(reg.implements, t)->Some_0.implementers[0],
        ),
{
    lemma_map_find_some(reg.implements, t);
}

} // verus!

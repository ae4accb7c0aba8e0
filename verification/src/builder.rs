//! The declaration registry: per-module facts merged into one global,
//! read-only snapshot. Declaration paths are unique (a later registration
//! of a path overwrites an earlier one, in module-traversal order);
//! capability implementer lists and entry-point lists concatenate in
//! traversal order, which downstream tie-breaks depend on.

use vstd::prelude::*;

use crate::decl::{Binding, BindingView, Provider, ProviderView};
use crate::module::{wf_bindings, ModuleContext, ModuleContextView};
use crate::table::{
    map_contains, map_find, map_index_of, map_upsert, map_upserted, string_eq, unique_keys, views,
    Keyed, KeyedView,
};

verus! {

/// The merged registry: the generated constructor's input parameter name,
/// the entry points in traversal order, the declarations keyed by path, and
/// the capability bindings keyed by capability path.
pub struct Builder {
    pub dep: String,
    pub injectors: Vec<Provider>,
    pub providers: Vec<Provider>,
    pub implements: Vec<Binding>,
}

#[verifier::ext_equal]
pub struct BuilderView {
    pub dep: Seq<char>,
    pub injectors: Seq<ProviderView>,
    pub providers: Seq<ProviderView>,
    pub implements: Seq<BindingView>,
}

impl View for Builder {
    type V = BuilderView;

    open spec fn view(&self) -> BuilderView {
        BuilderView {
            dep: self.dep@,
            injectors: views(self.injectors@),
            providers: views(self.providers@),
            implements: views(self.implements@),
        }
    }
}

impl BuilderView {
    /// Declaration paths are unique and the capability bindings are well
    /// formed.
    pub open spec fn wf(self) -> bool {
        &&& unique_keys(self.providers)
        &&& wf_bindings(self.implements)
    }
}

/// An empty registry whose constructor-input parameter is named `dep`.
pub fn configure() -> (r: Builder)
    ensures
        r@.dep == "dep"@,
        r@.injectors == Seq::<ProviderView>::empty(),
        r@.providers == Seq::<ProviderView>::empty(),
        r@.implements == Seq::<BindingView>::empty(),
        r@.wf(),
{
    let r = Builder {
        dep: "dep".to_owned(),
        injectors: Vec::new(),
        providers: Vec::new(),
        implements: Vec::new(),
    };
    proof {
        assert(views(r.injectors@) =~= Seq::<ProviderView>::empty());
        assert(views(r.providers@) =~= Seq::<ProviderView>::empty());
        assert(views(r.implements@) =~= Seq::<BindingView>::empty());
    }
    r
}

/// The bindings after one capability's implementers are appended: they join
/// the capability's existing list after its own entries, or open a new
/// binding at the end.
pub open spec fn spec_extend_binding(bs: Seq<BindingView>, b: BindingView) -> Seq<BindingView> {
    match map_find(bs, b.capability) {
        Some(e) => bs.update(
            map_index_of(bs, b.capability),
            BindingView { capability: e.capability, implementers: e.implementers + b.implementers },
        ),
        None => bs.push(b),
    }
}

/// The bindings after a module's bindings are folded in, in order.
pub open spec fn spec_merge_bindings(bs: Seq<BindingView>, new: Seq<BindingView>) -> Seq<
    BindingView,
>
    decreases new.len(),
{
    if new.len() == 0 {
        bs
    } else {
        spec_merge_bindings(spec_extend_binding(bs, new[0]), new.drop_first())
    }
}

/// The declarations after a module's declarations are folded in, in order,
/// each overwriting any earlier declaration with its path.
pub open spec fn spec_merge_providers(ps: Seq<ProviderView>, new: Seq<ProviderView>) -> Seq<
    ProviderView,
>
    decreases new.len(),
{
    if new.len() == 0 {
        ps
    } else {
        spec_merge_providers(map_upserted(ps, new[0]), new.drop_first())
    }
}

/// The registry after one module's facts are folded in.
pub open spec fn spec_merge_one(v: BuilderView, m: ModuleContextView) -> BuilderView {
    BuilderView {
        dep: v.dep,
        injectors: v.injectors + m.injectors,
        providers: spec_merge_providers(v.providers, m.providers),
        implements: spec_merge_bindings(v.implements, m.implements),
    }
}

/// The registry after every module's facts are folded in, in traversal
/// order.
pub open spec fn spec_merge(v: BuilderView, ms: Seq<ModuleContextView>) -> BuilderView
    decreases ms.len(),
{
    if ms.len() == 0 {
        v
    } else {
        spec_merge(spec_merge_one(v, ms[0]), ms.drop_first())
    }
}

/// Appends one capability's implementers, as `spec_extend_binding` says;
/// bindings stay well formed.
fn merge_binding(implements: &mut Vec<Binding>, b: Binding)
    requires
        wf_bindings(views(old(implements)@)),
        b@.implementers.len() >= 1,
    ensures
        views(final(implements)@) == spec_extend_binding(views(old(implements)@), b@),
        wf_bindings(views(final(implements)@)),
{
    let ghost bs = views(old(implements)@);
    let ghost bv = b@;
    let mut i: usize = 0;
    while i < implements.len()
        invariant
            0 <= i <= implements@.len(),
            *implements == *old(implements),
            wf_bindings(bs),
            bv.implementers.len() >= 1,
            bs == views(implements@),
            bs.len() == implements@.len(),
            bv == b@,
            forall|j: int| 0 <= j < i ==> bs[j].key() != bv.capability,
        decreases implements@.len() - i,
    {
        if string_eq(&implements[i].capability, &b.capability) {
            proof {
                crate::table::lemma_map_find_at(bs, bv.capability, i as int);
            }
            let mut e = implements.remove(i);
            let ghost ev = e@;
            let mut impls = b.implementers;
            e.implementers.append(&mut impls);
            proof {
                assert(views(e.implementers@) =~= ev.implementers + bv.implementers);
            }
            implements.insert(i, e);
            proof {
                assert(views(implements@) =~~= spec_extend_binding(bs, bv));
                assert forall|a: int, c: int|
                    0 <= a < c < views(implements@).len() implies views(implements@)[a].key()
                    != views(implements@)[c].key() by {
                    assert(bs[a].key() != bs[c].key());
                    if a != i {
                        assert(views(implements@)[a] == bs[a]);
                    }
                    if c != i {
                        assert(views(implements@)[c] == bs[c]);
                    }
                }
                assert forall|a: int|
                    0 <= a < views(implements@).len() implies views(
                    implements@,
                )[a].implementers.len() >= 1 by {
                    if a != i {
                        assert(views(implements@)[a] == bs[a]);
                    }
                }
            }
            return ;
        }
        i = i + 1;
    }
    proof {
        crate::table::lemma_map_find_none(bs, bv.capability);
    }
    implements.push(b);
    proof {
        assert(views(implements@) =~= bs.push(bv));
        assert forall|a: int, c: int|
            0 <= a < c < views(implements@).len() implies views(implements@)[a].key() != views(
            implements@,
        )[c].key() by {
            if c == bs.len() as int {
                assert(views(implements@)[a] == bs[a]);
                assert(bs[a].key() != bv.capability);
            } else {
                assert(views(implements@)[a] == bs[a]);
                assert(views(implements@)[c] == bs[c]);
            }
        }
        assert forall|a: int|
            0 <= a < views(implements@).len() implies views(implements@)[a].implementers.len()
            >= 1 by {
            if a < bs.len() {
                assert(views(implements@)[a] == bs[a]);
            }
        }
    }
}

impl Builder {
    /// Folds per-module facts into the registry, in traversal order, as
    /// `spec_merge` says: entry points concatenate, declarations overwrite
    /// by path, capability implementer lists append.
    #[verifier::loop_isolation(false)]
    pub fn merge(&mut self, modules: Vec<ModuleContext>)
        requires
            old(self)@.wf(),
            forall|i: int| 0 <= i < modules@.len() ==> (#[trigger] modules@[i])@.wf(),
        ensures
            final(self)@ == spec_merge(old(self)@, views(modules@)),
            final(self)@.wf(),
    {
        let ghost ms0 = views(modules@);
        let mut modules = modules;
        proof {
            assert(views(modules@).skip(0) =~= views(modules@));
        }
        while modules.len() > 0
            invariant
                self@.wf(),
                forall|i: int|
                    0 <= i < views(modules@).len() ==> (#[trigger] views(modules@)[i]).wf(),
                spec_merge(old(self)@, ms0) == spec_merge(self@, views(modules@)),
            decreases modules@.len(),
        {
            let ghost before = views(modules@);
            let m = modules.remove(0);
            let ghost mv = m@;
            proof {
                assert(views(modules@) =~= before.drop_first());
                assert(mv == before[0]);
                assert(mv.wf());
                assert forall|i: int|
                    0 <= i < views(modules@).len() implies (#[trigger] views(
                    modules@,
                )[i]).wf() by {
                    assert(views(modules@)[i] == before[i + 1]);
                }
            }
            let ghost v_before = self@;
            // entry points concatenate in traversal order
            let mut mi = m.injectors;
            self.injectors.append(&mut mi);
            proof {
                assert(views(self.injectors@) =~= v_before.injectors + mv.injectors);
            }
            // declarations overwrite by path
            let mut mp = m.providers;
            proof {
                assert(views(mp@) =~= mv.providers);
                assert(views(mp@).skip(0) =~= views(mp@));
            }
            while mp.len() > 0
                invariant
                    unique_keys(views(self.providers@)),
                    self@.dep == v_before.dep,
                    views(self.injectors@) == v_before.injectors + mv.injectors,
                    views(self.implements@) == v_before.implements,
                    spec_merge_providers(v_before.providers, mv.providers) == spec_merge_providers(
                        views(self.providers@),
                        views(mp@),
                    ),
                decreases mp@.len(),
            {
                let ghost ps_before = views(mp@);
                let p = mp.remove(0);
                proof {
                    assert(views(mp@) =~= ps_before.drop_first());
                    assert(p@ == ps_before[0]);
                }
                map_upsert(&mut self.providers, p);
            }
            let ghost prov_final = views(self.providers@);
            proof {
                assert(views(mp@) =~= Seq::<ProviderView>::empty());
                assert(prov_final == spec_merge_providers(v_before.providers, mv.providers));
            }
            // capability implementer lists append in discovery order
            let mut mb = m.implements;
            proof {
                assert(views(mb@) =~= mv.implements);
                assert(views(mb@).skip(0) =~= views(mb@));
            }
            while mb.len() > 0
                invariant
                    wf_bindings(views(self.implements@)),
                    self@.dep == v_before.dep,
                    views(self.injectors@) == v_before.injectors + mv.injectors,
                    views(self.providers@) == prov_final,
                    forall|i: int|
                        0 <= i < views(mb@).len() ==> (#[trigger] views(
                            mb@,
                        )[i]).implementers.len() >= 1,
                    spec_merge_bindings(v_before.implements, mv.implements) == spec_merge_bindings(
                        views(self.implements@),
                        views(mb@),
                    ),
                decreases mb@.len(),
            {
                let ghost bs_before = views(mb@);
                let b = mb.remove(0);
                proof {
                    assert(views(mb@) =~= bs_before.drop_first());
                    assert(b@ == bs_before[0]);
                    assert forall|i: int|
                        0 <= i < views(mb@).len() implies (#[trigger] views(
                        mb@,
                    )[i]).implementers.len() >= 1 by {
                        assert(views(mb@)[i] == bs_before[i + 1]);
                    }
                }
                merge_binding(&mut self.implements, b);
            }
            proof {
                assert(views(mb@) =~= Seq::<BindingView>::empty());
                assert(self@ =~~= spec_merge_one(v_before, before[0]));
            }
        }
        proof {
            assert(views(modules@) =~= Seq::<ModuleContextView>::empty());
        }
    }
}

} // verus!

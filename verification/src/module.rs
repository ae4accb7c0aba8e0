//! Per-module parsing: the import table, absolute-path resolution of raw
//! type references, and the extraction of declarations, entry points and
//! capability bindings from a module's items.

use vstd::prelude::*;

use crate::ast::{FieldDecl, Item, StructDecl, TypeShape, UseTree};
use crate::errors::WireError;
use crate::decl::{
    spec_apply_attr_args, spec_has_manual,
    has_attr, get_attr, Attr, AttrView, Binding, BindingView, Inject, InjectView, Metadata,
    MetadataView, Provider, ProviderView,
};
use crate::table::{
    map_contains, map_find, map_get, map_index_of, map_upsert, map_upserted, string_eq,
    unique_keys, views, Keyed, KeyedView,
};
use crate::text::{
    clone_string_vec, join_segments, join_upto, spec_join, spec_split, spec_strip_extension,
    split_on, strip_extension,
};

verus! {

/// One import-table entry: a local alias and the absolute path it stands
/// for, as ordered segments.
pub struct UseEntry {
    pub alias: String,
    pub path: Vec<String>,
}

#[verifier::ext_equal]
pub struct UseEntryView {
    pub alias: Seq<char>,
    pub path: Seq<Seq<char>>,
}

impl View for UseEntry {
    type V = UseEntryView;

    open spec fn view(&self) -> UseEntryView {
        UseEntryView { alias: self.alias@, path: views(self.path@) }
    }
}

impl KeyedView for UseEntryView {
    open spec fn key(self) -> Seq<char> {
        self.alias
    }
}

impl Keyed for UseEntry {
    fn key_ref(&self) -> (r: &String) {
        &self.alias
    }
}

/// The facts one module contributes: its own path as segments, its import
/// table, its registered providers, its entry points in declared order, and
/// the capability bindings its trait implementations register.
pub struct ModuleContext {
    pub mods: Vec<String>,
    pub uses: Vec<UseEntry>,
    pub providers: Vec<Provider>,
    pub injectors: Vec<Provider>,
    pub implements: Vec<Binding>,
}

#[verifier::ext_equal]
pub struct ModuleContextView {
    pub mods: Seq<Seq<char>>,
    pub uses: Seq<UseEntryView>,
    pub providers: Seq<ProviderView>,
    pub injectors: Seq<ProviderView>,
    pub implements: Seq<BindingView>,
}

impl View for ModuleContext {
    type V = ModuleContextView;

    open spec fn view(&self) -> ModuleContextView {
        ModuleContextView {
            mods: views(self.mods@),
            uses: views(self.uses@),
            providers: views(self.providers@),
            injectors: views(self.injectors@),
            implements: views(self.implements@),
        }
    }
}

/// Every import-table entry stands for a nonempty path.
pub open spec fn wf_uses(u: Seq<UseEntryView>) -> bool {
    forall|i: int| 0 <= i < u.len() ==> u[i].path.len() >= 1
}

/// Capability keys are unique and every binding has an implementer.
pub open spec fn wf_bindings(b: Seq<BindingView>) -> bool {
    &&& unique_keys(b)
    &&& forall|i: int| 0 <= i < b.len() ==> b[i].implementers.len() >= 1
}

impl ModuleContextView {
    /// Well-formedness: the import table resolves to nonempty paths,
    /// declaration paths are unique, and bindings are well formed.
    pub open spec fn wf(self) -> bool {
        &&& wf_uses(self.uses)
        &&& unique_keys(self.providers)
        &&& wf_bindings(self.implements)
    }
}

/// The context of a module with the given path, before any item is read.
pub open spec fn empty_module_view(mods: Seq<Seq<char>>) -> ModuleContextView {
    ModuleContextView {
        mods: mods,
        uses: Seq::empty(),
        providers: Seq::empty(),
        injectors: Seq::empty(),
        implements: Seq::empty(),
    }
}

/// Whether a raw reference is already anchored at the crate root: its first
/// segment is the root marker `crate`, or is empty (a leading `::`).
pub open spec fn spec_is_absolute(segs: Seq<Seq<char>>) -> bool {
    segs.len() > 0 && (segs[0] == "crate"@ || segs[0] == ""@)
}

/// The executable form of `spec_is_absolute`.
pub fn is_absolute_path(segments: &Vec<String>) -> (r: bool)
    ensures
        r == spec_is_absolute(views(segments@)),
{
    if segments.len() == 0 {
        return false;
    }
    let root: String = "crate".to_owned();
    let empty: String = "".to_owned();
    string_eq(&segments[0], &root) || string_eq(&segments[0], &empty)
}

/// A raw reference resolved to an absolute path, joined with `::`:
/// an anchored reference is kept; a reference whose first segment is an
/// import alias is spliced onto the alias's prefix (the alias's own trailing
/// segment dropped); a multi-segment reference with no alias is assumed
/// already qualified; a single unmapped segment is assumed declared in the
/// referencing module itself.
pub open spec fn spec_resolve_ref(
    mods: Seq<Seq<char>>,
    uses: Seq<UseEntryView>,
    segs: Seq<Seq<char>>,
) -> Seq<char> {
    let joined = spec_join(segs, "::"@);
    if segs.len() == 0 {
        joined
    } else if spec_is_absolute(segs) {
        joined
    } else {
        match map_find(uses, segs[0]) {
            Some(e) => if e.path.len() >= 1 {
                spec_join(e.path.take(e.path.len() - 1), "::"@) + "::"@ + joined
            } else {
                joined
            },
            None => if segs.len() > 1 {
                joined
            } else {
                spec_join(mods, "::"@) + "::"@ + joined
            },
        }
    }
}

impl ModuleContext {
    /// A context for the module at the given path.
    pub fn new(mods: Vec<String>) -> (r: ModuleContext)
        ensures
            r@ == empty_module_view(views(mods@)),
            r@.wf(),
    {
        let r = ModuleContext {
            mods,
            uses: Vec::new(),
            providers: Vec::new(),
            injectors: Vec::new(),
            implements: Vec::new(),
        };
        proof {
            assert(views(r.uses@) =~= Seq::<UseEntryView>::empty());
            assert(views(r.providers@) =~= Seq::<ProviderView>::empty());
            assert(views(r.injectors@) =~= Seq::<ProviderView>::empty());
            assert(views(r.implements@) =~= Seq::<BindingView>::empty());
        }
        r
    }

    /// This module's own absolute path, joined with `::`.
    pub fn mods_path(&self) -> (r: String)
        ensures
            r@ == spec_join(self@.mods, "::"@),
    {
        join_segments(&self.mods, "::")
    }

    /// The absolute path of a type or trait declared in this module.
    pub fn abs_struct_or_trait_type(&self, ident: String) -> (r: String)
        ensures
            r@ == spec_join(self@.mods, "::"@) + "::"@ + ident@,
    {
        let p = self.mods_path();
        p.concat("::").concat(ident.as_str())
    }

    /// Resolves a raw reference to an absolute path, as `spec_resolve_ref`
    /// says.
    pub fn resolve_abs_path_type(&self, trait_path: &Vec<String>) -> (r: String)
        requires
            self@.wf(),
        ensures
            r@ == spec_resolve_ref(self@.mods, self@.uses, views(trait_path@)),
    {
        let joined = join_segments(trait_path, "::");
        if trait_path.len() == 0 {
            return joined;
        }
        if is_absolute_path(trait_path) {
            return joined;
        }
        match map_get(&self.uses, &trait_path[0]) {
            Some(e) => {
                proof {
                    crate::table::lemma_map_find_some(self@.uses, trait_path@[0]@);
                }
                let n = e.path.len() - 1;
                let prefix = join_upto(&e.path, n, "::");
                prefix.concat("::").concat(joined.as_str())
            },
            None => {
                if trait_path.len() > 1 {
                    joined
                } else {
                    let p = self.mods_path();
                    p.concat("::").concat(joined.as_str())
                }
            },
        }
    }
}

/// The import-table entries an import tree contributes, each with the given
/// prefix already applied: a path segment extends the prefix; a group
/// contributes its members' entries in order; a name maps itself to the
/// prefixed path; a rename maps the new name to the path of the old one.
pub open spec fn spec_parse_use_tree(t: UseTree, prefix: Seq<Seq<char>>) -> Seq<UseEntryView>
    decreases t, 1int,
{
    match t {
        UseTree::Path { ident, tree } => spec_parse_use_tree(*tree, prefix.push(ident@)),
        UseTree::Group { items } => spec_parse_use_trees(items@, prefix),
        UseTree::Name { ident } => seq![
            UseEntryView { alias: ident@, path: prefix.push(ident@) },
        ],
        UseTree::Rename { ident, rename } => seq![
            UseEntryView { alias: rename@, path: prefix.push(ident@) },
        ],
        UseTree::Other => Seq::empty(),
    }
}

/// The entries of a list of import trees, in order.
pub open spec fn spec_parse_use_trees(ts: Seq<UseTree>, prefix: Seq<Seq<char>>) -> Seq<
    UseEntryView,
>
    decreases ts, 0int,
{
    if ts.len() == 0 {
        Seq::empty()
    } else {
        spec_parse_use_tree(ts[0], prefix) + spec_parse_use_trees(ts.drop_first(), prefix)
    }
}

/// Every entry an import tree contributes stands for a nonempty path.
pub proof fn lemma_use_tree_entries_nonempty(t: UseTree, prefix: Seq<Seq<char>>)
    ensures
        forall|i: int|
            0 <= i < spec_parse_use_tree(t, prefix).len() ==> spec_parse_use_tree(t, prefix)[i].path.len() >= 1,
    decreases t, 1int,
{
    match t {
        UseTree::Path { ident, tree } => {
            lemma_use_tree_entries_nonempty(*tree, prefix.push(ident@));
            assert(spec_parse_use_tree(t, prefix) == spec_parse_use_tree(
                *tree,
                prefix.push(ident@),
            ));
        },
        UseTree::Group { items } => {
            lemma_use_trees_entries_nonempty(items@, prefix);
            assert(spec_parse_use_tree(t, prefix) == spec_parse_use_trees(items@, prefix));
        },
        UseTree::Name { ident } => {
            assert(spec_parse_use_tree(t, prefix)[0].path.len() >= 1);
        },
        UseTree::Rename { ident, rename } => {
            assert(spec_parse_use_tree(t, prefix)[0].path.len() >= 1);
        },
        UseTree::Other => {
            assert(spec_parse_use_tree(t, prefix).len() == 0);
        },
    }
}

pub proof fn lemma_use_trees_entries_nonempty(ts: Seq<UseTree>, prefix: Seq<Seq<char>>)
    ensures
        forall|i: int|
            0 <= i < spec_parse_use_trees(ts, prefix).len() ==> spec_parse_use_trees(
                ts,
                prefix,
            )[i].path.len() >= 1,
    decreases ts, 0int,
{
    if ts.len() > 0 {
        lemma_use_tree_entries_nonempty(ts[0], prefix);
        lemma_use_trees_entries_nonempty(ts.drop_first(), prefix);
        let head = spec_parse_use_tree(ts[0], prefix);
        let rest = spec_parse_use_trees(ts.drop_first(), prefix);
        assert forall|i: int|
            0 <= i < spec_parse_use_trees(ts, prefix).len() implies spec_parse_use_trees(
            ts,
            prefix,
        )[i].path.len() >= 1 by {
            if i < head.len() {
                assert((head + rest)[i] == head[i]);
            } else {
                assert((head + rest)[i] == rest[i - head.len()]);
            }
        }
    }
}

/// Extracts the import-table entries of an import tree, as
/// `spec_parse_use_tree` says.
pub fn parse_use_tree(tree: &UseTree, prefix: Vec<String>) -> (r: Vec<UseEntry>)
    ensures
        views(r@) == spec_parse_use_tree(*tree, views(prefix@)),
    decreases *tree,
{
    let ghost pv = views(prefix@);
    match tree {
        UseTree::Path { ident, tree: sub } => {
            let mut p = prefix;
            p.push(ident.clone());
            proof {
                assert(views(p@) =~= pv.push(ident@));
            }
            parse_use_tree(sub, p)
        },
        UseTree::Group { items } => {
            let mut out: Vec<UseEntry> = Vec::new();
            let mut i: usize = 0;
            proof {
                assert(views(out@) =~= Seq::<UseEntryView>::empty());
                assert(items@.skip(0) =~= items@);
            }
            while i < items.len()
                invariant
                    0 <= i <= items@.len(),
                    *tree is Group,
                    tree->Group_items == *items,
                    pv == views(prefix@),
                    spec_parse_use_trees(items@, pv) == views(out@) + spec_parse_use_trees(
                        items@.skip(i as int),
                        pv,
                    ),
                decreases items@.len() - i,
            {
                proof {
                    assert(decreases_to!(*tree => tree->Group_items));
                    assert(decreases_to!(tree->Group_items => tree->Group_items@));
                    assert(decreases_to!(tree->Group_items@ => items@[i as int]));
                    assert(decreases_to!(*tree => items@[i as int]));
                }
                let mut sub = parse_use_tree(&items[i], clone_string_vec(&prefix));
                let ghost prev = views(out@);
                let ghost subv = views(sub@);
                proof {
                    assert(items@.skip(i as int)[0] == items@[i as int]);
                    assert(items@.skip(i as int).drop_first() =~= items@.skip(i + 1));
                }
                out.append(&mut sub);
                proof {
                    assert(views(out@) =~= prev + subv);
                    assert(prev + subv + spec_parse_use_trees(items@.skip(i + 1), pv) =~= prev + (
                    subv + spec_parse_use_trees(items@.skip(i + 1), pv)));
                }
                i = i + 1;
            }
            proof {
                assert(items@.skip(items@.len() as int) =~= Seq::<UseTree>::empty());
                assert(views(out@) + Seq::<UseEntryView>::empty() =~= views(out@));
            }
            out
        },
        UseTree::Name { ident } => {
            let mut p = prefix;
            p.push(ident.clone());
            let mut r: Vec<UseEntry> = Vec::new();
            r.push(UseEntry { alias: ident.clone(), path: p });
            proof {
                assert(views(r@) =~~= spec_parse_use_tree(*tree, pv));
            }
            r
        },
        UseTree::Rename { ident, rename } => {
            let mut p = prefix;
            p.push(ident.clone());
            let mut r: Vec<UseEntry> = Vec::new();
            r.push(UseEntry { alias: rename.clone(), path: p });
            proof {
                assert(views(r@) =~~= spec_parse_use_tree(*tree, pv));
            }
            r
        },
        UseTree::Other => {
            let r: Vec<UseEntry> = Vec::new();
            proof {
                assert(views(r@) =~~= spec_parse_use_tree(*tree, pv));
            }
            r
        },
    }
}

/// The import table after a tree's entries are inserted in order, each
/// overwriting any earlier entry with its alias.
pub open spec fn spec_upsert_entries(u: Seq<UseEntryView>, es: Seq<UseEntryView>) -> Seq<
    UseEntryView,
>
    decreases es.len(),
{
    if es.len() == 0 {
        u
    } else {
        spec_upsert_entries(map_upserted(u, es[0]), es.drop_first())
    }
}

impl ModuleContext {
    /// Reads one import statement into the import table; later imports of
    /// the same alias overwrite earlier ones.
    pub fn parse_item_use(&mut self, tree: &UseTree)
        requires
            old(self)@.wf(),
        ensures
            final(self)@.wf(),
            final(self).mods == old(self).mods,
            final(self).providers == old(self).providers,
            final(self).injectors == old(self).injectors,
            final(self).implements == old(self).implements,
            final(self)@.uses == spec_upsert_entries(
                old(self)@.uses,
                spec_parse_use_tree(*tree, Seq::empty()),
            ),
    {
        let ghost es = spec_parse_use_tree(*tree, Seq::<Seq<char>>::empty());
        let empty_prefix: Vec<String> = Vec::new();
        proof {
            assert(views(empty_prefix@) =~= Seq::<Seq<char>>::empty());
        }
        let entries = parse_use_tree(tree, empty_prefix);
        proof {
            lemma_use_tree_entries_nonempty(*tree, Seq::empty());
            assert(views(entries@).skip(0) =~= views(entries@));
        }
        let ghost u0 = old(self)@.uses;
        let mut i: usize = 0;
        while i < entries.len()
            invariant
                0 <= i <= entries@.len(),
                views(entries@) == es,
                es.len() == entries@.len(),
                forall|j: int| 0 <= j < es.len() ==> es[j].path.len() >= 1,
                wf_uses(views(self.uses@)),
                spec_upsert_entries(u0, es) == spec_upsert_entries(
                    views(self.uses@),
                    es.skip(i as int),
                ),
                self.mods == old(self).mods,
                self.providers == old(self).providers,
                self.injectors == old(self).injectors,
                self.implements == old(self).implements,
            decreases entries@.len() - i,
        {
            let ghost before = views(self.uses@);
            proof {
                assert(es.skip(i as int)[0] == es[i as int]);
                assert(es.skip(i as int).drop_first() =~= es.skip(i + 1));
                assert(views(entries@)[i as int] == entries@[i as int]@);
            }
            let e = UseEntry {
                alias: entries[i].alias.clone(),
                path: clone_string_vec(&entries[i].path),
            };
            proof {
                assert(e@ == entries@[i as int]@);
            }
            map_upsert(&mut self.uses, e);
            proof {
                assert forall|j: int|
                    0 <= j < views(self.uses@).len() implies views(self.uses@)[j].path.len()
                    >= 1 by {
                    if map_contains(before, es[i as int].key()) {
                        crate::table::lemma_map_find_some(before, es[i as int].key());
                        if j != map_index_of(before, es[i as int].key()) {
                            assert(views(self.uses@)[j] == before[j]);
                        }
                    } else {
                        if j < before.len() {
                            assert(views(self.uses@)[j] == before[j]);
                        }
                    }
                }
            }
            i = i + 1;
        }
        proof {
            assert(es.skip(es.len() as int) =~= Seq::<UseEntryView>::empty());
        }
    }
}

/// A dependency request before its field's type is read.
pub open spec fn spec_default_inject(manual: bool) -> InjectView {
    InjectView { trait_object: false, wrapper_type: None, struct_type: Seq::empty(), manual: manual }
}

/// The request after its field's type shape is read: a path whose last
/// segment is an ownership wrapper (`Arc`, `Box`) records the wrapper's
/// resolved path and descends into the inner type; any other path resolves
/// directly; a trait object resolves its first named bound as a capability
/// reference; an empty path, a wrapper without an inner type argument, a
/// trait object without a named bound and any other shape yield no request.
pub open spec fn spec_parse_inject_field_type(
    mods: Seq<Seq<char>>,
    uses: Seq<UseEntryView>,
    inj: InjectView,
    t: TypeShape,
) -> Option<InjectView>
    decreases t,
{
    match t {
        TypeShape::Path { segments, arg } => {
            if segments@.len() == 0 {
                None
            } else {
                let segv = views(segments@);
                if segv.last() == "Arc"@ || segv.last() == "Box"@ {
                    let inj2 = InjectView {
                        trait_object: inj.trait_object,
                        wrapper_type: Some(spec_resolve_ref(mods, uses, segv)),
                        struct_type: inj.struct_type,
                        manual: inj.manual,
                    };
                    match arg {
                        Some(inner) => spec_parse_inject_field_type(mods, uses, inj2, *inner),
                        None => None,
                    }
                } else {
                    Some(
                        InjectView {
                            trait_object: inj.trait_object,
                            wrapper_type: inj.wrapper_type,
                            struct_type: spec_resolve_ref(mods, uses, segv),
                            manual: inj.manual,
                        },
                    )
                }
            }
        },
        TypeShape::TraitObject { bound } => match bound {
            Some(b) => Some(
                InjectView {
                    trait_object: true,
                    wrapper_type: inj.wrapper_type,
                    struct_type: spec_resolve_ref(mods, uses, views(b@)),
                    manual: inj.manual,
                },
            ),
            None => None,
        },
        TypeShape::Other => None,
    }
}

/// The dependency requests of a declaration's fields, in field order: a
/// field without the request attribute contributes nothing; one whose type
/// shape cannot be read fails the whole declaration.
pub open spec fn spec_parse_injects(
    mods: Seq<Seq<char>>,
    uses: Seq<UseEntryView>,
    fields: Seq<FieldDecl>,
) -> Option<Seq<InjectView>>
    decreases fields.len(),
{
    if fields.len() == 0 {
        Some(Seq::empty())
    } else {
        let f = fields[0];
        match map_find(views(f.attrs@), "inject"@) {
            Some(a) => {
                let inj0 = spec_default_inject(spec_has_manual(a.args));
                match spec_parse_inject_field_type(mods, uses, inj0, f.ty) {
                    Some(inj) => match spec_parse_injects(mods, uses, fields.drop_first()) {
                        Some(rest) => Some(seq![inj] + rest),
                        None => None,
                    },
                    None => None,
                }
            },
            None => spec_parse_injects(mods, uses, fields.drop_first()),
        }
    }
}

/// Metadata before any attribute argument is applied.
pub open spec fn spec_default_metadata() -> MetadataView {
    MetadataView { config: None, export: false, rename: None }
}

/// The declaration a struct item contributes: its path is the declaring
/// module's path extended with its name, its metadata comes from the given
/// attribute's arguments, and its requests come from its fields; reading a
/// field's shape can fail.
pub open spec fn spec_parse_provider(
    mods: Seq<Seq<char>>,
    uses: Seq<UseEntryView>,
    item: StructDecl,
    attr: Option<AttrView>,
) -> Option<ProviderView> {
    match spec_parse_injects(mods, uses, item.fields@) {
        Some(injs) => Some(
            ProviderView {
                struct_type: spec_join(mods, "::"@) + "::"@ + item.ident@,
                ident: item.ident@,
                metadata: match attr {
                    Some(a) => spec_apply_attr_args(spec_default_metadata(), item.ident@, a.args),
                    None => spec_default_metadata(),
                },
                injects: injs,
            },
        ),
        None => None,
    }
}

/// The view of an optionally present attribute.
pub open spec fn spec_attr_opt(attr: Option<&Attr>) -> Option<AttrView> {
    match attr {
        Some(a) => Some(a@),
        None => None,
    }
}

impl ModuleContext {
    /// Reads a field's type shape into a dependency request, as
    /// `spec_parse_inject_field_type` says.
    pub fn parse_inject_field_type(&self, inject: Inject, field_type: &TypeShape) -> (r: Option<
        Inject,
    >)
        requires
            self@.wf(),
        ensures
            match r {
                Some(i2) => spec_parse_inject_field_type(
                    self@.mods,
                    self@.uses,
                    inject@,
                    *field_type,
                ) == Some(i2@),
                None => spec_parse_inject_field_type(
                    self@.mods,
                    self@.uses,
                    inject@,
                    *field_type,
                ) is None,
            },
        decreases *field_type,
    {
        match field_type {
            TypeShape::Path { segments, arg } => {
                if segments.len() == 0 {
                    return None;
                }
                let last = &segments[segments.len() - 1];
                let arc_name: String = "Arc".to_owned();
                let box_name: String = "Box".to_owned();
                if string_eq(last, &arc_name) || string_eq(last, &box_name) {
                    let wrapper = self.resolve_abs_path_type(segments);
                    let mut inj = inject;
                    inj.wrapper_type = Some(wrapper);
                    match arg {
                        Some(inner) => {
                            proof {
                                assert(decreases_to!(*field_type => field_type->Path_arg));
                                assert(decreases_to!(
                                    field_type->Path_arg => field_type->Path_arg->Some_0));
                            }
                            self.parse_inject_field_type(inj, &*inner)
                        },
                        None => None,
                    }
                } else {
                    let mut inj = inject;
                    inj.struct_type = self.resolve_abs_path_type(segments);
                    Some(inj)
                }
            },
            TypeShape::TraitObject { bound } => match bound {
                Some(b) => {
                    let mut inj = inject;
                    inj.struct_type = self.resolve_abs_path_type(b);
                    inj.trait_object = true;
                    Some(inj)
                },
                None => None,
            },
            TypeShape::Other => None,
        }
    }

    /// Reads a struct declaration into a provider, as `spec_parse_provider`
    /// says; fails, naming the declaration, when a request field's type
    /// shape cannot be read.
    pub fn parse_provider(&self, item: &StructDecl, attr: Option<&Attr>) -> (r: Result<
        Provider,
        WireError,
    >)
        requires
            self@.wf(),
        ensures
            match r {
                Ok(p) => spec_parse_provider(self@.mods, self@.uses, *item, spec_attr_opt(attr))
                    == Some(p@),
                Err(e) => {
                    &&& spec_parse_provider(
                        self@.mods,
                        self@.uses,
                        *item,
                        spec_attr_opt(attr),
                    ) is None
                    &&& e matches WireError::UnsupportedFieldType { provider } && provider@
                        == spec_join(self@.mods, "::"@) + "::"@ + item.ident@
                },
            },
    {
        let ghost mv = self@.mods;
        let ghost uv = self@.uses;
        let struct_path = self.abs_struct_or_trait_type(item.ident.clone());
        let mut provider = Provider::new(struct_path, item.ident.clone());
        match attr {
            Some(a) => {
                provider.parse_attr(&a.args);
            },
            None => {},
        }
        let inject_name: String = "inject".to_owned();
        let ghost fields_seq = item.fields@;
        let mut injs: Vec<Inject> = Vec::new();
        let mut i: usize = 0;
        proof {
            assert(fields_seq.skip(0) =~= fields_seq);
            assert(views(injs@) =~= Seq::<InjectView>::empty());
        }
        while i < item.fields.len()
            invariant
                0 <= i <= fields_seq.len(),
                fields_seq == item.fields@,
                self@.wf(),
                mv == self@.mods,
                uv == self@.uses,
                inject_name@ == "inject"@,
                provider@.struct_type == spec_join(mv, "::"@) + "::"@ + item.ident@,
                provider@.ident == item.ident@,
                provider@.metadata == (match spec_attr_opt(attr) {
                    Some(a) => spec_apply_attr_args(spec_default_metadata(), item.ident@, a.args),
                    None => spec_default_metadata(),
                }),
                match spec_parse_injects(mv, uv, fields_seq.skip(i as int)) {
                    Some(rest) => spec_parse_injects(mv, uv, fields_seq) == Some(
                        views(injs@) + rest,
                    ),
                    None => spec_parse_injects(mv, uv, fields_seq) is None,
                },
            decreases fields_seq.len() - i,
        {
            let f = &item.fields[i];
            proof {
                assert(fields_seq.skip(i as int)[0] == fields_seq[i as int]);
                assert(fields_seq.skip(i as int).drop_first() =~= fields_seq.skip(i + 1));
            }
            match get_attr(&f.attrs, &inject_name) {
                Some(a) => {
                    let mut inj = Inject {
                        trait_object: false,
                        wrapper_type: None,
                        struct_type: String::new(),
                        manual: false,
                    };
                    inj.parse_attr(&a.args);
                    proof {
                        assert(inj@ =~= spec_default_inject(crate::decl::spec_has_manual(a@.args)));
                    }
                    match self.parse_inject_field_type(inj, &f.ty) {
                        Some(inj2) => {
                            let ghost before = views(injs@);
                            injs.push(inj2);
                            proof {
                                assert(views(injs@) =~= before.push(inj2@));
                                assert(before.push(inj2@) =~= before + seq![inj2@]);
                                if spec_parse_injects(mv, uv, fields_seq.skip(i + 1)) is Some {
                                    let rest2 = spec_parse_injects(
                                        mv,
                                        uv,
                                        fields_seq.skip(i + 1),
                                    )->Some_0;
                                    assert(before + (seq![inj2@] + rest2) =~= (before + seq![inj2@])
                                        + rest2);
                                }
                            }
                        },
                        None => {
                            return Err(
                                WireError::UnsupportedFieldType { provider: provider.struct_type },
                            );
                        },
                    }
                },
                None => {},
            }
            i = i + 1;
        }
        proof {
            assert(fields_seq.skip(fields_seq.len() as int) =~= Seq::<FieldDecl>::empty());
            assert(views(injs@) + Seq::<InjectView>::empty() =~= views(injs@));
        }
        provider.injects = injs;
        proof {
            assert(provider@ =~~= spec_parse_provider(
                self@.mods,
                self@.uses,
                *item,
                spec_attr_opt(attr),
            )->Some_0);
        }
        Ok(provider)
    }
}

/// The module after a struct item is read: a declaration marked as an entry
/// point joins the entry-point list, one marked as a provider is registered
/// under its path (a later registration of the same path overwrites an
/// earlier one), and one marked as both does both.
pub open spec fn spec_parse_item_struct(m: ModuleContextView, item: StructDecl) -> Option<
    ModuleContextView,
> {
    let m1 = match map_find(views(item.attrs@), "injectable"@) {
        Some(a) => match spec_parse_provider(m.mods, m.uses, item, Some(a)) {
            Some(p) => Some(
                ModuleContextView {
                    mods: m.mods,
                    uses: m.uses,
                    providers: m.providers,
                    injectors: m.injectors.push(p),
                    implements: m.implements,
                },
            ),
            None => None,
        },
        None => Some(m),
    };
    match m1 {
        None => None,
        Some(m1v) => match map_find(views(item.attrs@), "provider"@) {
            Some(a) => match spec_parse_provider(m.mods, m.uses, item, Some(a)) {
                Some(p) => Some(
                    ModuleContextView {
                        mods: m1v.mods,
                        uses: m1v.uses,
                        providers: map_upserted(m1v.providers, p),
                        injectors: m1v.injectors,
                        implements: m1v.implements,
                    },
                ),
                None => None,
            },
            None => Some(m1v),
        },
    }
}

/// The bindings after an implementer is registered for a capability: the
/// implementer is appended to the capability's list in discovery order, or
/// opens a new binding.
pub open spec fn spec_add_implementer(
    bs: Seq<BindingView>,
    cap: Seq<char>,
    imp: Seq<char>,
) -> Seq<BindingView> {
    match map_find(bs, cap) {
        Some(b) => bs.update(
            map_index_of(bs, cap),
            BindingView { capability: b.capability, implementers: b.implementers.push(imp) },
        ),
        None => bs.push(BindingView { capability: cap, implementers: seq![imp] }),
    }
}

/// The module after a trait implementation is read: one that carries the
/// provider attribute, implements a named trait, and whose implementing
/// type is written as a path registers the resolved implementer under the
/// resolved capability path; anything else contributes nothing.
pub open spec fn spec_parse_item_impl(
    m: ModuleContextView,
    attrs: Seq<AttrView>,
    trait_path: Option<Vec<String>>,
    self_path: Option<Vec<String>>,
) -> ModuleContextView {
    if !map_contains(attrs, "provider"@) {
        m
    } else {
        match (trait_path, self_path) {
            (Some(tp), Some(sp)) => ModuleContextView {
                mods: m.mods,
                uses: m.uses,
                providers: m.providers,
                injectors: m.injectors,
                implements: spec_add_implementer(
                    m.implements,
                    spec_resolve_ref(m.mods, m.uses, views(tp@)),
                    spec_resolve_ref(m.mods, m.uses, views(sp@)),
                ),
            },
            _ => m,
        }
    }
}

impl ModuleContext {
    /// Reads one struct declaration, as `spec_parse_item_struct` says; on
    /// failure the module is unchanged.
    pub fn parse_item_struct(&mut self, item: &StructDecl) -> (r: Result<(), WireError>)
        requires
            old(self)@.wf(),
        ensures
            final(self)@.wf(),
            match r {
                Ok(_) => Some(final(self)@) == spec_parse_item_struct(old(self)@, *item),
                Err(e) => {
                    &&& spec_parse_item_struct(old(self)@, *item) is None
                    &&& *final(self) == *old(self)
                    &&& e matches WireError::UnsupportedFieldType { .. }
                },
            },
    {
        let injectable_name: String = "injectable".to_owned();
        let provider_name: String = "provider".to_owned();
        let inj_p: Option<Provider> = match get_attr(&item.attrs, &injectable_name) {
            Some(a) => match self.parse_provider(item, Some(a)) {
                Ok(p) => Some(p),
                Err(e) => {
                    return Err(e);
                },
            },
            None => None,
        };
        let prov_p: Option<Provider> = match get_attr(&item.attrs, &provider_name) {
            Some(a) => match self.parse_provider(item, Some(a)) {
                Ok(p) => Some(p),
                Err(e) => {
                    return Err(e);
                },
            },
            None => None,
        };
        match inj_p {
            Some(p) => {
                let ghost before = views(self.injectors@);
                self.injectors.push(p);
                proof {
                    assert(views(self.injectors@) =~= before.push(p@));
                }
            },
            None => {},
        }
        match prov_p {
            Some(p) => {
                map_upsert(&mut self.providers, p);
            },
            None => {},
        }
        Ok(())
    }

    /// Reads one trait implementation, as `spec_parse_item_impl` says.
    pub fn parse_item_impl(
        &mut self,
        attrs: &Vec<Attr>,
        trait_path: &Option<Vec<String>>,
        self_path: &Option<Vec<String>>,
    )
        requires
            old(self)@.wf(),
        ensures
            final(self)@.wf(),
            final(self).mods == old(self).mods,
            final(self).uses == old(self).uses,
            final(self).providers == old(self).providers,
            final(self).injectors == old(self).injectors,
            final(self)@.implements == spec_parse_item_impl(
                old(self)@,
                views(attrs@),
                *trait_path,
                *self_path,
            ).implements,
    {
        let provider_name: String = "provider".to_owned();
        if !has_attr(attrs, &provider_name) {
            return ;
        }
        match (trait_path, self_path) {
            (Some(tp), Some(sp)) => {
                let cap = self.resolve_abs_path_type(tp);
                let imp = self.resolve_abs_path_type(sp);
                let ghost capv = cap@;
                let ghost impv = imp@;
                let ghost bs = views(old(self).implements@);
                let mut i: usize = 0;
                while i < self.implements.len()
                    invariant
                        0 <= i <= self.implements@.len(),
                        *self == *old(self),
                        old(self)@.wf(),
                        bs == views(self.implements@),
                        bs.len() == self.implements@.len(),
                        forall|j: int| 0 <= j < i ==> bs[j].key() != capv,
                        capv == cap@,
                        impv == imp@,
                        capv == spec_resolve_ref(old(self)@.mods, old(self)@.uses, views(tp@)),
                        impv == spec_resolve_ref(old(self)@.mods, old(self)@.uses, views(sp@)),
                        map_contains(views(attrs@), "provider"@),
                        *trait_path == Some(*tp),
                        *self_path == Some(*sp),
                    decreases self.implements@.len() - i,
                {
                    if string_eq(&self.implements[i].capability, &cap) {
                        proof {
                            crate::table::lemma_map_find_at(bs, capv, i as int);
                        }
                        let mut b = self.implements.remove(i);
                        let ghost bv = b@;
                        b.implementers.push(imp);
                        proof {
                            assert(views(b.implementers@) =~= bv.implementers.push(impv));
                        }
                        self.implements.insert(i, b);
                        proof {
                            assert(views(self.implements@) =~~= spec_add_implementer(
                                bs,
                                capv,
                                impv,
                            ));
                            assert forall|a: int, c: int|
                                0 <= a < c < views(self.implements@).len() implies views(
                                self.implements@,
                            )[a].key() != views(self.implements@)[c].key() by {
                                assert(bs[a].key() != bs[c].key());
                                if a != i {
                                    assert(views(self.implements@)[a] == bs[a]);
                                }
                                if c != i {
                                    assert(views(self.implements@)[c] == bs[c]);
                                }
                            }
                        }
                        return ;
                    }
                    i = i + 1;
                }
                proof {
                    crate::table::lemma_map_find_none(bs, capv);
                }
                let mut impls: Vec<String> = Vec::new();
                impls.push(imp);
                self.implements.push(Binding { capability: cap, implementers: impls });
                proof {
                    assert(views(impls@) =~= seq![impv]);
                    assert(views(self.implements@) =~~= spec_add_implementer(bs, capv, impv));
                }
            },
            _ => {
                return ;
            },
        }
    }
}

/// One item read into a module: a nested module contributes its own
/// contexts and leaves this module unchanged; an import, a struct or an
/// implementation extends this module's tables; a failure anywhere fails
/// the whole parse.
pub open spec fn spec_parse_item(m: ModuleContextView, item: Item) -> Option<
    (ModuleContextView, Seq<ModuleContextView>),
>
    decreases item, 2int,
{
    match item {
        Item::Mod { name, items } => match items {
            Some(sub) => match spec_parse_module(m.mods.push(name@), sub@) {
                Some(ms) => Some((m, ms)),
                None => None,
            },
            None => Some((m, Seq::empty())),
        },
        Item::Use { tree } => Some(
            (
                ModuleContextView {
                    mods: m.mods,
                    uses: spec_upsert_entries(m.uses, spec_parse_use_tree(tree, Seq::empty())),
                    providers: m.providers,
                    injectors: m.injectors,
                    implements: m.implements,
                },
                Seq::empty(),
            ),
        ),
        Item::Struct { decl } => match spec_parse_item_struct(m, decl) {
            Some(m2) => Some((m2, Seq::empty())),
            None => None,
        },
        Item::Impl { attrs, trait_path, self_path } => Some(
            (spec_parse_item_impl(m, views(attrs@), trait_path, self_path), Seq::empty()),
        ),
        Item::Other => Some((m, Seq::empty())),
    }
}

/// A module's items read in order: the final state of the module and the
/// contexts its nested modules contribute, in traversal order.
pub open spec fn spec_parse_items(m: ModuleContextView, items: Seq<Item>) -> Option<
    (ModuleContextView, Seq<ModuleContextView>),
>
    decreases items, 0int,
{
    if items.len() == 0 {
        Some((m, Seq::empty()))
    } else {
        match spec_parse_item(m, items[0]) {
            None => None,
            Some((m2, subs)) => match spec_parse_items(m2, items.drop_first()) {
                None => None,
                Some((fm, more)) => Some((fm, subs + more)),
            },
        }
    }
}

/// The contexts a module contributes: those of its nested modules in
/// traversal order, then its own.
pub open spec fn spec_parse_module(mods: Seq<Seq<char>>, items: Seq<Item>) -> Option<
    Seq<ModuleContextView>,
>
    decreases items, 1int,
{
    match spec_parse_items(empty_module_view(mods), items) {
        Some((fm, subs)) => Some(subs.push(fm)),
        None => None,
    }
}

impl ModuleContext {
    /// Reads a nested module item: its items are parsed under this module's
    /// path extended with the nested module's name; a declaration without a
    /// body contributes nothing.
    pub fn parse_item_mod(&self, name: &String, content: &Option<Vec<Item>>) -> (r: Result<
        Vec<ModuleContext>,
        WireError,
    >)
        ensures
            match r {
                Ok(ms) => {
                    &&& (match content {
                        Some(sub) => spec_parse_module(self@.mods.push(name@), sub@) == Some(
                            views(ms@),
                        ),
                        None => views(ms@) == Seq::<ModuleContextView>::empty(),
                    })
                    &&& forall|i: int| 0 <= i < ms@.len() ==> (#[trigger] ms@[i])@.wf()
                },
                Err(e) => {
                    &&& content matches Some(sub) && spec_parse_module(
                        self@.mods.push(name@),
                        sub@,
                    ) is None
                    &&& e matches WireError::UnsupportedFieldType { .. }
                },
            },
        decreases *content, 1int,
    {
        match content {
            Some(sub) => {
                let mut clone_mods = clone_string_vec(&self.mods);
                clone_mods.push(name.clone());
                proof {
                    assert(views(clone_mods@) =~= self@.mods.push(name@));
                    assert(decreases_to!(*content => content->Some_0));
                    assert(decreases_to!(content->Some_0 => content->Some_0@));
                }
                parse_module(clone_mods, sub)
            },
            None => {
                let ms: Vec<ModuleContext> = Vec::new();
                proof {
                    assert(views(ms@) =~= Seq::<ModuleContextView>::empty());
                }
                Ok(ms)
            },
        }
    }
}

/// Reads a module's items into contexts, as `spec_parse_module` says: the
/// contexts of nested modules come first, in traversal order, and the
/// module's own context comes last. All returned contexts are well formed.
#[verifier::loop_isolation(false)]
pub fn parse_module(mods: Vec<String>, items: &Vec<Item>) -> (r: Result<
    Vec<ModuleContext>,
    WireError,
>)
    ensures
        match r {
            Ok(ms) => {
                &&& spec_parse_module(views(mods@), items@) == Some(views(ms@))
                &&& forall|i: int| 0 <= i < ms@.len() ==> (#[trigger] ms@[i])@.wf()
            },
            Err(e) => {
                &&& spec_parse_module(views(mods@), items@) is None
                &&& e matches WireError::UnsupportedFieldType { .. }
            },
        },
    decreases items@, 0int,
{
    let ghost mods_v = views(mods@);
    let mut modules: Vec<ModuleContext> = Vec::new();
    let mut module = ModuleContext::new(mods);
    let mut i: usize = 0;
    proof {
        assert(items@.skip(0) =~= items@);
        assert(views(modules@) =~= Seq::<ModuleContextView>::empty());
        assert(views(modules@) + Seq::<ModuleContextView>::empty() =~= views(modules@));
    }
    while i < items.len()
        invariant
            0 <= i <= items@.len(),
            module@.wf(),
            forall|j: int| 0 <= j < modules@.len() ==> (#[trigger] modules@[j])@.wf(),
            match spec_parse_items(module@, items@.skip(i as int)) {
                Some(p) => spec_parse_items(empty_module_view(mods_v), items@) == Some(
                    (p.0, views(modules@) + p.1),
                ),
                None => spec_parse_items(empty_module_view(mods_v), items@) is None,
            },
        decreases items@.len() - i,
    {
        let ghost m_before = module@;
        proof {
            assert(items@.skip(i as int)[0] == items@[i as int]);
            assert(items@.skip(i as int).drop_first() =~= items@.skip(i + 1));
        }
        match &items[i] {
            Item::Mod { name, items: content } => {
                proof {
                    assert(decreases_to!(items@ => items@[i as int]));
                    assert(decreases_to!(items@[i as int] => items@[i as int]->Mod_items));
                    assert(items@[i as int]->Mod_items == *content);
                    assert(decreases_to!(items@ => *content));
                }
                let mut subs = match module.parse_item_mod(name, content) {
                    Ok(s) => s,
                    Err(e) => {
                        proof {
                            assert(items@[i as int] matches Item::Mod { .. });
                            assert(spec_parse_item(m_before, items@[i as int]) is None);
                            assert(spec_parse_items(m_before, items@.skip(i as int)) is None);
                            assert(spec_parse_items(empty_module_view(mods_v), items@) is None);
                            assert(spec_parse_module(mods_v, items@) is None);
                        }
                        return Err(e);
                    },
                };
                let ghost prev = views(modules@);
                let ghost subsv = views(subs@);
                modules.append(&mut subs);
                proof {
                    assert(views(modules@) =~= prev + subsv);
                    assert(spec_parse_item(m_before, items@[i as int]) == Some((m_before, subsv)));
                    if spec_parse_items(module@, items@.skip(i + 1)) is Some {
                        let p2 = spec_parse_items(module@, items@.skip(i + 1))->Some_0;
                        assert(prev + (subsv + p2.1) =~= (prev + subsv) + p2.1);
                    }
                }
            },
            Item::Use { tree } => {
                module.parse_item_use(tree);
                proof {
                    assert(module@ =~~= spec_parse_item(m_before, items@[i as int])->Some_0.0);
                    assert(spec_parse_item(m_before, items@[i as int]) == Some(
                        (module@, Seq::<ModuleContextView>::empty()),
                    ));
                    if spec_parse_items(module@, items@.skip(i + 1)) is Some {
                        let p2 = spec_parse_items(module@, items@.skip(i + 1))->Some_0;
                        assert(views(modules@) + (Seq::<ModuleContextView>::empty() + p2.1) =~= views(
                            modules@,
                        ) + p2.1);
                    }
                }
            },
            Item::Struct { decl } => {
                match module.parse_item_struct(decl) {
                    Ok(_) => {},
                    Err(e) => {
                        proof {
                            assert(spec_parse_item(m_before, items@[i as int]) is None);
                            assert(spec_parse_items(m_before, items@.skip(i as int)) is None);
                            assert(spec_parse_items(empty_module_view(mods_v), items@) is None);
                            assert(spec_parse_module(mods_v, items@) is None);
                        }
                        return Err(e);
                    },
                };
                proof {
                    assert(spec_parse_item(m_before, items@[i as int]) == Some(
                        (module@, Seq::<ModuleContextView>::empty()),
                    ));
                    if spec_parse_items(module@, items@.skip(i + 1)) is Some {
                        let p2 = spec_parse_items(module@, items@.skip(i + 1))->Some_0;
                        assert(views(modules@) + (Seq::<ModuleContextView>::empty() + p2.1) =~= views(
                            modules@,
                        ) + p2.1);
                    }
                }
            },
            Item::Impl { attrs, trait_path, self_path } => {
                module.parse_item_impl(attrs, trait_path, self_path);
                proof {
                    assert(module@ =~~= spec_parse_item_impl(
                        m_before,
                        views(attrs@),
                        *trait_path,
                        *self_path,
                    ));
                    assert(spec_parse_item(m_before, items@[i as int]) == Some(
                        (module@, Seq::<ModuleContextView>::empty()),
                    ));
                    if spec_parse_items(module@, items@.skip(i + 1)) is Some {
                        let p2 = spec_parse_items(module@, items@.skip(i + 1))->Some_0;
                        assert(views(modules@) + (Seq::<ModuleContextView>::empty() + p2.1) =~= views(
                            modules@,
                        ) + p2.1);
                    }
                }
            },
            Item::Other => {
                proof {
                    assert(spec_parse_item(m_before, items@[i as int]) == Some(
                        (module@, Seq::<ModuleContextView>::empty()),
                    ));
                    if spec_parse_items(module@, items@.skip(i + 1)) is Some {
                        let p2 = spec_parse_items(module@, items@.skip(i + 1))->Some_0;
                        assert(views(modules@) + (Seq::<ModuleContextView>::empty() + p2.1) =~= views(
                            modules@,
                        ) + p2.1);
                    }
                }
            },
        }
        i = i + 1;
    }
    proof {
        assert(items@.skip(items@.len() as int) =~= Seq::<Item>::empty());
        assert(views(modules@) + Seq::<ModuleContextView>::empty() =~= views(modules@));
    }
    let ghost fm = module@;
    let ghost prev = views(modules@);
    modules.push(module);
    proof {
        assert(views(modules@) =~= prev.push(fm));
    }
    Ok(modules)
}

/// A source path's components mapped to module-path segments: the source
/// root maps to the crate root marker, `mod` and `lib` components name no
/// module of their own and are dropped, and any other component is kept.
pub open spec fn spec_map_components(cs: Seq<Seq<char>>) -> Seq<Seq<char>>
    decreases cs.len(),
{
    if cs.len() == 0 {
        Seq::empty()
    } else {
        let rest = spec_map_components(cs.drop_first());
        if cs[0] == "src"@ {
            seq!["crate"@] + rest
        } else if cs[0] == "mod"@ || cs[0] == "lib"@ {
            rest
        } else {
            seq![cs[0]] + rest
        }
    }
}

/// The module path of a source file: nothing unless the path starts at the
/// source root; otherwise its components with the file extension stripped
/// from the last one, mapped by `spec_map_components`.
pub open spec fn spec_parse_file_path(s: Seq<char>) -> Seq<Seq<char>> {
    let comps = spec_split(s, '/');
    if comps[0] != "src"@ {
        Seq::empty()
    } else {
        spec_map_components(comps.update(comps.len() - 1, spec_strip_extension(comps.last())))
    }
}

/// Derives the module path of a source file, as `spec_parse_file_path`
/// says.
pub fn parse_file_path(path: &str) -> (r: Vec<String>)
    ensures
        views(r@) == spec_parse_file_path(path@),
{
    let mut comps = split_on(path, '/');
    let src_name: String = "src".to_owned();
    if !string_eq(&comps[0], &src_name) {
        let r: Vec<String> = Vec::new();
        proof {
            assert(views(r@) =~= Seq::<Seq<char>>::empty());
        }
        return r;
    }
    let ghost comps0 = views(comps@);
    let lastidx = comps.len() - 1;
    let stem = strip_extension(comps[lastidx].as_str());
    comps[lastidx] = stem;
    let ghost stemmed = views(comps@);
    proof {
        assert(stemmed =~= comps0.update(
            comps0.len() - 1,
            spec_strip_extension(comps0.last()),
        ));
        assert(stemmed.skip(0) =~= stemmed);
    }
    let crate_name: String = "crate".to_owned();
    let mod_name: String = "mod".to_owned();
    let lib_name: String = "lib".to_owned();
    let mut out: Vec<String> = Vec::new();
    let mut i: usize = 0;
    proof {
        assert(views(out@) =~= Seq::<Seq<char>>::empty());
        assert(views(out@) + spec_map_components(stemmed) =~= spec_map_components(stemmed));
    }
    while i < comps.len()
        invariant
            0 <= i <= comps@.len(),
            stemmed == views(comps@),
            stemmed.len() == comps@.len(),
            src_name@ == "src"@,
            crate_name@ == "crate"@,
            mod_name@ == "mod"@,
            lib_name@ == "lib"@,
            spec_map_components(stemmed) == views(out@) + spec_map_components(
                stemmed.skip(i as int),
            ),
        decreases comps@.len() - i,
    {
        let ghost prev = views(out@);
        proof {
            assert(stemmed.skip(i as int)[0] == stemmed[i as int]);
            assert(stemmed.skip(i as int).drop_first() =~= stemmed.skip(i + 1));
        }
        if string_eq(&comps[i], &src_name) {
            out.push(crate_name.clone());
            proof {
                assert(views(out@) =~= prev.push("crate"@));
                assert(prev.push("crate"@) =~= prev + seq!["crate"@]);
                assert(prev + (seq!["crate"@] + spec_map_components(stemmed.skip(i + 1))) =~= (prev
                    + seq!["crate"@]) + spec_map_components(stemmed.skip(i + 1)));
            }
        } else if string_eq(&comps[i], &mod_name) || string_eq(&comps[i], &lib_name) {
        } else {
            out.push(comps[i].clone());
            proof {
                assert(views(out@) =~= prev.push(stemmed[i as int]));
                assert(prev.push(stemmed[i as int]) =~= prev + seq![stemmed[i as int]]);
                assert(prev + (seq![stemmed[i as int]] + spec_map_components(stemmed.skip(i + 1)))
                    =~= (prev + seq![stemmed[i as int]]) + spec_map_components(
                    stemmed.skip(i + 1),
                ));
            }
        }
        i = i + 1;
    }
    proof {
        assert(stemmed.skip(stemmed.len() as int) =~= Seq::<Seq<char>>::empty());
        assert(views(out@) + Seq::<Seq<char>>::empty() =~= views(out@));
    }
    out
}

} // verus!

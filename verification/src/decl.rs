//! Declarations and their metadata. A `Provider` is a constructible unit:
//! an absolute path, a short name, metadata (configuration key, export flag,
//! rename), and the dependency requests its annotated fields declare, in
//! field order. A `Dep` is a manual dependency: a value the generated
//! constructor reads from externally supplied input instead of constructing.

use vstd::prelude::*;

use crate::table::{views, Keyed, KeyedView};
use crate::text::{last_segment, snake_of, spec_last_segment, to_snake_case};

verus! {

/// One argument of a declaration attribute: a name, possibly with a quoted
/// value, as in `config("account")` or `export`.
#[derive(Clone)]
pub struct AttrArg {
    pub name: String,
    pub value: Option<String>,
}

#[verifier::ext_equal]
pub struct AttrArgView {
    pub name: Seq<char>,
    pub value: Option<Seq<char>>,
}

impl View for AttrArg {
    type V = AttrArgView;

    open spec fn view(&self) -> AttrArgView {
        AttrArgView { name: self.name@, value: self.value.deep_view() }
    }
}

impl DeepView for AttrArg {
    type V = AttrArgView;

    open spec fn deep_view(&self) -> AttrArgView {
        self@
    }
}

/// A declaration attribute: its name and its arguments in written order.
#[derive(Clone)]
pub struct Attr {
    pub name: String,
    pub args: Vec<AttrArg>,
}

#[verifier::ext_equal]
pub struct AttrView {
    pub name: Seq<char>,
    pub args: Seq<AttrArgView>,
}

impl View for Attr {
    type V = AttrView;

    open spec fn view(&self) -> AttrView {
        AttrView { name: self.name@, args: views(self.args@) }
    }
}

impl DeepView for Attr {
    type V = AttrView;

    open spec fn deep_view(&self) -> AttrView {
        self@
    }
}

impl KeyedView for AttrView {
    open spec fn key(self) -> Seq<char> {
        self.name
    }
}

impl Keyed for Attr {
    fn key_ref(&self) -> (r: &String) {
        &self.name
    }
}

/// Per-declaration metadata: an optional configuration key, whether the
/// declaration is exported as a public container field, and an optional
/// rename for its generated identifier.
#[derive(Clone)]
pub struct Metadata {
    pub config: Option<String>,
    pub export: bool,
    pub rename: Option<String>,
}

#[verifier::ext_equal]
pub struct MetadataView {
    pub config: Option<Seq<char>>,
    pub export: bool,
    pub rename: Option<Seq<char>>,
}

impl View for Metadata {
    type V = MetadataView;

    open spec fn view(&self) -> MetadataView {
        MetadataView {
            config: self.config.deep_view(),
            export: self.export,
            rename: self.rename.deep_view(),
        }
    }
}

/// One dependency request of a declaration: the referenced type's absolute
/// path, whether the reference was a capability (trait object), the
/// ownership wrapper it was written under, and whether the value is supplied
/// manually instead of constructed.
#[derive(Clone)]
pub struct Inject {
    pub trait_object: bool,
    pub wrapper_type: Option<String>,
    pub struct_type: String,
    pub manual: bool,
}

#[verifier::ext_equal]
pub struct InjectView {
    pub trait_object: bool,
    pub wrapper_type: Option<Seq<char>>,
    pub struct_type: Seq<char>,
    pub manual: bool,
}

impl View for Inject {
    type V = InjectView;

    open spec fn view(&self) -> InjectView {
        InjectView {
            trait_object: self.trait_object,
            wrapper_type: self.wrapper_type.deep_view(),
            struct_type: self.struct_type@,
            manual: self.manual,
        }
    }
}

impl DeepView for Inject {
    type V = InjectView;

    open spec fn deep_view(&self) -> InjectView {
        self@
    }
}

/// A constructible declaration.
#[derive(Clone)]
pub struct Provider {
    pub struct_type: String,
    pub ident: String,
    pub metadata: Metadata,
    pub injects: Vec<Inject>,
}

#[verifier::ext_equal]
pub struct ProviderView {
    pub struct_type: Seq<char>,
    pub ident: Seq<char>,
    pub metadata: MetadataView,
    pub injects: Seq<InjectView>,
}

impl View for Provider {
    type V = ProviderView;

    open spec fn view(&self) -> ProviderView {
        ProviderView {
            struct_type: self.struct_type@,
            ident: self.ident@,
            metadata: self.metadata@,
            injects: views(self.injects@),
        }
    }
}

impl DeepView for Provider {
    type V = ProviderView;

    open spec fn deep_view(&self) -> ProviderView {
        self@
    }
}

impl KeyedView for ProviderView {
    open spec fn key(self) -> Seq<char> {
        self.struct_type
    }
}

impl Keyed for Provider {
    fn key_ref(&self) -> (r: &String) {
        &self.struct_type
    }
}

/// A registered manual dependency: the derived identifier it is read by,
/// the referenced type's path, and how the field is written (trait object,
/// ownership wrapper).
#[derive(Clone)]
pub struct Dep {
    pub ident: String,
    pub path: String,
    pub trait_object: bool,
    pub wrapper_type: Option<String>,
}

#[verifier::ext_equal]
pub struct DepView {
    pub ident: Seq<char>,
    pub path: Seq<char>,
    pub trait_object: bool,
    pub wrapper_type: Option<Seq<char>>,
}

impl View for Dep {
    type V = DepView;

    open spec fn view(&self) -> DepView {
        DepView {
            ident: self.ident@,
            path: self.path@,
            trait_object: self.trait_object,
            wrapper_type: self.wrapper_type.deep_view(),
        }
    }
}

impl DeepView for Dep {
    type V = DepView;

    open spec fn deep_view(&self) -> DepView {
        self@
    }
}

impl KeyedView for DepView {
    open spec fn key(self) -> Seq<char> {
        self.ident
    }
}

impl Keyed for Dep {
    fn key_ref(&self) -> (r: &String) {
        &self.ident
    }
}

/// A capability binding: a capability's absolute path and the absolute
/// paths of its implementers, in discovery order.
#[derive(Clone)]
pub struct Binding {
    pub capability: String,
    pub implementers: Vec<String>,
}

#[verifier::ext_equal]
pub struct BindingView {
    pub capability: Seq<char>,
    pub implementers: Seq<Seq<char>>,
}

impl View for Binding {
    type V = BindingView;

    open spec fn view(&self) -> BindingView {
        BindingView { capability: self.capability@, implementers: views(self.implementers@) }
    }
}

impl DeepView for Binding {
    type V = BindingView;

    open spec fn deep_view(&self) -> BindingView {
        self@
    }
}

impl KeyedView for BindingView {
    open spec fn key(self) -> Seq<char> {
        self.capability
    }
}

impl Keyed for Binding {
    fn key_ref(&self) -> (r: &String) {
        &self.capability
    }
}

/// A copy of an optional string.
pub fn clone_opt_string(o: &Option<String>) -> (r: Option<String>)
    ensures
        r == *o,
{
    match o {
        Some(s) => Some(s.clone()),
        None => None,
    }
}

/// The metadata after one attribute argument is applied: `config` takes the
/// given key, or the snake-case short name when written bare; `export` sets
/// the flag; `rename` takes the given identifier and is ignored when bare.
pub open spec fn spec_apply_attr_arg(m: MetadataView, ident: Seq<char>, a: AttrArgView) -> MetadataView {
    if a.name == "config"@ {
        let key = match a.value {
            Some(v) => v,
            None => snake_of(ident),
        };
        MetadataView { config: Some(key), export: m.export, rename: m.rename }
    } else if a.name == "export"@ {
        MetadataView { config: m.config, export: true, rename: m.rename }
    } else if a.name == "rename"@ {
        match a.value {
            Some(v) => MetadataView { config: m.config, export: m.export, rename: Some(v) },
            None => m,
        }
    } else {
        m
    }
}

/// Whether some argument is named `manual`.
pub open spec fn spec_has_manual(args: Seq<AttrArgView>) -> bool {
    exists|i: int| 0 <= i < args.len() && args[i].name == "manual"@
}

/// The metadata after every argument is applied, in order.
pub open spec fn spec_apply_attr_args(
    m: MetadataView,
    ident: Seq<char>,
    args: Seq<AttrArgView>,
) -> MetadataView
    decreases args.len(),
{
    if args.len() == 0 {
        m
    } else {
        spec_apply_attr_args(spec_apply_attr_arg(m, ident, args[0]), ident, args.drop_first())
    }
}

impl Provider {
    /// A declaration with the given absolute path and short name, no
    /// metadata and no dependency requests yet.
    pub fn new(struct_type: String, ident: String) -> (r: Provider)
        ensures
            r@ == (ProviderView {
                struct_type: struct_type@,
                ident: ident@,
                metadata: MetadataView { config: None, export: false, rename: None },
                injects: Seq::empty(),
            }),
    {
        let r = Provider {
            struct_type,
            ident,
            metadata: Metadata { config: None, export: false, rename: None },
            injects: Vec::new(),
        };
        proof {
            assert(views(r.injects@) =~= Seq::<InjectView>::empty());
        }
        r
    }

    /// Applies a declaration attribute's arguments to the metadata, in
    /// order, as `spec_apply_attr_args` says; the rest of the declaration
    /// is unchanged.
    pub fn parse_attr(&mut self, args: &Vec<AttrArg>)
        ensures
            final(self).struct_type == old(self).struct_type,
            final(self).ident == old(self).ident,
            final(self).injects == old(self).injects,
            final(self)@.metadata == spec_apply_attr_args(
                old(self)@.metadata,
                old(self)@.ident,
                views(args@),
            ),
    {
        let ghost idv = old(self)@.ident;
        let ghost vs = views(args@);
        let config_name: String = "config".to_owned();
        let export_name: String = "export".to_owned();
        let rename_name: String = "rename".to_owned();
        let mut i: usize = 0;
        proof {
            assert(vs.skip(0) =~= vs);
        }
        while i < args.len()
            invariant
                0 <= i <= args@.len(),
                vs == views(args@),
                vs.len() == args@.len(),
                config_name@ == "config"@,
                export_name@ == "export"@,
                rename_name@ == "rename"@,
                idv == old(self)@.ident,
                self.struct_type == old(self).struct_type,
                self.ident == old(self).ident,
                self.injects == old(self).injects,
                spec_apply_attr_args(old(self)@.metadata, idv, vs) == spec_apply_attr_args(
                    self@.metadata,
                    idv,
                    vs.skip(i as int),
                ),
            decreases args@.len() - i,
        {
            let arg = &args[i];
            proof {
                assert(vs.skip(i as int)[0] == vs[i as int]);
                assert(vs.skip(i as int).drop_first() =~= vs.skip(i + 1));
            }
            if crate::table::string_eq(&arg.name, &config_name) {
                match &arg.value {
                    Some(v) => {
                        self.metadata.config = Some(v.clone());
                    },
                    None => {
                        self.metadata.config = Some(to_snake_case(self.ident.as_str()));
                    },
                }
            } else if crate::table::string_eq(&arg.name, &export_name) {
                self.metadata.export = true;
            } else if crate::table::string_eq(&arg.name, &rename_name) {
                match &arg.value {
                    Some(v) => {
                        self.metadata.rename = Some(v.clone());
                    },
                    None => {},
                }
            }
            i = i + 1;
        }
        proof {
            assert(vs.skip(vs.len() as int) =~= Seq::<AttrArgView>::empty());
        }
    }
}

impl Inject {
    /// Applies a dependency attribute's arguments: an argument named
    /// `manual` marks the request as externally supplied.
    pub fn parse_attr(&mut self, args: &Vec<AttrArg>)
        ensures
            final(self).struct_type == old(self).struct_type,
            final(self).trait_object == old(self).trait_object,
            final(self).wrapper_type == old(self).wrapper_type,
            final(self).manual == (old(self).manual || spec_has_manual(views(args@))),
    {
        let ghost vs = views(args@);
        let manual_name: String = "manual".to_owned();
        let mut i: usize = 0;
        while i < args.len()
            invariant
                0 <= i <= args@.len(),
                vs == views(args@),
                vs.len() == args@.len(),
                manual_name@ == "manual"@,
                self.struct_type == old(self).struct_type,
                self.trait_object == old(self).trait_object,
                self.wrapper_type == old(self).wrapper_type,
                self.manual == (old(self).manual || exists|j: int|
                    0 <= j < i && vs[j].name == "manual"@),
            decreases args@.len() - i,
        {
            proof {
                assert(vs[i as int] == args@[i as int]@);
            }
            if crate::table::string_eq(&args[i].name, &manual_name) {
                self.manual = true;
                proof {
                    assert(vs[i as int].name == "manual"@);
                }
            }
            i = i + 1;
        }
    }

    /// The manual dependency this request registers: its identifier is the
    /// snake-case form of the last segment of the referenced path.
    pub fn build_dep(&self) -> (d: Dep)
        ensures
            d@ == (DepView {
                ident: snake_of(spec_last_segment(self.struct_type@)),
                path: self.struct_type@,
                trait_object: self.trait_object,
                wrapper_type: self@.wrapper_type,
            }),
    {
        let last = last_segment(self.struct_type.as_str());
        Dep {
            ident: to_snake_case(last.as_str()),
            path: self.struct_type.clone(),
            trait_object: self.trait_object,
            wrapper_type: clone_opt_string(&self.wrapper_type),
        }
    }
}

/// Whether some attribute has the given name.
pub fn has_attr(attrs: &Vec<Attr>, name: &String) -> (r: bool)
    ensures
        r == crate::table::map_contains(views(attrs@), name@),
{
    match crate::table::map_get(attrs, name) {
        Some(_) => true,
        None => false,
    }
}

/// The first attribute with the given name, if any.
pub fn get_attr<'a>(attrs: &'a Vec<Attr>, name: &String) -> (r: Option<&'a Attr>)
    ensures
        match r {
            Some(a) => crate::table::map_find(views(attrs@), name@) == Some(a@),
            None => !crate::table::map_contains(views(attrs@), name@),
        },
{
    crate::table::map_get(attrs, name)
}

/// Which fields of an annotated struct become constructor parameters: the
/// ones carrying the `inject` attribute, in declared order; every other
/// field is default-initialized by the generated constructor.
pub fn injectable_params(fields: &Vec<crate::ast::FieldDecl>) -> (r: Vec<bool>)
    ensures
        r@.len() == fields@.len(),
        forall|i: int|
            0 <= i < fields@.len() ==> r@[i] == crate::table::map_contains(
                views((#[trigger] fields@[i]).attrs@),
                "inject"@,
            ),
{
    let inject_name: String = "inject".to_owned();
    let mut r: Vec<bool> = Vec::new();
    let mut i: usize = 0;
    while i < fields.len()
        invariant
            0 <= i <= fields@.len(),
            inject_name@ == "inject"@,
            r@.len() == i,
            forall|j: int|
                0 <= j < i ==> r@[j] == crate::table::map_contains(
                    views((#[trigger] fields@[j]).attrs@),
                    "inject"@,
                ),
        decreases fields@.len() - i,
    {
        r.push(has_attr(&fields[i].attrs, &inject_name));
        i = i + 1;
    }
    r
}

} // verus!

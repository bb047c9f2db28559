use vstd::prelude::*;
use crate::ast::{
    copy_ty, ty_same, ForeignFn,
    path_name, Attr, Body, EnumDecl, ForeignItem, ForeignMod, GenericArg, ImplBlock, ImplItem, Item,
    Method, MethodArg, Module, Pat, PathSegment, StructDecl, Ty,
};
use crate::conversion::AdditionalNeed;
use crate::converter::{
    convert_foreign_fn, fn_rewritten, is_constructor, names_of, type_name_of_path, wrapper_describes_in,
    wrapper_needed_in,
};
use crate::triviality::{struct_decl_view, type_trivial, ByValueChecker, DeclV};
use crate::types::{make_unique_name_of, str_eq, TypeName};

verus! {

/// Why a conversion failed. No output is produced in any of these cases.
#[derive(Debug)]
pub enum ConvertError {
    /// The input module has no body.
    NoContent,
    /// A type requested as plain data is not trivial; carries its name.
    UnsafePODType(String),
    /// A foreign-linkage block holds something other than a function.
    UnknownForeignItem,
}

/// The two output modules, after any other items, and the work left for
/// the second code generator.
pub struct BridgeConversionResults {
    pub items: Vec<Item>,
    pub additional_cpp_needs: Vec<AdditionalNeed>,
}

/// The aggregates declared by `items`, in order, as the classifier sees
/// them.
pub open spec fn item_decls(items: Seq<Item>) -> Seq<DeclV>
    decreases items.len(),
{
    if items.len() == 0 {
        Seq::empty()
    } else {
        let rest = item_decls(items.drop_last());
        match items.last() {
            Item::Struct(s) => rest.push(struct_decl_view(s)),
            Item::Enum(e) => rest.push(DeclV { name: e.name@, fields: None }),
            _ => rest,
        }
    }
}

/// The names of the structs and enums among `items`, in order.
pub open spec fn decl_names(items: Seq<Item>) -> Seq<Seq<char>>
    decreases items.len(),
{
    if items.len() == 0 {
        Seq::empty()
    } else {
        let rest = decl_names(items.drop_last());
        match items.last() {
            Item::Struct(s) => rest.push(s.name@),
            Item::Enum(e) => rest.push(e.name@),
            _ => rest,
        }
    }
}

/// Every foreign-linkage block in `items` declares functions only.
pub open spec fn foreign_items_known(items: Seq<Item>) -> bool {
    forall|i: int|
        0 <= i < items.len() ==> match #[trigger] items[i] {
            Item::ForeignMod(fm) => forall|j: int|
                0 <= j < fm.items.len() ==> (#[trigger] fm.items@[j]) is Fn,
            _ => true,
        }
}

/// Every requested type is trivial among the aggregates `decls`.
pub open spec fn requests_trivial(decls: Seq<DeclV>, requests: Seq<TypeName>) -> bool {
    forall|i: int| 0 <= i < requests.len() ==> #[trigger] type_trivial(decls, requests[i]@)
}

/// The constructor parameters of a method: each typed parameter whose type
/// is a path and whose pattern is a name, as (type name, parameter name).
pub open spec fn ctor_args(args: Seq<MethodArg>) -> Seq<(Seq<char>, Seq<char>)>
    decreases args.len(),
{
    if args.len() == 0 {
        Seq::empty()
    } else {
        let rest = ctor_args(args.drop_last());
        match args.last() {
            MethodArg::Typed(a) => match a.ty {
                Ty::Path { segments } => match a.pat {
                    Pat::Ident(x) => rest.push((path_name(segments@), x@)),
                    _ => rest,
                },
                _ => rest,
            },
            _ => rest,
        }
    }
}

/// A single-segment path naming `ident`.
fn simple_path(ident: String, args: Vec<GenericArg>) -> (r: PathSegment)
    ensures
        r.ident == ident,
        r.args == args,
{
    PathSegment { ident, args }
}

/// A method that is turned into a factory: one named `new` with a
/// return type.
pub open spec fn is_ctor_method(m: Method) -> bool {
    m.name@ == "new"@ && m.ret is Some
}

/// `block` is the impl block, for self type `self_ty`, holding the factory
/// `make_unique` that replaces constructor `m` of the type named `ty`.
pub open spec fn factory_block(ty: Seq<char>, self_ty: Ty, m: Method, block: ImplBlock) -> bool {
    let ca = ctor_args(m.args@);
    &&& block.attrs.len() == 0
    &&& !block.is_unsafe
    &&& block.self_ty == self_ty
    &&& block.items.len() == 1
    &&& block.items@[0] matches ImplItem::Method(nm) && {
        &&& nm.name@ == "make_unique"@
        &&& !nm.is_unsafe
        &&& nm.args == m.args
        &&& nm.attrs == m.attrs
        &&& nm.body matches Body::Forward { callee, args } && callee@ == make_unique_name_of(ty)
            && args.len() == ca.len()
            && forall|j: int| 0 <= j < ca.len() ==> (#[trigger] args@[j])@ == ca[j].1
        &&& nm.ret matches Some(Ty::Path { segments }) && segments.len() == 2
            && segments@[0].ident@ == "cxx"@ && segments@[1].ident@ == "UniquePtr"@
            && segments@[1].args.len() == 1
            && segments@[1].args@[0] == GenericArg::Type(m.ret->0)
    }
}

/// `need` asks for the factory of the type named `ty` that constructor `m`
/// needs: one taking the types of `m`'s constructor parameters, in order.
pub open spec fn factory_need(ty: Seq<char>, m: Method, need: AdditionalNeed) -> bool {
    let ca = ctor_args(m.args@);
    need matches AdditionalNeed::MakeUnique(t, arg_types) && t@ == ty
        && arg_types.len() == ca.len()
        && forall|j: int| 0 <= j < ca.len() ==> (#[trigger] arg_types@[j])@ == ca[j].0
}

/// Rewrites constructor `m` of type `ty`, whose impl block is for
/// `self_ty`, into the factory `make_unique`, which forwards its arguments
/// to the bridge function `Type_make_unique` and returns a
/// unique-ownership handle. Returns the impl block holding it and the
/// factory that the second generator must provide; a constructor without a
/// return type is left alone.
pub fn convert_new_method(
    ty: &TypeName,
    self_ty: Ty,
    generics: String,
    trait_path: Option<String>,
    m: Method,
) -> (r: Option<(ImplBlock, AdditionalNeed)>)
    ensures
        r is None <==> m.ret is None,
        r matches Some((block, need)) ==> factory_block(ty@, self_ty, m, block) && factory_need(ty@, m, need)
            && block.generics == generics && block.trait_path == trait_path,
{
    if m.ret.is_none() {
        return None;
    }
    let mut arg_types: Vec<TypeName> = Vec::new();
    let mut arg_names: Vec<String> = Vec::new();
    let mut i: usize = 0;
    while i < m.args.len()
        invariant
            i <= m.args.len(),
            arg_types.len() == arg_names.len(),
            arg_types.len() == ctor_args(m.args@.subrange(0, i as int)).len(),
            forall|j: int| 0 <= j < arg_types.len() ==> (#[trigger] arg_types@[j])@ == ctor_args(m.args@.subrange(0, i as int))[j].0,
            forall|j: int| 0 <= j < arg_names.len() ==> (#[trigger] arg_names@[j])@ == ctor_args(m.args@.subrange(0, i as int))[j].1,
        decreases m.args.len() - i,
    {
        proof {
            assert(m.args@.subrange(0, i as int + 1).drop_last() =~= m.args@.subrange(0, i as int));
        }
        match &m.args[i] {
            MethodArg::Typed(a) => match &a.ty {
                Ty::Path { segments } => match &a.pat {
                    Pat::Ident(x) => {
                        arg_types.push(type_name_of_path(segments));
                        arg_names.push(x.clone());
                    },
                    _ => {},
                },
                _ => {},
            },
            _ => {},
        }
        i = i + 1;
    }
    proof {
        assert(m.args@.subrange(0, m.args.len() as int) =~= m.args@);
    }
    let Method { attrs, is_unsafe: _, name: _, args, ret, body: _ } = m;
    let old_ret = match ret {
        Some(t) => t,
        None => Ty::Other { text: String::new() },
    };
    let mut handle_args: Vec<GenericArg> = Vec::new();
    handle_args.push(GenericArg::Type(old_ret));
    let mut segments: Vec<PathSegment> = Vec::new();
    segments.push(simple_path(String::from_str("cxx"), Vec::new()));
    segments.push(simple_path(String::from_str("UniquePtr"), handle_args));
    let method = Method {
        attrs,
        is_unsafe: false,
        name: String::from_str("make_unique"),
        args,
        ret: Some(Ty::Path { segments }),
        body: Body::Forward { callee: ty.make_unique_name(), args: arg_names },
    };
    let mut items: Vec<ImplItem> = Vec::new();
    items.push(ImplItem::Method(method));
    let block = ImplBlock {
        attrs: Vec::new(),
        is_unsafe: false,
        generics,
        trait_path,
        self_ty,
        items,
    };
    Some((block, AdditionalNeed::MakeUnique(ty.copy(), arg_types)))
}

/// Declares type `t` to the bridge: an alias in the foreign-linkage block,
/// an owning-handle stub in the bridge module when `t` is opaque, and a binding of the
/// reclassified type to its foreign identity and triviality.
fn generate_type_alias(
    t: TypeName,
    trivial: bool,
    foreign_items: &mut Vec<ForeignItem>,
    bridge_items: &mut Vec<Item>,
    all_items: &mut Vec<Item>,
    types_found: &mut Vec<TypeName>,
)
    ensures
        final(foreign_items)@.len() == old(foreign_items)@.len() + 1,
        final(foreign_items)@.drop_last() == old(foreign_items)@,
        final(foreign_items)@.last() matches ForeignItem::TypeAlias(x) && x@ == t@,
        trivial ==> final(bridge_items)@ == old(bridge_items)@,
        !trivial ==> final(bridge_items)@.len() == old(bridge_items)@.len() + 1,
        !trivial ==> final(bridge_items)@.drop_last() == old(bridge_items)@,
        !trivial ==> is_stub_of(final(bridge_items)@.last(), t@),
        final(all_items)@.len() == old(all_items)@.len() + 1,
        final(all_items)@.drop_last() == old(all_items)@,
        final(all_items)@.last() matches Item::ExternType { ident, id, trivial: k } && ident@ == t@
            && id@ == t@ && k == trivial,
        final(types_found)@ == old(types_found)@.push(t),
{
    foreign_items.push(ForeignItem::TypeAlias(t.to_ident()));
    if !trivial {
        bridge_items.push(Item::UniquePtrStub(t.to_ident()));
    }
    all_items.push(Item::ExternType { ident: t.to_ident(), id: t.to_cpp_name(), trivial });
    types_found.push(t);
    proof {
        assert(final(foreign_items)@.drop_last() =~= old(foreign_items)@);
        if !trivial {
            assert(final(bridge_items)@.drop_last() =~= old(bridge_items)@);
        }
        assert(final(all_items)@.drop_last() =~= old(all_items)@);
    }
}

/// The inclusion directives: the configured ones, then the extra one.
fn build_include_foreign_items(include_list: &Vec<String>, extra_inclusion: &Option<String>) -> (r: Vec<ForeignItem>)
    ensures
        r.len() == include_list.len() + if extra_inclusion is Some { 1int } else { 0int },
        forall|i: int| 0 <= i < include_list.len() ==> ((#[trigger] r@[i]) matches ForeignItem::Include(x) && x@ == include_list@[i]@),
        extra_inclusion matches Some(e) ==> r@.last() matches ForeignItem::Include(x) && x@ == e@,
{
    let mut r: Vec<ForeignItem> = Vec::new();
    let mut i: usize = 0;
    while i < include_list.len()
        invariant
            i <= include_list.len(),
            r.len() == i,
            forall|j: int| 0 <= j < i ==> ((#[trigger] r@[j]) matches ForeignItem::Include(x) && x@ == include_list@[j]@),
        decreases include_list.len() - i,
    {
        r.push(ForeignItem::Include(include_list[i].clone()));
        i = i + 1;
    }
    match extra_inclusion {
        Some(e) => r.push(ForeignItem::Include(e.clone())),
        None => {},
    }
    r
}

/// Feeds every struct and enum of `items` to the classifier, then checks
/// the requested types.
fn find_nested_pod_types(checker: &mut ByValueChecker, items: &Vec<Item>, requests: &Vec<TypeName>) -> (r: Result<(), ConvertError>)
    requires
        old(checker).wf(),
        old(checker).decls() == Seq::<DeclV>::empty(),
    ensures
        final(checker).wf(),
        final(checker).is_resolved(),
        final(checker).decls() == item_decls(items@),
        r is Ok <==> requests_trivial(item_decls(items@), requests@),
        r matches Err(e) ==> e matches ConvertError::UnsafePODType(n) && exists|i: int| 0 <= i < requests.len()
            && n@ == requests@[i]@ && !type_trivial(item_decls(items@), requests@[i]@)
            && forall|j: int| 0 <= j < i ==> #[trigger] type_trivial(item_decls(items@), requests@[j]@),
{
    let mut i: usize = 0;
    while i < items.len()
        invariant
            i <= items.len(),
            checker.wf(),
            checker.decls() == item_decls(items@.subrange(0, i as int)),
        decreases items.len() - i,
    {
        proof {
            assert(items@.subrange(0, i as int + 1).drop_last() =~= items@.subrange(0, i as int));
        }
        match &items[i] {
            Item::Struct(s) => checker.ingest_struct(s),
            Item::Enum(e) => checker.ingest_pod_type(TypeName::from_ident(&e.name)),
            _ => {},
        }
        i = i + 1;
    }
    proof {
        assert(items@.subrange(0, items.len() as int) =~= items@);
    }
    match checker.satisfy_requests(requests) {
        Ok(()) => Ok(()),
        Err(n) => Err(ConvertError::UnsafePODType(n)),
    }
}

/// What the conversion puts at top level for one input item: the binding
/// of a discovered type with its triviality.
pub enum TopOut {
    Bind(Seq<char>, bool),
}

pub open spec fn top_of(decls: Seq<DeclV>, item: Item) -> Seq<TopOut> {
    match item {
        Item::ForeignMod(_) => Seq::empty(),
        Item::Impl(_) => Seq::empty(),
        Item::Struct(s) => seq![TopOut::Bind(s.name@, type_trivial(decls, s.name@))],
        Item::Enum(e) => seq![TopOut::Bind(e.name@, true)],
        _ => Seq::empty(),
    }
}

/// The top-level output expected for `items`, in order.
pub open spec fn tops(decls: Seq<DeclV>, items: Seq<Item>) -> Seq<TopOut>
    decreases items.len(),
{
    if items.len() == 0 {
        Seq::empty()
    } else {
        tops(decls, items.drop_last()) + top_of(decls, items.last())
    }
}

pub open spec fn top_match(o: Item, e: TopOut) -> bool {
    match e {
        TopOut::Bind(n, t) => o matches Item::ExternType { ident, id, trivial } && ident@ == n && id@ == n
            && trivial == t,
    }
}

pub open spec fn tops_match(out: Seq<Item>, exp: Seq<TopOut>) -> bool {
    out.len() == exp.len() && forall|k: int| 0 <= k < out.len() ==> #[trigger] top_match(out[k], exp[k])
}

/// What the conversion puts in the reclassified module for one input item:
/// a struct or enum (with its triviality), an impl block without its
/// constructors, the factory replacing constructor `m` of an impl block,
/// or any other item unchanged.
pub enum BodyOut {
    Decl(Item, bool),
    Kept(ImplBlock),
    Factory(ImplBlock, Method),
    Keep(Item),
}

/// Whether the constructors of impl block `i` are turned into factories.
pub open spec fn converts_ctors(i: ImplBlock) -> bool {
    i.self_ty is Path
}

pub open spec fn impl_type_name(i: ImplBlock) -> Seq<char> {
    path_name(i.self_ty->segments@)
}

/// The items of an impl block other than its constructors.
pub open spec fn non_ctor_items(its: Seq<ImplItem>) -> Seq<ImplItem>
    decreases its.len(),
{
    if its.len() == 0 {
        Seq::empty()
    } else {
        let rest = non_ctor_items(its.drop_last());
        match its.last() {
            ImplItem::Method(m) => if is_ctor_method(m) {
                rest
            } else {
                rest.push(its.last())
            },
            _ => rest.push(its.last()),
        }
    }
}

/// One factory per constructor among `its`, items of impl block `i`, in
/// order.
pub open spec fn impl_factories(its: Seq<ImplItem>, i: ImplBlock) -> Seq<BodyOut>
    decreases its.len(),
{
    if its.len() == 0 {
        Seq::empty()
    } else {
        let rest = impl_factories(its.drop_last(), i);
        match its.last() {
            ImplItem::Method(m) => if is_ctor_method(m) {
                rest.push(BodyOut::Factory(i, m))
            } else {
                rest
            },
            _ => rest,
        }
    }
}

/// One factory request per constructor among `its`, in order.
pub open spec fn impl_ctor_needs(its: Seq<ImplItem>, n: Seq<char>) -> Seq<NeedOut>
    decreases its.len(),
{
    if its.len() == 0 {
        Seq::empty()
    } else {
        let rest = impl_ctor_needs(its.drop_last(), n);
        match its.last() {
            ImplItem::Method(m) => if is_ctor_method(m) {
                rest.push(NeedOut::Factory(n, m))
            } else {
                rest
            },
            _ => rest,
        }
    }
}

pub open spec fn impl_body(i: ImplBlock) -> Seq<BodyOut> {
    if converts_ctors(i) {
        impl_factories(i.items@, i).push(BodyOut::Kept(i))
    } else {
        seq![BodyOut::Kept(i)]
    }
}

pub open spec fn impl_needs(i: ImplBlock) -> Seq<NeedOut> {
    if converts_ctors(i) {
        impl_ctor_needs(i.items@, impl_type_name(i))
    } else {
        Seq::empty()
    }
}

pub open spec fn body_of(decls: Seq<DeclV>, item: Item) -> Seq<BodyOut> {
    match item {
        Item::Struct(s) => seq![BodyOut::Decl(item, type_trivial(decls, s.name@))],
        Item::Enum(_) => seq![BodyOut::Decl(item, true)],
        Item::Impl(i) => impl_body(i),
        Item::ForeignMod(_) => Seq::empty(),
        _ => seq![BodyOut::Keep(item)],
    }
}

/// The reclassified module's body expected for `items`, in order.
pub open spec fn bodies(decls: Seq<DeclV>, items: Seq<Item>) -> Seq<BodyOut>
    decreases items.len(),
{
    if items.len() == 0 {
        Seq::empty()
    } else {
        bodies(decls, items.drop_last()) + body_of(decls, items.last())
    }
}

pub open spec fn kept_match(o: Item, i: ImplBlock) -> bool {
    o matches Item::Impl(b) && b.attrs == i.attrs && b.is_unsafe == i.is_unsafe && b.self_ty == i.self_ty
        && b.generics == i.generics && b.trait_path == i.trait_path && b.items@ == if converts_ctors(i) {
        non_ctor_items(i.items@)
    } else {
        i.items@
    }
}

pub open spec fn decl_match(o: Item, item: Item, trivial: bool) -> bool {
    match item {
        Item::Struct(s) => o matches Item::Struct(s2) && s2.name == s.name && s2.attrs == s.attrs
            && s2.generics == s.generics && if trivial {
            s2.fields == s.fields
        } else {
            s2.fields.len() == 0
        },
        _ => o == item,
    }
}

pub open spec fn body_match(o: Item, e: BodyOut) -> bool {
    match e {
        BodyOut::Decl(item, t) => decl_match(o, item, t),
        BodyOut::Kept(i) => kept_match(o, i),
        BodyOut::Factory(i, m) => o matches Item::Impl(b) && ty_same(i.self_ty, b.self_ty)
            && b.generics == i.generics && b.trait_path == i.trait_path && factory_block(
            impl_type_name(i),
            b.self_ty,
            m,
            b,
        ),
        BodyOut::Keep(i) => o == i,
    }
}

pub open spec fn bodies_match(out: Seq<Item>, exp: Seq<BodyOut>) -> bool {
    out.len() == exp.len() && forall|k: int| 0 <= k < out.len() ==> #[trigger] body_match(out[k], exp[k])
}

/// An entry of the extra-work queue: the factory for constructor `m` of the
/// type named `n`, or the wrapper of a foreign function given the types
/// discovered before it.
pub enum NeedOut {
    Factory(Seq<char>, Method),
    Wrapper(ForeignFn, Seq<Seq<char>>),
}

/// The functions of a foreign-linkage block that are kept: all but the
/// synthetic default constructors of `types`.
pub open spec fn mod_fns(fs: Seq<ForeignItem>, types: Seq<Seq<char>>) -> Seq<(ForeignFn, Seq<Seq<char>>)>
    decreases fs.len(),
{
    if fs.len() == 0 {
        Seq::empty()
    } else {
        let rest = mod_fns(fs.drop_last(), types);
        match fs.last() {
            ForeignItem::Fn(f) => if is_constructor(types, f.name@) {
                rest
            } else {
                rest.push((f, types))
            },
            _ => rest,
        }
    }
}

/// The wrappers that the functions of a foreign-linkage block need.
pub open spec fn mod_wrappers(decls: Seq<DeclV>, fs: Seq<ForeignItem>, types: Seq<Seq<char>>) -> Seq<NeedOut>
    decreases fs.len(),
{
    if fs.len() == 0 {
        Seq::empty()
    } else {
        let rest = mod_wrappers(decls, fs.drop_last(), types);
        match fs.last() {
            ForeignItem::Fn(f) => if !is_constructor(types, f.name@) && wrapper_needed_in(decls, f) {
                rest.push(NeedOut::Wrapper(f, types))
            } else {
                rest
            },
            _ => rest,
        }
    }
}

pub open spec fn fns_of(item: Item, types: Seq<Seq<char>>) -> Seq<(ForeignFn, Seq<Seq<char>>)> {
    match item {
        Item::ForeignMod(fm) => mod_fns(fm.items@, types),
        _ => Seq::empty(),
    }
}

pub open spec fn needs_of(decls: Seq<DeclV>, item: Item, types: Seq<Seq<char>>) -> Seq<NeedOut> {
    match item {
        Item::ForeignMod(fm) => mod_wrappers(decls, fm.items@, types),
        Item::Impl(i) => impl_needs(i),
        _ => Seq::empty(),
    }
}

/// The rewritten foreign functions expected for `items`, in order, each
/// with the types discovered before its block.
pub open spec fn all_fns(items: Seq<Item>) -> Seq<(ForeignFn, Seq<Seq<char>>)>
    decreases items.len(),
{
    if items.len() == 0 {
        Seq::empty()
    } else {
        all_fns(items.drop_last()) + fns_of(items.last(), decl_names(items.drop_last()))
    }
}

/// The extra-work queue expected for `items`, in order.
pub open spec fn all_needs(decls: Seq<DeclV>, items: Seq<Item>) -> Seq<NeedOut>
    decreases items.len(),
{
    if items.len() == 0 {
        Seq::empty()
    } else {
        all_needs(decls, items.drop_last()) + needs_of(decls, items.last(), decl_names(items.drop_last()))
    }
}

pub open spec fn fn_match(renames: Seq<(String, String)>, o: ForeignItem, e: (ForeignFn, Seq<Seq<char>>)) -> bool {
    o matches ForeignItem::Fn(g) && fn_rewritten(e.1, renames, e.0, g)
}

pub open spec fn fns_match(renames: Seq<(String, String)>, out: Seq<ForeignItem>, exp: Seq<(ForeignFn, Seq<Seq<char>>)>) -> bool {
    out.len() == exp.len() && forall|k: int| 0 <= k < out.len() ==> #[trigger] fn_match(renames, out[k], exp[k])
}

pub open spec fn need_match(decls: Seq<DeclV>, o: AdditionalNeed, e: NeedOut) -> bool {
    match e {
        NeedOut::Factory(n, m) => factory_need(n, m, o),
        NeedOut::Wrapper(f, types) => wrapper_describes_in(decls, types, f, o),
    }
}

pub open spec fn needs_match(decls: Seq<DeclV>, out: Seq<AdditionalNeed>, exp: Seq<NeedOut>) -> bool {
    out.len() == exp.len() && forall|k: int| 0 <= k < out.len() ==> #[trigger] need_match(decls, out[k], exp[k])
}

/// Some item of `items` is a foreign-linkage block.
pub open spec fn has_foreign_mod(items: Seq<Item>) -> bool
    decreases items.len(),
{
    items.len() > 0 && (has_foreign_mod(items.drop_last()) || items.last() is ForeignMod)
}

/// The attributes of the first foreign-linkage block of `items`, or none.
pub open spec fn first_block_attrs(items: Seq<Item>) -> Seq<Attr>
    decreases items.len(),
{
    if items.len() == 0 {
        Seq::empty()
    } else if has_foreign_mod(items.drop_last()) {
        first_block_attrs(items.drop_last())
    } else {
        match items.last() {
            Item::ForeignMod(fm) => fm.attrs@,
            _ => Seq::empty(),
        }
    }
}

/// The names of the opaque structs among `items`, in order.
pub open spec fn opaque_names(decls: Seq<DeclV>, items: Seq<Item>) -> Seq<Seq<char>>
    decreases items.len(),
{
    if items.len() == 0 {
        Seq::empty()
    } else {
        let rest = opaque_names(decls, items.drop_last());
        match items.last() {
            Item::Struct(s) => if type_trivial(decls, s.name@) {
                rest
            } else {
                rest.push(s.name@)
            },
            _ => rest,
        }
    }
}

pub open spec fn is_stub_of(o: Item, n: Seq<char>) -> bool {
    o matches Item::UniquePtrStub(x) && x@ == n
}

pub open spec fn is_include_of(o: ForeignItem, n: Seq<char>) -> bool {
    o matches ForeignItem::Include(x) && x@ == n
}

pub open spec fn is_alias_of(o: ForeignItem, n: Seq<char>) -> bool {
    o matches ForeignItem::TypeAlias(x) && x@ == n
}

/// The inclusion directives: the configured ones, then the extra one.
pub open spec fn include_names(includes: Seq<String>, extra: Option<String>) -> Seq<Seq<char>> {
    let base = includes.map_values(|s: String| s@);
    match extra {
        Some(e) => base.push(e@),
        None => base,
    }
}

/// The foreign-linkage block holds the rewritten functions, then the
/// inclusion directives, then one alias per discovered type, in order.
pub open spec fn block_match(
    renames: Seq<(String, String)>,
    fi: Seq<ForeignItem>,
    fns: Seq<(ForeignFn, Seq<Seq<char>>)>,
    incs: Seq<Seq<char>>,
    names: Seq<Seq<char>>,
) -> bool {
    &&& fi.len() == fns.len() + incs.len() + names.len()
    &&& fns_match(renames, fi.subrange(0, fns.len() as int), fns)
    &&& forall|k: int| 0 <= k < incs.len() ==> #[trigger] is_include_of(fi[fns.len() + k], incs[k])
    &&& forall|k: int| 0 <= k < names.len() ==> #[trigger] is_alias_of(fi[fns.len() + incs.len() + k], names[k])
}

/// The bridge module's body: one owning-handle stub per opaque struct, in
/// order, then the foreign-linkage block.
pub open spec fn bridge_match(
    decls: Seq<DeclV>,
    renames: Seq<(String, String)>,
    input: Seq<Item>,
    incs: Seq<Seq<char>>,
    bi: Seq<Item>,
) -> bool {
    let names = decl_names(input);
    let opaque = opaque_names(decls, input);
    &&& bi.len() == opaque.len() + 1
    &&& forall|k: int| 0 <= k < opaque.len() ==> #[trigger] is_stub_of(bi[k], opaque[k])
    &&& bi.last() matches Item::ForeignMod(fm) && fm.attrs@ == first_block_attrs(input) && block_match(
        renames,
        fm.items@,
        all_fns(input),
        incs,
        names,
    )
}

pub open spec fn bridge_module_match(
    decls: Seq<DeclV>,
    renames: Seq<(String, String)>,
    input: Seq<Item>,
    incs: Seq<Seq<char>>,
    o: Item,
) -> bool {
    match o {
        Item::Mod(b) => {
            &&& b.name@ == "cxxbridge"@
            &&& b.is_pub
            &&& b.attrs.len() == 1
            &&& b.attrs@[0].name@ == "cxx::bridge"@
            &&& b.attrs@[0].value@.len() == 0
            &&& b.content matches Some(bi) && bridge_match(decls, renames, input, incs, bi@)
        },
        _ => false,
    }
}

pub open spec fn reclassified_match(decls: Seq<DeclV>, bindings: Module, input: Seq<Item>, o: Item) -> bool {
    match o {
        Item::Mod(m) => {
            &&& m.name == bindings.name
            &&& m.is_pub == bindings.is_pub
            &&& m.attrs == bindings.attrs
            &&& m.content matches Some(body) && bodies_match(body@, bodies(decls, input))
        },
        _ => false,
    }
}

/// The output of converting module `bindings`, whose body is `input`: one
/// type binding per struct and enum, then the reclassified module (which
/// holds every other input item but the foreign-linkage blocks), then the
/// bridge module; and the extra-work queue expected of `input`.
pub open spec fn results_exact(
    decls: Seq<DeclV>,
    renames: Seq<(String, String)>,
    bindings: Module,
    input: Seq<Item>,
    incs: Seq<Seq<char>>,
    res: BridgeConversionResults,
) -> bool {
    let n = res.items.len();
    &&& n >= 2
    &&& tops_match(res.items@.subrange(0, n - 2), tops(decls, input))
    &&& reclassified_match(decls, bindings, input, res.items@[n - 2])
    &&& bridge_module_match(decls, renames, input, incs, res.items@[n - 1])
    &&& needs_match(decls, res.additional_cpp_needs@, all_needs(decls, input))
}

/// Converts the functions of one foreign-linkage block, in order,
/// appending them to `fns` and the wrappers they need to `needs`. Fails on
/// the first item that is not a function, with the functions before it
/// converted.
fn convert_foreign_mod_items(
    checker: &ByValueChecker,
    types_found: &Vec<TypeName>,
    renames: &Vec<(String, String)>,
    foreign_mod_items: Vec<ForeignItem>,
    fns: &mut Vec<ForeignItem>,
    needs: &mut Vec<AdditionalNeed>,
    Ghost(pre_fns): Ghost<Seq<(ForeignFn, Seq<Seq<char>>)>>,
    Ghost(pre_needs): Ghost<Seq<NeedOut>>,
) -> (r: Result<(), ConvertError>)
    requires
        checker.wf(),
        checker.is_resolved(),
        fns_match(renames@, old(fns)@, pre_fns),
        needs_match(checker.decls(), old(needs)@, pre_needs),
    ensures
        r is Ok <==> forall|j: int| 0 <= j < foreign_mod_items.len() ==> (#[trigger] foreign_mod_items@[j]) is Fn,
        r matches Err(e) ==> e is UnknownForeignItem,
        r is Err ==> exists|j: int| {
            &&& 0 <= j < foreign_mod_items.len()
            &&& !(foreign_mod_items@[j] is Fn)
            &&& forall|i: int| 0 <= i < j ==> (#[trigger] foreign_mod_items@[i]) is Fn
            &&& fns_match(renames@, final(fns)@, pre_fns + mod_fns(foreign_mod_items@.subrange(0, j), names_of(types_found@)))
            &&& needs_match(
                checker.decls(),
                final(needs)@,
                pre_needs + mod_wrappers(checker.decls(), foreign_mod_items@.subrange(0, j), names_of(types_found@)),
            )
        },
        r is Ok ==> fns_match(renames@, final(fns)@, pre_fns + mod_fns(foreign_mod_items@, names_of(types_found@))),
        r is Ok ==> needs_match(
            checker.decls(),
            final(needs)@,
            pre_needs + mod_wrappers(checker.decls(), foreign_mod_items@, names_of(types_found@)),
        ),
{
    let ghost orig = foreign_mod_items@;
    let ghost types = names_of(types_found@);
    let ghost decls = checker.decls();
    let mut rest = foreign_mod_items;
    while rest.len() > 0
        invariant
            checker.wf(),
            checker.is_resolved(),
            decls == checker.decls(),
            types == names_of(types_found@),
            orig == foreign_mod_items@,
            rest.len() <= orig.len(),
            rest@ == orig.subrange(orig.len() - rest.len(), orig.len() as int),
            forall|j: int| 0 <= j < orig.len() - rest.len() ==> (#[trigger] orig[j]) is Fn,
            fns_match(renames@, fns@, pre_fns + mod_fns(orig.subrange(0, orig.len() - rest.len()), types)),
            needs_match(decls, needs@, pre_needs + mod_wrappers(decls, orig.subrange(0, orig.len() - rest.len()), types)),
        decreases rest.len(),
    {
        let ghost done = orig.len() - rest.len();
        let ghost p1 = orig.subrange(0, done + 1);
        let ghost ef = pre_fns + mod_fns(orig.subrange(0, done), types);
        let ghost en = pre_needs + mod_wrappers(decls, orig.subrange(0, done), types);
        let ghost old_fns = fns@;
        let ghost old_needs = needs@;
        let item = rest.remove(0);
        proof {
            assert(item == orig[done]);
            assert(rest@ =~= orig.subrange(orig.len() - rest.len(), orig.len() as int));
            assert(p1.drop_last() =~= orig.subrange(0, done));
            assert(p1.last() == item);
        }
        match item {
            ForeignItem::Fn(f) => {
                let ghost f0 = f;
                match convert_foreign_fn(checker, types_found, renames, f) {
                    Some((nf, need)) => {
                        fns.push(ForeignItem::Fn(nf));
                        proof {
                            assert(pre_fns + mod_fns(p1, types) =~= ef.push((f0, types)));
                            assert(fn_match(renames@, fns@[fns.len() - 1], (f0, types)));
                        }
                        match need {
                            Some(n) => {
                                needs.push(n);
                                proof {
                                    assert(pre_needs + mod_wrappers(decls, p1, types) =~= en.push(NeedOut::Wrapper(f0, types)));
                                    assert(need_match(decls, needs@[needs.len() - 1], NeedOut::Wrapper(f0, types)));
                                }
                            },
                            None => {
                                proof {
                                    assert(pre_needs + mod_wrappers(decls, p1, types) =~= en);
                                }
                            },
                        }
                    },
                    None => {
                        proof {
                            assert(pre_fns + mod_fns(p1, types) =~= ef);
                            assert(pre_needs + mod_wrappers(decls, p1, types) =~= en);
                        }
                    },
                }
            },
            _ => {
                proof {
                    assert(!(orig[done] is Fn));
                    assert(fns_match(renames@, fns@, pre_fns + mod_fns(orig.subrange(0, done), types)));
                }
                return Err(ConvertError::UnknownForeignItem);
            },
        }
    }
    proof {
        assert(orig.subrange(0, orig.len() as int) =~= orig);
    }
    Ok(())
}

/// Appending the alias of `n` keeps the aliases matching the discovered
/// types and leaves the inclusion directives before them alone.
proof fn lemma_alias_appended(
    inc_len: int,
    old_ext: Seq<ForeignItem>,
    new_ext: Seq<ForeignItem>,
    old_names: Seq<Seq<char>>,
    n: Seq<char>,
)
    requires
        0 <= inc_len,
        old_ext.len() == inc_len + old_names.len(),
        new_ext.len() == old_ext.len() + 1,
        new_ext.drop_last() == old_ext,
        is_alias_of(new_ext.last(), n),
        forall|k: int| 0 <= k < old_names.len() ==> #[trigger] is_alias_of(old_ext[inc_len + k], old_names[k]),
    ensures
        new_ext.subrange(0, inc_len) == old_ext.subrange(0, inc_len),
        forall|k: int| 0 <= k < old_names.len() + 1 ==> #[trigger] is_alias_of(new_ext[inc_len + k], old_names.push(n)[k]),
{
    assert(new_ext.subrange(0, inc_len) =~= old_ext.subrange(0, inc_len)) by {
        assert forall|k: int| 0 <= k < inc_len implies new_ext[k] == old_ext[k] by {
            assert(new_ext.drop_last()[k] == old_ext[k]);
        }
    }
    assert forall|k: int| 0 <= k < old_names.len() + 1 implies #[trigger] is_alias_of(new_ext[inc_len + k], old_names.push(n)[k]) by {
        if k < old_names.len() {
            assert(new_ext.drop_last()[inc_len + k] == old_ext[inc_len + k]);
            assert(is_alias_of(old_ext[inc_len + k], old_names[k]));
        }
    }
}

/// Appending the stub of `n` keeps the stubs matching the opaque types.
proof fn lemma_stub_appended(old_b: Seq<Item>, new_b: Seq<Item>, old_names: Seq<Seq<char>>, n: Seq<char>)
    requires
        old_b.len() == old_names.len(),
        new_b.len() == old_b.len() + 1,
        new_b.drop_last() == old_b,
        is_stub_of(new_b.last(), n),
        forall|k: int| 0 <= k < old_b.len() ==> #[trigger] is_stub_of(old_b[k], old_names[k]),
    ensures
        forall|k: int| 0 <= k < new_b.len() ==> #[trigger] is_stub_of(new_b[k], old_names.push(n)[k]),
{
    assert forall|k: int| 0 <= k < new_b.len() implies #[trigger] is_stub_of(new_b[k], old_names.push(n)[k]) by {
        if k < old_b.len() {
            assert(new_b.drop_last()[k] == old_b[k]);
            assert(is_stub_of(old_b[k], old_names[k]));
        }
    }
}

/// A copy of an optional string.
fn copy_opt_string(o: &Option<String>) -> (r: Option<String>)
    ensures
        r == *o,
{
    match o {
        Some(x) => Some(x.clone()),
        None => None,
    }
}

/// Replaces the constructors of impl block `i` by factories, appended to
/// `bindgen_items` with the factory requests appended to `needs`, then
/// appends the block itself without them.
fn convert_impl(
    i: ImplBlock,
    bindgen_items: &mut Vec<Item>,
    needs: &mut Vec<AdditionalNeed>,
    Ghost(decls): Ghost<Seq<DeclV>>,
    Ghost(pre_body): Ghost<Seq<BodyOut>>,
    Ghost(pre_needs): Ghost<Seq<NeedOut>>,
)
    requires
        bodies_match(old(bindgen_items)@, pre_body),
        needs_match(decls, old(needs)@, pre_needs),
    ensures
        bodies_match(final(bindgen_items)@, pre_body + impl_body(i)),
        needs_match(decls, final(needs)@, pre_needs + impl_needs(i)),
{
    let ghost i0 = i;
    let ImplBlock { attrs, is_unsafe, generics, trait_path, self_ty, items } = i;
    let mut kept: Vec<ImplItem> = Vec::new();
    let ghost orig = items@;
    let mut rest = items;
    match &self_ty {
        Ty::Path { segments } => {
            let ty = type_name_of_path(segments);
            let ghost n = impl_type_name(i0);
            while rest.len() > 0
                invariant
                    i0.self_ty == self_ty,
                    i0.generics == generics,
                    i0.trait_path == trait_path,
                    i0.items@ == orig,
                    converts_ctors(i0),
                    ty@ == n,
                    n == impl_type_name(i0),
                    rest.len() <= orig.len(),
                    rest@ == orig.subrange(orig.len() - rest.len(), orig.len() as int),
                    kept@ == non_ctor_items(orig.subrange(0, orig.len() - rest.len())),
                    bodies_match(bindgen_items@, pre_body + impl_factories(orig.subrange(0, orig.len() - rest.len()), i0)),
                    needs_match(decls, needs@, pre_needs + impl_ctor_needs(orig.subrange(0, orig.len() - rest.len()), n)),
                decreases rest.len(),
            {
                let ghost done = orig.len() - rest.len();
                let ghost p1 = orig.subrange(0, done + 1);
                let ghost eb = pre_body + impl_factories(orig.subrange(0, done), i0);
                let ghost en = pre_needs + impl_ctor_needs(orig.subrange(0, done), n);
                let ii = rest.remove(0);
                proof {
                    assert(ii == orig[done]);
                    assert(rest@ =~= orig.subrange(orig.len() - rest.len(), orig.len() as int));
                    assert(p1.drop_last() =~= orig.subrange(0, done));
                    assert(p1.last() == ii);
                }
                match ii {
                    ImplItem::Method(m) => {
                        if str_eq(m.name.as_str(), "new") && m.ret.is_some() {
                            let ghost m0 = m;
                            let copy = copy_ty(&self_ty);
                            match convert_new_method(&ty, copy, generics.clone(), copy_opt_string(&trait_path), m) {
                                Some((block, need)) => {
                                    bindgen_items.push(Item::Impl(block));
                                    needs.push(need);
                                    proof {
                                        assert(pre_body + impl_factories(p1, i0) =~= eb.push(BodyOut::Factory(i0, m0)));
                                        assert(pre_needs + impl_ctor_needs(p1, n) =~= en.push(NeedOut::Factory(n, m0)));
                                        assert(body_match(bindgen_items@[bindgen_items.len() - 1], BodyOut::Factory(i0, m0)));
                                        assert(need_match(decls, needs@[needs.len() - 1], NeedOut::Factory(n, m0)));
                                    }
                                },
                                None => {},
                            }
                        } else {
                            kept.push(ImplItem::Method(m));
                            proof {
                                assert(pre_body + impl_factories(p1, i0) =~= eb);
                                assert(pre_needs + impl_ctor_needs(p1, n) =~= en);
                            }
                        }
                    },
                    other => {
                        kept.push(other);
                        proof {
                            assert(pre_body + impl_factories(p1, i0) =~= eb);
                            assert(pre_needs + impl_ctor_needs(p1, n) =~= en);
                        }
                    },
                }
            }
            proof {
                assert(orig.subrange(0, orig.len() as int) =~= orig);
            }
        },
        _ => {
            kept = rest;
            proof {
                assert(pre_needs + impl_needs(i0) =~= pre_needs);
            }
        },
    }
    let ghost before = bindgen_items@;
    bindgen_items.push(Item::Impl(ImplBlock { attrs, is_unsafe, generics, trait_path, self_ty, items: kept }));
    proof {
        assert(kept_match(bindgen_items@[bindgen_items.len() - 1], i0));
        if converts_ctors(i0) {
            assert(impl_body(i0) == impl_factories(i0.items@, i0).push(BodyOut::Kept(i0)));
            assert(pre_body + impl_body(i0) =~= (pre_body + impl_factories(orig, i0)).push(BodyOut::Kept(i0)));
        } else {
            assert(pre_body + impl_body(i0) =~= pre_body.push(BodyOut::Kept(i0)));
        }
    }
}

/// Converts header-derived bindings into the shape the bridge accepts.
pub struct BridgeConverter {
    include_list: Vec<String>,
    pod_requests: Vec<TypeName>,
}

impl BridgeConverter {
    pub closed spec fn includes(&self) -> Seq<String> {
        self.include_list@
    }

    pub closed spec fn requests(&self) -> Seq<TypeName> {
        self.pod_requests@
    }

    pub fn new(include_list: Vec<String>, pod_requests: Vec<TypeName>) -> (r: Self)
        ensures
            r.includes() == include_list@,
            r.requests() == pod_requests@,
    {
        BridgeConverter { include_list, pod_requests }
    }

    /// Converts module `bindings`. Fails, producing nothing, when it has no
    /// body, when a requested type is not trivial, or when a
    /// foreign-linkage block holds anything but functions. `renames` maps a
    /// foreign function's original name to the name it should have; where
    /// a name is listed twice, the first entry counts.
    pub fn convert(
        &mut self,
        bindings: Module,
        extra_inclusion: Option<String>,
        renames: &Vec<(String, String)>,
    ) -> (r: Result<BridgeConversionResults, ConvertError>)
        ensures
            final(self).includes() == old(self).includes(),
            final(self).requests() == old(self).requests(),
            bindings.content is None ==> r matches Err(ConvertError::NoContent),
            bindings.content matches Some(items) ==> {
                let decls = item_decls(items@);
                let requests = old(self).requests();
                &&& r is Ok <==> requests_trivial(decls, requests) && foreign_items_known(items@)
                &&& (!requests_trivial(decls, requests) <==> r matches Err(ConvertError::UnsafePODType(_)))
                &&& (r matches Err(ConvertError::UnsafePODType(n)) ==> exists|i: int| 0 <= i < requests.len()
                    && n@ == requests[i]@ && !type_trivial(decls, requests[i]@)
                    && forall|j: int| 0 <= j < i ==> #[trigger] type_trivial(decls, requests[j]@))
                &&& (r matches Err(ConvertError::UnknownForeignItem) <==> requests_trivial(decls, requests)
                    && !foreign_items_known(items@))
                &&& (r matches Ok(res) ==> results_exact(
                    decls,
                    renames@,
                    bindings,
                    items@,
                    include_names(old(self).includes(), extra_inclusion),
                    res,
                ))
            },
    {
        let Module { attrs, is_pub, name, content } = bindings;
        match content {
            None => Err(ConvertError::NoContent),
            Some(items) => {
                let bindgen_mod = Module { attrs, is_pub, name, content: None };
                convert_items(bindgen_mod, items, &extra_inclusion, renames, &self.include_list, &self.pod_requests)
            },
        }
    }
}

fn convert_items(
    bindgen_mod: Module,
    items: Vec<Item>,
    extra_inclusion: &Option<String>,
    renames: &Vec<(String, String)>,
    include_list: &Vec<String>,
    pod_requests: &Vec<TypeName>,
) -> (r: Result<BridgeConversionResults, ConvertError>)
    ensures
        r is Ok <==> requests_trivial(item_decls(items@), pod_requests@) && foreign_items_known(items@),
        !requests_trivial(item_decls(items@), pod_requests@) <==> r matches Err(ConvertError::UnsafePODType(_)),
        r matches Err(ConvertError::UnsafePODType(n)) ==> exists|i: int| 0 <= i < pod_requests.len()
            && n@ == pod_requests@[i]@ && !type_trivial(item_decls(items@), pod_requests@[i]@)
            && forall|j: int| 0 <= j < i ==> #[trigger] type_trivial(item_decls(items@), pod_requests@[j]@),
        r matches Err(ConvertError::UnknownForeignItem) <==> requests_trivial(item_decls(items@), pod_requests@)
            && !foreign_items_known(items@),
        r matches Ok(res) ==> results_exact(
            item_decls(items@),
            renames@,
            bindgen_mod,
            items@,
            include_names(include_list@, *extra_inclusion),
            res,
        ),
{
    let mut checker = ByValueChecker::new();
    match find_nested_pod_types(&mut checker, &items, pod_requests) {
        Ok(()) => {},
        Err(e) => {
            return Err(e);
        },
    }
    let ghost decls = item_decls(items@);
    let ghost incs = include_names(include_list@, *extra_inclusion);
    let includes = build_include_foreign_items(include_list, extra_inclusion);
    proof {
        assert forall|k: int| 0 <= k < incs.len() implies #[trigger] is_include_of(includes@[k], incs[k]) by {
            if k < include_list.len() {
                assert(includes@[k] matches ForeignItem::Include(x) && x@ == include_list@[k]@);
            }
        }
    }
    let ghost inc0 = includes@;
    let mut extern_c_mod_items: Vec<ForeignItem> = includes;
    let mut extern_c_attrs: Option<Vec<Attr>> = None;
    let mut fns: Vec<ForeignItem> = Vec::new();
    let mut all_items: Vec<Item> = Vec::new();
    let mut bridge_items: Vec<Item> = Vec::new();
    let mut bindgen_items: Vec<Item> = Vec::new();
    let mut needs: Vec<AdditionalNeed> = Vec::new();
    let mut types_found: Vec<TypeName> = Vec::new();
    let ghost orig = items@;
    let mut rest = items;
    proof {
        assert(orig.subrange(0, 0) =~= Seq::<Item>::empty());
        assert(names_of(types_found@) =~= Seq::<Seq<char>>::empty());
    }
    while rest.len() > 0
        invariant
            checker.wf(),
            checker.is_resolved(),
            checker.decls() == decls,
            decls == item_decls(items@),
            requests_trivial(decls, pod_requests@),
            orig == items@,
            rest.len() <= orig.len(),
            rest@ == orig.subrange(orig.len() - rest.len(), orig.len() as int),
            forall|j: int| 0 <= j < orig.len() - rest.len() ==> match #[trigger] orig[j] {
                Item::ForeignMod(fm) => forall|k: int| 0 <= k < fm.items.len() ==> (#[trigger] fm.items@[k]) is Fn,
                _ => true,
            },
            incs.len() == inc0.len(),
            forall|k: int| 0 <= k < incs.len() ==> #[trigger] is_include_of(inc0[k], incs[k]),
            names_of(types_found@) == decl_names(orig.subrange(0, orig.len() - rest.len())),
            extern_c_mod_items@.len() == inc0.len() + types_found@.len(),
            extern_c_mod_items@.subrange(0, inc0.len() as int) == inc0,
            forall|k: int| 0 <= k < types_found@.len() ==> #[trigger] is_alias_of(
                extern_c_mod_items@[inc0.len() + k],
                names_of(types_found@)[k],
            ),
            bridge_items@.len() == opaque_names(decls, orig.subrange(0, orig.len() - rest.len())).len(),
            forall|k: int| 0 <= k < bridge_items@.len() ==> #[trigger] is_stub_of(
                bridge_items@[k],
                opaque_names(decls, orig.subrange(0, orig.len() - rest.len()))[k],
            ),
            tops_match(all_items@, tops(decls, orig.subrange(0, orig.len() - rest.len()))),
            bodies_match(bindgen_items@, bodies(decls, orig.subrange(0, orig.len() - rest.len()))),
            fns_match(renames@, fns@, all_fns(orig.subrange(0, orig.len() - rest.len()))),
            needs_match(decls, needs@, all_needs(decls, orig.subrange(0, orig.len() - rest.len()))),
            extern_c_attrs is None <==> !has_foreign_mod(orig.subrange(0, orig.len() - rest.len())),
            extern_c_attrs matches Some(a) ==> a@ == first_block_attrs(orig.subrange(0, orig.len() - rest.len())),
        decreases rest.len(),
    {
        let ghost done = orig.len() - rest.len();
        let ghost p0 = orig.subrange(0, done);
        let ghost p1 = orig.subrange(0, done + 1);
        let ghost old_all = all_items@;
        let ghost old_bindgen = bindgen_items@;
        let ghost old_ext = extern_c_mod_items@;
        let ghost old_bridge = bridge_items@;
        let ghost old_types = types_found@;
        let item = rest.remove(0);
        proof {
            assert(item == orig[done]);
            assert(rest@ =~= orig.subrange(orig.len() - rest.len(), orig.len() as int));
            assert(p1.drop_last() =~= p0);
            assert(p1.last() == item);
        }
        match item {
            Item::ForeignMod(fm) => {
                let ghost fm0 = fm;
                let ForeignMod { attrs, items: fm_items } = fm;
                if extern_c_attrs.is_none() {
                    extern_c_attrs = Some(attrs);
                }
                match convert_foreign_mod_items(
                    &checker,
                    &types_found,
                    renames,
                    fm_items,
                    &mut fns,
                    &mut needs,
                    Ghost(all_fns(p0)),
                    Ghost(all_needs(decls, p0)),
                ) {
                    Ok(()) => {
                        proof {
                            assert(all_fns(p1) == all_fns(p0) + mod_fns(fm0.items@, decl_names(p0)));
                            assert(all_needs(decls, p1) == all_needs(decls, p0) + mod_wrappers(decls, fm0.items@, decl_names(p0)));
                            assert(tops(decls, p1) =~= tops(decls, p0));
                            assert(bodies(decls, p1) =~= bodies(decls, p0));
                            assert(decl_names(p1) == decl_names(p0));
                        }
                    },
                    Err(e) => {
                        proof {
                            assert(!foreign_items_known(orig)) by {
                                assert(orig[done] matches Item::ForeignMod(f) && !(forall|k: int|
                                    0 <= k < f.items.len() ==> (#[trigger] f.items@[k]) is Fn));
                            }
                        }
                        return Err(e);
                    },
                }
            },
            Item::Struct(s) => {
                let ghost item0 = Item::Struct(s);
                let tyname = TypeName::from_ident(&s.name);
                let trivial = checker.is_pod(&tyname);
                generate_type_alias(tyname, trivial, &mut extern_c_mod_items, &mut bridge_items, &mut all_items, &mut types_found);
                let mut s = s;
                if !trivial {
                    s.fields = Vec::new();
                }
                bindgen_items.push(Item::Struct(s));
                proof {
                    assert(tops(decls, p1) =~= tops(decls, p0).push(TopOut::Bind(s.name@, trivial)));
                    assert(bodies(decls, p1) =~= bodies(decls, p0).push(BodyOut::Decl(item0, trivial)));
                    assert(all_fns(p1) =~= all_fns(p0));
                    assert(all_needs(decls, p1) =~= all_needs(decls, p0));
                    assert(decl_names(p1) == decl_names(p0).push(s.name@));
                    assert(names_of(types_found@) =~= names_of(old_types).push(s.name@));
                    assert(all_items@ =~= old_all.push(all_items@.last()));
                    assert(bindgen_items@ =~= old_bindgen.push(bindgen_items@.last()));
                    assert(body_match(bindgen_items@.last(), BodyOut::Decl(item0, trivial)));
                    assert(top_match(all_items@.last(), TopOut::Bind(s.name@, trivial)));
                    lemma_alias_appended(inc0.len() as int, old_ext, extern_c_mod_items@, names_of(old_types), s.name@);
                    if trivial {
                        assert(opaque_names(decls, p1) =~= opaque_names(decls, p0));
                    } else {
                        assert(opaque_names(decls, p1) =~= opaque_names(decls, p0).push(s.name@));
                        lemma_stub_appended(old_bridge, bridge_items@, opaque_names(decls, p0), s.name@);
                    }
                }
            },
            Item::Enum(e) => {
                let ghost item0 = Item::Enum(e);
                let tyname = TypeName::from_ident(&e.name);
                generate_type_alias(tyname, true, &mut extern_c_mod_items, &mut bridge_items, &mut all_items, &mut types_found);
                bindgen_items.push(Item::Enum(e));
                proof {
                    assert(tops(decls, p1) =~= tops(decls, p0).push(TopOut::Bind(e.name@, true)));
                    assert(bodies(decls, p1) =~= bodies(decls, p0).push(BodyOut::Decl(item0, true)));
                    assert(all_fns(p1) =~= all_fns(p0));
                    assert(all_needs(decls, p1) =~= all_needs(decls, p0));
                    assert(decl_names(p1) == decl_names(p0).push(e.name@));
                    assert(names_of(types_found@) =~= names_of(old_types).push(e.name@));
                    assert(all_items@ =~= old_all.push(all_items@.last()));
                    assert(bindgen_items@ =~= old_bindgen.push(bindgen_items@.last()));
                    assert(body_match(bindgen_items@.last(), BodyOut::Decl(item0, true)));
                    assert(top_match(all_items@.last(), TopOut::Bind(e.name@, true)));
                    lemma_alias_appended(inc0.len() as int, old_ext, extern_c_mod_items@, names_of(old_types), e.name@);
                    assert(opaque_names(decls, p1) =~= opaque_names(decls, p0));
                }
            },
            Item::Impl(i) => {
                let ghost i0 = i;
                convert_impl(i, &mut bindgen_items, &mut needs, Ghost(decls), Ghost(bodies(decls, p0)), Ghost(all_needs(decls, p0)));
                proof {
                    assert(bodies(decls, p1) == bodies(decls, p0) + impl_body(i0));
                    assert(all_needs(decls, p1) == all_needs(decls, p0) + impl_needs(i0));
                    assert(tops(decls, p1) =~= tops(decls, p0));
                    assert(all_fns(p1) =~= all_fns(p0));
                    assert(decl_names(p1) == decl_names(p0));
                }
            },
            other => {
                let ghost o0 = other;
                bindgen_items.push(other);
                proof {
                    assert(tops(decls, p1) =~= tops(decls, p0));
                    assert(bodies(decls, p1) =~= bodies(decls, p0).push(BodyOut::Keep(o0)));
                    assert(all_fns(p1) =~= all_fns(p0));
                    assert(all_needs(decls, p1) =~= all_needs(decls, p0));
                    assert(decl_names(p1) == decl_names(p0));
                    assert(opaque_names(decls, p1) =~= opaque_names(decls, p0));
                    assert(bindgen_items@ =~= old_bindgen.push(o0));
                    assert(body_match(bindgen_items@.last(), BodyOut::Keep(o0)));
                }
            },
        }
    }
    proof {
        assert(orig.subrange(0, orig.len() as int) =~= orig);
    }
    let mut extern_items = fns;
    let ghost fns_v = extern_items@;
    let ghost ext_v = extern_c_mod_items@;
    extern_items.append(&mut extern_c_mod_items);
    let extern_c_mod = ForeignMod {
        attrs: match extern_c_attrs {
            Some(a) => a,
            None => Vec::new(),
        },
        items: extern_items,
    };
    proof {
        let fi = extern_c_mod.items@;
        let nf = fns_v.len() as int;
        assert(fi.subrange(0, nf) =~= fns_v);
        assert forall|k: int| 0 <= k < incs.len() implies #[trigger] is_include_of(fi[nf + k], incs[k]) by {
            assert(ext_v.subrange(0, inc0.len() as int)[k] == inc0[k]);
            assert(fi[nf + k] == inc0[k]);
        }
        assert forall|k: int| 0 <= k < types_found@.len() implies #[trigger] is_alias_of(
            fi[nf + incs.len() + k],
            decl_names(orig)[k],
        ) by {
            assert(is_alias_of(ext_v[inc0.len() + k], names_of(types_found@)[k]));
            assert(fi[nf + incs.len() + k] == ext_v[inc0.len() + k]);
        }
        assert(extern_c_mod.attrs@ == first_block_attrs(orig)) by {
            if extern_c_attrs is None {
                assert(extern_c_mod.attrs@ =~= Seq::<Attr>::empty());
            }
        }
    }
    let ghost stubs = bridge_items@;
    bridge_items.push(Item::ForeignMod(extern_c_mod));
    proof {
        assert(bridge_items@.drop_last() =~= stubs);
    }
    let Module { attrs, is_pub, name, content: _ } = bindgen_mod;
    let ghost prefix = all_items@;
    all_items.push(Item::Mod(Module { attrs, is_pub, name, content: Some(bindgen_items) }));
    let mut bridge_attrs: Vec<Attr> = Vec::new();
    bridge_attrs.push(Attr { name: String::from_str("cxx::bridge"), value: String::new() });
    all_items.push(Item::Mod(Module {
        attrs: bridge_attrs,
        is_pub: true,
        name: String::from_str("cxxbridge"),
        content: Some(bridge_items),
    }));
    proof {
        assert(all_items@.subrange(0, all_items.len() - 2) =~= prefix);
    }
    Ok(BridgeConversionResults { items: all_items, additional_cpp_needs: needs })
}
} // verus!

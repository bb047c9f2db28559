use bridge_converter::ast::{
    convert_type, Attr, Body, EnumDecl, Field, FnArg, ForeignFn, ForeignItem, ForeignMod, GenericArg,
    ImplBlock, ImplItem, Item, Method, MethodArg, Module, Pat, PathSegment, StructDecl, Ty,
};
use bridge_converter::bridge::{convert_new_method, BridgeConverter, ConvertError};
use bridge_converter::conversion::{AdditionalNeed, ConversionKind};
use bridge_converter::converter::{convert_foreign_fn, strip_attr};
use bridge_converter::triviality::ByValueChecker;
use bridge_converter::types::{str_eq, TypeName};

fn s(x: &str) -> String {
    x.to_string()
}

fn path(name: &str) -> Ty {
    Ty::Path { segments: vec![PathSegment { ident: s(name), args: vec![] }] }
}

fn generic(name: &str, arg: Ty) -> Ty {
    Ty::Path { segments: vec![PathSegment { ident: s(name), args: vec![GenericArg::Type(arg)] }] }
}

fn ptr(mutable: bool, elem: Ty) -> Ty {
    Ty::Ptr { mutable, elem: Box::new(elem) }
}

fn tn(name: &str) -> TypeName {
    TypeName::from_ident(&s(name))
}

fn field(name: &str, ty: Ty) -> Field {
    Field { name: s(name), ty }
}

fn strukt(name: &str, fields: Vec<Field>) -> StructDecl {
    StructDecl { attrs: vec![], name: s(name), generics: String::new(), fields }
}

fn arg(name: &str, ty: Ty) -> FnArg {
    FnArg { pat: Pat::Ident(s(name)), ty }
}

fn ffn(name: &str, args: Vec<FnArg>, ret: Option<Ty>) -> ForeignFn {
    ForeignFn { attrs: vec![], name: s(name), args, ret }
}

fn module(items: Vec<Item>) -> Module {
    Module { attrs: vec![], is_pub: true, name: s("bindgen"), content: Some(items) }
}

fn ref_of(t: &Ty) -> Option<(bool, &Ty)> {
    match t {
        Ty::Reference { mutable, elem } => Some((*mutable, &**elem)),
        _ => None,
    }
}

fn path_ident(t: &Ty) -> Option<String> {
    match t {
        Ty::Path { segments } => segments.last().map(|x| x.ident.clone()),
        _ => None,
    }
}

/// A checker that knows `Widget` (opaque: it holds a std_string),
/// `Point` (trivial) and `Colour` (an enum).
fn widget_checker() -> ByValueChecker {
    let mut c = ByValueChecker::new();
    c.ingest_struct(&strukt("Widget", vec![field("name", path("std_string"))]));
    c.ingest_struct(&strukt("Point", vec![field("x", path("i32")), field("y", path("c_int"))]));
    c.ingest_pod_type(tn("Colour"));
    assert!(c.satisfy_requests(&vec![]).is_ok());
    c
}

#[test]
fn scalars_and_plain_structs_are_trivial() {
    let c = widget_checker();
    assert!(c.is_pod(&tn("u64")));
    assert!(c.is_pod(&tn("Point")));
    assert!(c.is_pod(&tn("Colour")));
    assert!(!c.is_pod(&tn("Widget")));
    assert!(!c.is_pod(&tn("Unknown")));
}

#[test]
fn an_opaque_field_cascades_through_nesting() {
    let mut c = ByValueChecker::new();
    c.ingest_struct(&strukt("Outer", vec![field("inner", path("Inner"))]));
    c.ingest_struct(&strukt("Inner", vec![field("leaf", path("Leaf"))]));
    c.ingest_struct(&strukt("Leaf", vec![field("v", path("u8"))]));
    assert!(c.satisfy_requests(&vec![tn("Outer")]).is_ok());
    assert!(c.is_pod(&tn("Outer")));

    let mut c = ByValueChecker::new();
    c.ingest_struct(&strukt("Outer", vec![field("inner", path("Inner"))]));
    c.ingest_struct(&strukt("Inner", vec![field("leaf", path("Leaf"))]));
    c.ingest_struct(&strukt("Leaf", vec![field("v", ptr(false, path("u8")))]));
    c.resolve();
    assert!(!c.is_pod(&tn("Leaf")));
    assert!(!c.is_pod(&tn("Inner")));
    assert!(!c.is_pod(&tn("Outer")));
}

#[test]
fn mutually_nested_structs_are_opaque() {
    let mut c = ByValueChecker::new();
    c.ingest_struct(&strukt("A", vec![field("b", path("B"))]));
    c.ingest_struct(&strukt("B", vec![field("a", path("A"))]));
    c.resolve();
    assert!(!c.is_pod(&tn("A")));
    assert!(!c.is_pod(&tn("B")));
}

#[test]
fn unsafe_request_names_the_type() {
    let mut c = widget_checker();
    let r = c.satisfy_requests(&vec![tn("Point"), tn("Widget"), tn("Other")]);
    assert_eq!(r, Err(s("Widget")));
}

#[test]
fn pointers_become_references_keeping_mutability() {
    let t = convert_type(&ptr(false, path("Goat")));
    let (m, e) = ref_of(&t).unwrap();
    assert!(!m);
    assert_eq!(path_ident(e), Some(s("Goat")));

    let t = convert_type(&ptr(true, path("Goat")));
    let (m, _) = ref_of(&t).unwrap();
    assert!(m);
}

#[test]
fn nested_pointers_convert_at_every_level() {
    let t = convert_type(&generic("Vec", ptr(true, generic("Box", ptr(false, path("u8"))))));
    let Ty::Path { segments } = &t else { panic!("path expected") };
    let GenericArg::Type(inner) = &segments[0].args[0] else { panic!("type expected") };
    let (m1, e1) = ref_of(inner).unwrap();
    assert!(m1);
    let Ty::Path { segments } = e1 else { panic!("path expected") };
    assert_eq!(segments[0].ident, "Box");
    let GenericArg::Type(inner) = &segments[0].args[0] else { panic!("type expected") };
    let (m2, e2) = ref_of(inner).unwrap();
    assert!(!m2);
    assert_eq!(path_ident(e2), Some(s("u8")));
}

#[test]
fn method_names_are_demangled() {
    let c = widget_checker();
    let types = vec![tn("Widget")];
    let f = ffn("Widget_resize", vec![arg("this", ptr(true, path("Widget"))), arg("w", path("u32"))], None);
    let (nf, need) = convert_foreign_fn(&c, &types, &vec![], f).unwrap();
    assert_eq!(nf.name, "resize");
    assert!(matches!(&nf.args[0].pat, Pat::Ident(x) if x == "self"));
    assert!(matches!(&nf.args[1].pat, Pat::Ident(x) if x == "w"));
    assert!(ref_of(&nf.args[0].ty).unwrap().0);
    assert!(need.is_none());
}

#[test]
fn free_functions_keep_their_names() {
    let c = widget_checker();
    let types = vec![tn("Widget")];
    let f = ffn("Widget_count", vec![arg("n", path("u32"))], Some(path("u32")));
    let (nf, need) = convert_foreign_fn(&c, &types, &vec![], f).unwrap();
    assert_eq!(nf.name, "Widget_count");
    assert!(need.is_none());
}

#[test]
fn default_constructors_are_dropped() {
    let c = widget_checker();
    let types = vec![tn("Point"), tn("Widget")];
    let f = ffn("Widget_Widget", vec![arg("this", ptr(true, path("Widget")))], None);
    assert!(convert_foreign_fn(&c, &types, &vec![], f).is_none());
}

#[test]
fn by_value_opaque_parameter_needs_a_wrapper() {
    let c = widget_checker();
    let f = ffn("take_widget", vec![arg("p", path("Point")), arg("w", path("Widget"))], None);
    let (nf, need) = convert_foreign_fn(&c, &vec![], &vec![], f).unwrap();
    match need {
        Some(AdditionalNeed::ByValueWrapper(id, ret, params)) => {
            assert_eq!(id, nf.name);
            assert!(ret.is_none());
            assert_eq!(params.len(), 2);
            assert_eq!(params[0].kind, ConversionKind::Unconverted);
            assert_eq!(params[1].kind, ConversionKind::FromUniquePtr);
            assert_eq!(path_ident(&params[1].ty), Some(s("Widget")));
        },
        _ => panic!("wrapper expected"),
    }
}

#[test]
fn by_value_opaque_return_needs_a_wrapper() {
    let c = widget_checker();
    let f = ffn("make_widget", vec![arg("n", ptr(false, path("c_char")))], Some(path("Widget")));
    let (_, need) = convert_foreign_fn(&c, &vec![], &vec![], f).unwrap();
    match need {
        Some(AdditionalNeed::ByValueWrapper(id, Some(ret), params)) => {
            assert_eq!(id, "make_widget");
            assert_eq!(ret.kind, ConversionKind::ToUniquePtr);
            assert_eq!(params.len(), 1);
            assert_eq!(params[0].kind, ConversionKind::Unconverted);
        },
        _ => panic!("wrapper expected"),
    }
}

#[test]
fn references_to_opaque_types_need_no_wrapper() {
    let c = widget_checker();
    let f = ffn("inspect", vec![arg("w", ptr(false, path("Widget")))], Some(path("Point")));
    let (_, need) = convert_foreign_fn(&c, &vec![], &vec![], f).unwrap();
    assert!(need.is_none());
}

#[test]
fn link_names_are_stripped_and_renames_applied() {
    let c = widget_checker();
    let mut f = ffn("do_it", vec![], None);
    f.attrs = vec![
        Attr { name: s("link_name"), value: s("_Z5do_itv") },
        Attr { name: s("doc"), value: s("hello") },
    ];
    let renames = vec![(s("other"), s("x")), (s("do_it"), s("do_it_now"))];
    let (nf, _) = convert_foreign_fn(&c, &vec![], &renames, f).unwrap();
    assert_eq!(nf.attrs.len(), 2);
    assert_eq!(nf.attrs[0].name, "doc");
    assert_eq!(nf.attrs[1].name, "rust_name");
    assert_eq!(nf.attrs[1].value, "do_it_now");
}

#[test]
fn strip_attr_keeps_order() {
    let attrs = vec![
        Attr { name: s("a"), value: s("1") },
        Attr { name: s("link_name"), value: s("2") },
        Attr { name: s("b"), value: s("3") },
    ];
    let r = strip_attr(attrs, "link_name");
    let names: Vec<&str> = r.iter().map(|a| a.name.as_str()).collect();
    assert_eq!(names, vec!["a", "b"]);
}

#[test]
fn strip_attr_matches_single_identifiers_only() {
    let attrs = vec![
        Attr { name: s("a::b"), value: s("1") },
        Attr { name: s("b"), value: s("2") },
    ];
    let r = strip_attr(attrs, "a::b");
    assert_eq!(r.len(), 2);
    let attrs = vec![
        Attr { name: s("a::b"), value: s("1") },
        Attr { name: s("b"), value: s("2") },
    ];
    let r = strip_attr(attrs, "b");
    assert_eq!(r.len(), 1);
    assert_eq!(r[0].name, "a::b");
}

#[test]
fn constructors_become_factories() {
    let m = Method {
        attrs: vec![],
        is_unsafe: true,
        name: s("new"),
        args: vec![MethodArg::Typed(arg("size", path("u32"))), MethodArg::Typed(arg("p", path("Point")))],
        ret: Some(path("Widget")),
        body: Body::Source(s("{ unimplemented }")),
    };
    let (block, need) = convert_new_method(&tn("Widget"), path("Widget"), s("<T>"), None, m).unwrap();
    match need {
        AdditionalNeed::MakeUnique(t, args) => {
            assert_eq!(t.name, "Widget");
            let names: Vec<&str> = args.iter().map(|a| a.name.as_str()).collect();
            assert_eq!(names, vec!["u32", "Point"]);
        },
        _ => panic!("factory expected"),
    }
    assert!(!block.is_unsafe);
    assert_eq!(path_ident(&block.self_ty), Some(s("Widget")));
    assert_eq!(block.generics, "<T>");
    assert!(block.trait_path.is_none());
    let ImplItem::Method(nm) = &block.items[0] else { panic!("method expected") };
    assert_eq!(nm.name, "make_unique");
    assert!(!nm.is_unsafe);
    match &nm.body {
        Body::Forward { callee, args } => {
            assert_eq!(callee, "Widget_make_unique");
            assert_eq!(args, &vec![s("size"), s("p")]);
        },
        _ => panic!("forwarding body expected"),
    }
    let Some(Ty::Path { segments }) = &nm.ret else { panic!("path expected") };
    assert_eq!(segments[1].ident, "UniquePtr");
}

#[test]
fn constructor_without_return_type_is_left_alone() {
    let m = Method {
        attrs: vec![],
        is_unsafe: false,
        name: s("new"),
        args: vec![],
        ret: None,
        body: Body::Source(s("{}")),
    };
    assert!(convert_new_method(&tn("Widget"), path("Widget"), s("<T>"), None, m).is_none());
}

fn sample_items() -> Vec<Item> {
    vec![
        Item::Struct(strukt("Widget", vec![field("name", path("std_string"))])),
        Item::Struct(strukt("Point", vec![field("x", path("i32"))])),
        Item::Enum(EnumDecl { attrs: vec![], name: s("Colour"), generics: String::new(), variants: vec![s("Red")] }),
        Item::Impl(ImplBlock {
            attrs: vec![],
            is_unsafe: false,
            generics: String::new(),
            trait_path: None,
            self_ty: path("Widget"),
            items: vec![
                ImplItem::Method(Method {
                    attrs: vec![],
                    is_unsafe: true,
                    name: s("new"),
                    args: vec![],
                    ret: Some(path("Widget")),
                    body: Body::Source(s("{}")),
                }),
                ImplItem::Method(Method {
                    attrs: vec![],
                    is_unsafe: false,
                    name: s("width"),
                    args: vec![MethodArg::Receiver { mutable: false }],
                    ret: Some(path("u32")),
                    body: Body::Source(s("{ 0 }")),
                }),
            ],
        }),
        Item::ForeignMod(ForeignMod {
            attrs: vec![Attr { name: s("abi"), value: s("C") }],
            items: vec![
                ForeignItem::Fn(ffn("Widget_Widget", vec![arg("this", ptr(true, path("Widget")))], None)),
                ForeignItem::Fn(ffn("Widget_resize", vec![arg("this", ptr(true, path("Widget")))], None)),
            ],
        }),
        Item::Other(s("use std::os::raw;")),
    ]
}

#[test]
fn whole_module_conversion() {
    let mut conv = BridgeConverter::new(vec![s("widget.h")], vec![tn("Point")]);
    let res = match conv.convert(module(sample_items()), Some(s("extra.h")), &vec![]) {
        Ok(r) => r,
        Err(e) => panic!("{:?}", e),
    };
    let n = res.items.len();
    let Item::Mod(bridge) = &res.items[n - 1] else { panic!("module expected") };
    let bridge_body = bridge.content.as_ref().unwrap();
    let Item::ForeignMod(fm) = bridge_body.last().unwrap() else { panic!("block expected") };
    let Item::Mod(bindgen) = &res.items[n - 2] else { panic!("module expected") };
    assert_eq!(bindgen.name, "bindgen");
    let body = bindgen.content.as_ref().unwrap();
    let Item::Struct(w) = &body[0] else { panic!("struct expected") };
    assert!(w.fields.is_empty());
    let Item::Struct(p) = &body[1] else { panic!("struct expected") };
    assert_eq!(p.fields.len(), 1);
    let Item::Impl(factory) = &body[3] else { panic!("factory expected") };
    assert!(matches!(&factory.items[0], ImplItem::Method(m) if m.name == "make_unique"));
    let Item::Impl(kept) = &body[4] else { panic!("impl block expected") };
    assert_eq!(kept.items.len(), 1);
    assert!(matches!(&kept.items[0], ImplItem::Method(m) if m.name == "width"));
    assert!(matches!(&body[5], Item::Other(x) if x == "use std::os::raw;"));
    assert_eq!(body.len(), 6);
    assert!(matches!(&bridge.attrs[0], Attr { name, .. } if name == "cxx::bridge"));
    let stubs: Vec<&str> = bridge_body[..1]
        .iter()
        .map(|i| match i {
            Item::UniquePtrStub(x) => x.as_str(),
            _ => panic!("stub expected"),
        })
        .collect();
    assert_eq!(stubs, vec!["Widget"]);
    assert_eq!(bridge_body.len(), 2);
    assert!(matches!(&fm.items[5], ForeignItem::TypeAlias(x) if x == "Colour"));
    assert_eq!(fm.items.len(), 6);
    assert!(matches!(res.items.last(), Some(Item::Mod(m)) if m.name == "cxxbridge"));

    assert_eq!(bridge.name, "cxxbridge");
    let fn_names: Vec<&str> = fm
        .items
        .iter()
        .filter_map(|i| match i {
            ForeignItem::Fn(f) => Some(f.name.as_str()),
            _ => None,
        })
        .collect();
    assert_eq!(fn_names, vec!["resize"]);
    assert!(matches!(&fm.items[1], ForeignItem::Include(x) if x == "widget.h"));
    assert!(matches!(&fm.items[2], ForeignItem::Include(x) if x == "extra.h"));
    assert!(matches!(&fm.items[3], ForeignItem::TypeAlias(x) if x == "Widget"));
    assert_eq!(fm.attrs.len(), 1);

    assert!(res.items.iter().any(|i| matches!(i, Item::ExternType { ident, trivial: false, .. } if ident == "Widget")));
    assert!(res.items.iter().any(|i| matches!(i, Item::ExternType { ident, trivial: true, .. } if ident == "Colour")));
    assert!(matches!(&res.items[0], Item::ExternType { .. }));
    assert_eq!(res.items.len(), 5);
    assert_eq!(res.additional_cpp_needs.len(), 1);
    assert!(matches!(&res.additional_cpp_needs[0], AdditionalNeed::MakeUnique(t, a) if t.name == "Widget" && a.is_empty()));
}

#[test]
fn requesting_an_opaque_type_fails_closed() {
    let items = vec![
        Item::Struct(strukt("Opaque", vec![field("p", ptr(false, path("u8")))])),
        Item::Struct(strukt("NonTrivial", vec![field("o", path("Opaque"))])),
    ];
    let mut conv = BridgeConverter::new(vec![], vec![tn("NonTrivial")]);
    match conv.convert(module(items), None, &vec![]) {
        Err(ConvertError::UnsafePODType(n)) => assert_eq!(n, "NonTrivial"),
        _ => panic!("unsafe request must fail"),
    }
}

#[test]
fn module_without_body_is_rejected() {
    let mut conv = BridgeConverter::new(vec![], vec![]);
    let m = Module { attrs: vec![], is_pub: false, name: s("bindgen"), content: None };
    assert!(matches!(conv.convert(m, None, &vec![]), Err(ConvertError::NoContent)));
}

#[test]
fn unknown_foreign_items_are_rejected() {
    let items = vec![Item::ForeignMod(ForeignMod { attrs: vec![], items: vec![ForeignItem::Other(s("static X: u8;"))] })];
    let mut conv = BridgeConverter::new(vec![], vec![]);
    assert!(matches!(conv.convert(module(items), None, &vec![]), Err(ConvertError::UnknownForeignItem)));
}

#[test]
fn empty_module_still_gets_a_foreign_block() {
    let mut conv = BridgeConverter::new(vec![], vec![]);
    let res = match conv.convert(module(vec![]), None, &vec![]) {
        Ok(r) => r,
        Err(e) => panic!("{:?}", e),
    };
    assert_eq!(res.items.len(), 2);
    let Item::Mod(bridge) = &res.items[1] else { panic!("module expected") };
    assert!(matches!(bridge.content.as_ref().unwrap().last(), Some(Item::ForeignMod(_))));
}

#[test]
fn type_name_helpers() {
    let w = tn("Widget");
    assert_eq!(w.prefixes(&s("Widget_resize")), Some(s("resize")));
    assert_eq!(w.prefixes(&s("Widgetresize")), None);
    assert_eq!(w.prefixes(&s("Widget")), None);
    assert_eq!(w.prefixes(&s("Gadget_resize")), None);
    assert_eq!(w.constructor_name(), "Widget_Widget");
    assert_eq!(w.make_unique_name(), "Widget_make_unique");
    assert!(str_eq("abc", "abc"));
    assert!(!str_eq("abc", "abd"));
}

#[test]
fn trait_impls_and_generics_are_kept() {
    let mut pair = strukt("Pair", vec![field("x", path("i32"))]);
    pair.generics = s("<T>");
    let items = vec![
        Item::Struct(pair),
        Item::Impl(ImplBlock {
            attrs: vec![],
            is_unsafe: false,
            generics: s("<T>"),
            trait_path: Some(s("Default")),
            self_ty: path("Pair"),
            items: vec![ImplItem::Method(Method {
                attrs: vec![],
                is_unsafe: false,
                name: s("default"),
                args: vec![],
                ret: Some(path("Pair")),
                body: Body::Source(s("{ todo }")),
            })],
        }),
    ];
    let mut conv = BridgeConverter::new(vec![], vec![]);
    let res = match conv.convert(module(items), None, &vec![]) {
        Ok(r) => r,
        Err(e) => panic!("{:?}", e),
    };
    let Item::Mod(bindgen) = &res.items[res.items.len() - 2] else { panic!("module expected") };
    let body = bindgen.content.as_ref().unwrap();
    assert_eq!(body.len(), 2);
    let Item::Struct(p) = &body[0] else { panic!("struct expected") };
    assert_eq!(p.generics, "<T>");
    let Item::Impl(i) = &body[1] else { panic!("impl expected") };
    assert_eq!(i.trait_path, Some(s("Default")));
    assert_eq!(i.generics, "<T>");
    assert_eq!(i.items.len(), 1);
    assert!(res.additional_cpp_needs.is_empty());
}

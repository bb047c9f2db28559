use vstd::prelude::*;
use crate::ast::{convert_type, copy_ty, lemma_converted_copy, path_name, ty_converted, Attr, FnArg, ForeignFn, Pat, Ty};
use crate::conversion::{lemma_kinds_preserved, param_kind, return_kind, AdditionalNeed, ArgumentConversion, ConversionKind};
use crate::triviality::{ByValueChecker, DeclV};
use crate::types::{class_prefix, constructor_name_of, is_prefix_of, str_eq, TypeName};

verus! {

/// The names of a sequence of types.
pub open spec fn names_of(types: Seq<TypeName>) -> Seq<Seq<char>> {
    types.map_values(|t: TypeName| t@)
}

/// `name` is the synthetic default constructor of one of `types`.
pub open spec fn is_constructor(types: Seq<Seq<char>>, name: Seq<char>) -> bool {
    exists|i: int| 0 <= i < types.len() && name == constructor_name_of(#[trigger] types[i])
}

/// Index of the first of `types` whose class prefix starts `name`, or -1.
pub open spec fn first_prefix(types: Seq<Seq<char>>, name: Seq<char>) -> int
    decreases types.len(),
{
    if types.len() == 0 {
        -1
    } else {
        let k = first_prefix(types.drop_last(), name);
        if k >= 0 {
            k
        } else if is_prefix_of(class_prefix(types.last()), name) {
            types.len() - 1
        } else {
            -1
        }
    }
}

/// The bridge identifier of foreign function `name`: for a method of one of
/// `types`, the part after `Type_`.
pub open spec fn method_ident(types: Seq<Seq<char>>, name: Seq<char>, is_method: bool) -> Seq<char> {
    let k = first_prefix(types, name);
    if is_method && 0 <= k < types.len() {
        name.subrange(types[k].len() as int + 1, name.len() as int)
    } else {
        name
    }
}

/// The parameter is the conventional receiver, `this`.
pub open spec fn is_this(a: FnArg) -> bool {
    a.pat matches Pat::Ident(x) && x@ == "this"@
}

/// `b` is parameter `a` rewritten for the bridge.
pub open spec fn arg_rewritten(a: FnArg, b: FnArg) -> bool {
    &&& ty_converted(a.ty, b.ty)
    &&& if is_this(a) {
        b.pat matches Pat::Ident(y) && y@ == "self"@
    } else {
        b.pat == a.pat
    }
}

/// `n` is a single identifier rather than a path of several segments.
pub open spec fn is_single_ident(n: Seq<char>) -> bool {
    forall|i: int| 0 <= i < n.len() ==> n[i] != ':'
}

/// Whether `s` is a single identifier rather than a path.
pub fn single_ident(s: &str) -> (r: bool)
    ensures
        r == is_single_ident(s@),
{
    let n = s.unicode_len();
    let mut i: usize = 0;
    while i < n
        invariant
            n == s@.len(),
            i <= n,
            forall|j: int| 0 <= j < i ==> s@[j] != ':',
        decreases n - i,
    {
        if s.get_char(i) == ':' {
            return false;
        }
        i = i + 1;
    }
    true
}

/// `attrs` without those whose name is the single identifier `key`;
/// attributes named by a path of several segments are always kept.
pub open spec fn without_attr(attrs: Seq<Attr>, key: Seq<char>) -> Seq<Attr>
    decreases attrs.len(),
{
    if attrs.len() == 0 {
        attrs
    } else {
        let rest = without_attr(attrs.drop_last(), key);
        if attrs.last().name@ == key && is_single_ident(key) {
            rest
        } else {
            rest.push(attrs.last())
        }
    }
}

/// Index of the first rename whose original name is `name`, or -1.
pub open spec fn find_rename(renames: Seq<(String, String)>, name: Seq<char>) -> int
    decreases renames.len(),
{
    if renames.len() == 0 {
        -1
    } else {
        let k = find_rename(renames.drop_last(), name);
        if k >= 0 {
            k
        } else if renames.last().0@ == name {
            renames.len() - 1
        } else {
            -1
        }
    }
}

proof fn lemma_first_prefix(types: Seq<Seq<char>>, name: Seq<char>, i: int)
    requires
        0 <= i <= types.len(),
        forall|j: int| 0 <= j < i ==> !is_prefix_of(class_prefix(#[trigger] types[j]), name),
        i < types.len() ==> is_prefix_of(class_prefix(types[i]), name),
    ensures
        first_prefix(types, name) == (if i < types.len() { i } else { -1 }),
    decreases types.len(),
{
    if types.len() > 0 {
        if i == types.len() {
            lemma_first_prefix(types.drop_last(), name, i - 1);
        } else {
            lemma_first_prefix(types.drop_last(), name, i);
        }
    }
}

proof fn lemma_find_rename(renames: Seq<(String, String)>, name: Seq<char>, i: int)
    requires
        0 <= i <= renames.len(),
        forall|j: int| 0 <= j < i ==> (#[trigger] renames[j]).0@ != name,
        i < renames.len() ==> renames[i].0@ == name,
    ensures
        find_rename(renames, name) == (if i < renames.len() { i } else { -1 }),
    decreases renames.len(),
{
    if renames.len() > 0 {
        if i == renames.len() {
            lemma_find_rename(renames.drop_last(), name, i - 1);
        } else {
            lemma_find_rename(renames.drop_last(), name, i);
        }
    }
}

/// Removes every attribute whose name is the single identifier `key`,
/// keeping the order of the rest.
pub fn strip_attr(attrs: Vec<Attr>, key: &str) -> (r: Vec<Attr>)
    ensures
        r@ == without_attr(attrs@, key@),
{
    let ghost orig = attrs@;
    let key_is_ident = single_ident(key);
    let mut rest = attrs;
    let mut out: Vec<Attr> = Vec::new();
    while rest.len() > 0
        invariant
            rest.len() <= orig.len(),
            rest@ == orig.subrange(orig.len() - rest.len(), orig.len() as int),
            out@ == without_attr(orig.subrange(0, orig.len() - rest.len()), key@),
            key_is_ident == is_single_ident(key@),
        decreases rest.len(),
    {
        let ghost done = orig.len() - rest.len();
        let a = rest.remove(0);
        proof {
            assert(orig.subrange(0, done + 1).drop_last() =~= orig.subrange(0, done));
            assert(rest@ =~= orig.subrange(orig.len() - rest.len(), orig.len() as int));
        }
        if !(key_is_ident && str_eq(a.name.as_str(), key)) {
            out.push(a);
        }
    }
    proof {
        assert(orig.subrange(0, orig.len() as int) =~= orig);
    }
    out
}

/// Looks up the new name requested for the function `name`.
fn find_rename_exec(renames: &Vec<(String, String)>, name: &String) -> (r: Option<usize>)
    ensures
        match r {
            Some(i) => i < renames.len() && find_rename(renames@, name@) == i,
            None => find_rename(renames@, name@) == -1,
        },
{
    let mut i: usize = 0;
    while i < renames.len()
        invariant
            i <= renames.len(),
            forall|j: int| 0 <= j < i ==> (#[trigger] renames@[j]).0@ != name@,
        decreases renames.len() - i,
    {
        if renames[i].0 == *name {
            proof {
                lemma_find_rename(renames@, name@, i as int);
            }
            return Some(i);
        }
        i = i + 1;
    }
    proof {
        lemma_find_rename(renames@, name@, i as int);
    }
    None
}

/// Whether `name` is the synthetic default constructor of one of `types`.
fn is_constructor_exec(types: &Vec<TypeName>, name: &String) -> (r: bool)
    ensures
        r == is_constructor(names_of(types@), name@),
{
    let mut i: usize = 0;
    while i < types.len()
        invariant
            i <= types.len(),
            forall|j: int| 0 <= j < i ==> name@ != constructor_name_of(#[trigger] names_of(types@)[j]),
        decreases types.len() - i,
    {
        let c = types[i].constructor_name();
        if c == *name {
            proof {
                assert(names_of(types@)[i as int] == types@[i as int]@);
            }
            return true;
        }
        i = i + 1;
    }
    false
}

/// The bridge identifier for foreign function `name`.
fn demangle(types: &Vec<TypeName>, name: &String, is_method: bool) -> (r: String)
    ensures
        r@ == method_ident(names_of(types@), name@, is_method),
{
    if !is_method {
        return name.clone();
    }
    let mut i: usize = 0;
    while i < types.len()
        invariant
            is_method,
            i <= types.len(),
            forall|j: int| 0 <= j < i ==> !is_prefix_of(class_prefix(#[trigger] names_of(types@)[j]), name@),
        decreases types.len() - i,
    {
        proof {
            assert(names_of(types@)[i as int] == types@[i as int]@);
        }
        match types[i].prefixes(name) {
            Some(suffix) => {
                proof {
                    assert(names_of(types@)[i as int] == types@[i as int]@);
                    lemma_first_prefix(names_of(types@), name@, i as int);
                }
                return suffix;
            },
            None => {},
        }
        i = i + 1;
    }
    proof {
        lemma_first_prefix(names_of(types@), name@, i as int);
    }
    name.clone()
}

/// Rewrites one parameter: `this` becomes the receiver `self`, pointers
/// become references, and the parameter's conversion is worked out.
fn convert_fn_arg(checker: &ByValueChecker, arg: FnArg) -> (r: (FnArg, ArgumentConversion, bool))
    requires
        checker.wf(),
        checker.is_resolved(),
    ensures
        arg_rewritten(arg, r.0),
        ty_converted(arg.ty, r.1.ty),
        r.1.kind == param_kind(checker.decls(), r.0.ty),
        r.2 == is_this(arg),
{
    let new_ty = convert_type(&arg.ty);
    let conv_ty = copy_ty(&new_ty);
    proof {
        lemma_converted_copy(arg.ty, new_ty, conv_ty);
    }
    let conversion = conversion_required(checker, conv_ty, &new_ty);
    let mut found_this = false;
    let pat = match arg.pat {
        Pat::Ident(x) => {
            if str_eq(x.as_str(), "this") {
                found_this = true;
                Pat::Ident(String::from_str("self"))
            } else {
                Pat::Ident(x)
            }
        },
        p => p,
    };
    (FnArg { pat, ty: new_ty }, conversion, found_this)
}

/// The conversion for a parameter of type `ty` (`same` is an equal copy).
fn conversion_required(checker: &ByValueChecker, ty: Ty, same: &Ty) -> (r: ArgumentConversion)
    requires
        checker.wf(),
        checker.is_resolved(),
    ensures
        r.ty == ty,
        r.kind == param_kind(checker.decls(), *same),
{
    match same {
        Ty::Path { segments } => {
            let name = type_name_of_path(segments);
            if checker.is_pod(&name) {
                ArgumentConversion::unconverted(ty)
            } else {
                ArgumentConversion::from_unique_ptr(ty)
            }
        },
        _ => ArgumentConversion::unconverted(ty),
    }
}

/// One of the parameters is the conventional receiver.
pub open spec fn has_this(args: Seq<FnArg>) -> bool {
    exists|j: int| 0 <= j < args.len() && is_this(#[trigger] args[j])
}

/// `f`'s attributes are those of `fun` without its linkage hint, followed by
/// a rename hint when one was requested for `fun`'s original name.
pub open spec fn attrs_rewritten(renames: Seq<(String, String)>, fun: ForeignFn, f: ForeignFn) -> bool {
    let kept = without_attr(fun.attrs@, "link_name"@);
    let k = find_rename(renames, fun.name@);
    if 0 <= k < renames.len() {
        &&& f.attrs@.len() == kept.len() + 1
        &&& f.attrs@.drop_last() == kept
        &&& f.attrs@.last().name@ == "rust_name"@
        &&& f.attrs@.last().value@ == renames[k].1@
    } else {
        f.attrs@ == kept
    }
}

/// `f` is foreign function `fun` rewritten for the bridge, when the types
/// discovered so far are `types`.
pub open spec fn fn_rewritten(types: Seq<Seq<char>>, renames: Seq<(String, String)>, fun: ForeignFn, f: ForeignFn) -> bool {
    &&& f.name@ == method_ident(types, fun.name@, has_this(fun.args@))
    &&& f.args.len() == fun.args.len()
    &&& forall|j: int| 0 <= j < fun.args.len() ==> #[trigger] arg_rewritten(fun.args@[j], f.args@[j])
    &&& match fun.ret {
        None => f.ret is None,
        Some(t) => f.ret matches Some(t2) && ty_converted(t, t2),
    }
    &&& attrs_rewritten(renames, fun, f)
}

/// Some slot of `f` crosses the bridge by value with a non-trivial type.
pub open spec fn wrapper_needed(decls: Seq<DeclV>, f: ForeignFn) -> bool {
    ||| exists|j: int| 0 <= j < f.args.len() && param_kind(decls, (#[trigger] f.args@[j]).ty) != ConversionKind::Unconverted
    ||| f.ret matches Some(t) && return_kind(decls, t) != ConversionKind::Unconverted
}

/// `n` describes the wrapper of `f` (rewritten from `fun`): its identifier,
/// its return conversion and the conversion of every parameter in order.
pub open spec fn wrapper_describes(decls: Seq<DeclV>, fun: ForeignFn, f: ForeignFn, n: AdditionalNeed) -> bool {
    n matches AdditionalNeed::ByValueWrapper(id, rc, pcs) && {
        &&& id@ == f.name@
        &&& pcs.len() == f.args.len()
        &&& forall|j: int| 0 <= j < pcs.len() ==> {
            &&& ty_converted(fun.args@[j].ty, (#[trigger] pcs@[j]).ty)
            &&& pcs@[j].kind == param_kind(decls, f.args@[j].ty)
        }
        &&& match fun.ret {
            None => rc is None,
            Some(t) => rc matches Some(c) && ty_converted(t, c.ty) && c.kind == return_kind(decls, f.ret->0),
        }
    }
}

/// Some slot of foreign function `fun` takes or returns a non-trivial type
/// by value.
pub open spec fn wrapper_needed_in(decls: Seq<DeclV>, fun: ForeignFn) -> bool {
    ||| exists|j: int| 0 <= j < fun.args.len() && param_kind(decls, (#[trigger] fun.args@[j]).ty) != ConversionKind::Unconverted
    ||| fun.ret matches Some(t) && return_kind(decls, t) != ConversionKind::Unconverted
}

/// `n` describes the wrapper of foreign function `fun`, given the types
/// discovered before it: its bridge identifier, its return conversion and
/// the conversion of every parameter in order.
pub open spec fn wrapper_describes_in(decls: Seq<DeclV>, types: Seq<Seq<char>>, fun: ForeignFn, n: AdditionalNeed) -> bool {
    n matches AdditionalNeed::ByValueWrapper(id, rc, pcs) && {
        &&& id@ == method_ident(types, fun.name@, has_this(fun.args@))
        &&& pcs.len() == fun.args.len()
        &&& forall|j: int| 0 <= j < pcs.len() ==> {
            &&& ty_converted(fun.args@[j].ty, (#[trigger] pcs@[j]).ty)
            &&& pcs@[j].kind == param_kind(decls, fun.args@[j].ty)
        }
        &&& match fun.ret {
            None => rc is None,
            Some(t) => rc matches Some(c) && ty_converted(t, c.ty) && c.kind == return_kind(decls, t),
        }
    }
}

/// Rewrites a foreign function for the bridge. Returns `None` for the
/// synthetic default constructor of a discovered type, which is replaced
/// by a factory; otherwise the rewritten function and, when a slot needs
/// by-value conversion, the wrapper it needs.
pub fn convert_foreign_fn(
    checker: &ByValueChecker,
    types_found: &Vec<TypeName>,
    renames: &Vec<(String, String)>,
    fun: ForeignFn,
) -> (r: Option<(ForeignFn, Option<AdditionalNeed>)>)
    requires
        checker.wf(),
        checker.is_resolved(),
    ensures
        r is None <==> is_constructor(names_of(types_found@), fun.name@),
        r matches Some((f, need)) ==> {
            &&& fn_rewritten(names_of(types_found@), renames@, fun, f)
            &&& need is Some <==> wrapper_needed(checker.decls(), f)
            &&& need matches Some(n) ==> wrapper_describes(checker.decls(), fun, f, n)
            &&& need is Some <==> wrapper_needed_in(checker.decls(), fun)
            &&& need matches Some(n) ==> wrapper_describes_in(checker.decls(), names_of(types_found@), fun, n)
        },
{
    if is_constructor_exec(types_found, &fun.name) {
        return None;
    }
    let ghost fun0 = fun;
    let ForeignFn { attrs, name, args, ret } = fun;
    let new_ret = match &ret {
        None => None,
        Some(t) => Some(convert_type(t)),
    };
    let ghost orig = args@;
    let mut rest = args;
    let mut new_args: Vec<FnArg> = Vec::new();
    let mut convs: Vec<ArgumentConversion> = Vec::new();
    let mut is_method = false;
    let mut param_work = false;
    while rest.len() > 0
        invariant
            checker.wf(),
            checker.is_resolved(),
            rest.len() <= orig.len(),
            rest@ == orig.subrange(orig.len() - rest.len(), orig.len() as int),
            new_args.len() == orig.len() - rest.len(),
            convs.len() == new_args.len(),
            forall|j: int| 0 <= j < new_args.len() ==> #[trigger] arg_rewritten(orig[j], new_args@[j]),
            forall|j: int| 0 <= j < new_args.len() ==> {
                &&& ty_converted(orig[j].ty, (#[trigger] convs@[j]).ty)
                &&& convs@[j].kind == param_kind(checker.decls(), new_args@[j].ty)
            },
            is_method == exists|j: int| 0 <= j < new_args.len() && is_this(#[trigger] orig[j]),
            param_work == exists|j: int| 0 <= j < new_args.len() && param_kind(checker.decls(), (#[trigger] new_args@[j]).ty) != ConversionKind::Unconverted,
        decreases rest.len(),
    {
        let ghost done = new_args.len() as int;
        let a = rest.remove(0);
        proof {
            assert(a == orig[done]);
            assert(rest@ =~= orig.subrange(orig.len() - rest.len(), orig.len() as int));
        }
        let (na, conv, was_self) = convert_fn_arg(checker, a);
        let ghost old_args = new_args@;
        is_method = is_method || was_self;
        param_work = param_work || conv.work_needed();
        new_args.push(na);
        convs.push(conv);
        proof {
            assert(new_args@[done] == na);
            assert(convs@[done] == conv);
            assert(forall|j: int| 0 <= j < done ==> new_args@[j] == old_args[j]);
            if conv.kind != ConversionKind::Unconverted {
                assert(param_kind(checker.decls(), new_args@[done].ty) != ConversionKind::Unconverted);
            }
        }
    }
    proof {
        assert(orig =~= fun0.args@);
    }
    let ident = demangle(types_found, &name, is_method);
    let ret_conv = match &ret {
        None => None,
        Some(t) => {
            let same = new_ret.as_ref().unwrap();
            let converted = copy_ty(same);
            proof {
                lemma_converted_copy(*t, *same, converted);
            }
            Some(return_conversion(checker, converted, same))
        },
    };
    let ret_work = match &ret_conv {
        None => false,
        Some(c) => c.work_needed(),
    };
    let mut new_attrs = strip_attr(attrs, "link_name");
    match find_rename_exec(renames, &name) {
        Some(k) => {
            new_attrs.push(Attr { name: String::from_str("rust_name"), value: renames[k].1.clone() });
            proof {
                assert(new_attrs@.drop_last() =~= without_attr(fun0.attrs@, "link_name"@));
            }
        },
        None => {},
    }
    let need = if param_work || ret_work {
        Some(AdditionalNeed::ByValueWrapper(ident.clone(), ret_conv, convs))
    } else {
        None
    };
    let f = ForeignFn { attrs: new_attrs, name: ident, args: new_args, ret: new_ret };
    proof {
        let decls = checker.decls();
        assert forall|j: int| 0 <= j < f.args.len() implies param_kind(decls, fun0.args@[j].ty) == param_kind(decls, (#[trigger] f.args@[j]).ty) by {
            assert(arg_rewritten(fun0.args@[j], f.args@[j]));
            lemma_kinds_preserved(decls, fun0.args@[j].ty, f.args@[j].ty);
        }
        if let Some(t) = fun0.ret {
            lemma_kinds_preserved(decls, t, f.ret->0);
        }
        if wrapper_needed_in(decls, fun0) {
            if exists|j: int| 0 <= j < fun0.args.len() && param_kind(decls, (#[trigger] fun0.args@[j]).ty) != ConversionKind::Unconverted {
                let j = choose|j: int| 0 <= j < fun0.args.len() && param_kind(decls, (#[trigger] fun0.args@[j]).ty) != ConversionKind::Unconverted;
                assert(param_kind(decls, f.args@[j].ty) != ConversionKind::Unconverted);
            }
        }
        if wrapper_needed(decls, f) {
            if exists|j: int| 0 <= j < f.args.len() && param_kind(decls, (#[trigger] f.args@[j]).ty) != ConversionKind::Unconverted {
                let j = choose|j: int| 0 <= j < f.args.len() && param_kind(decls, (#[trigger] f.args@[j]).ty) != ConversionKind::Unconverted;
                assert(param_kind(decls, fun0.args@[j].ty) != ConversionKind::Unconverted);
            }
        }
    }
    Some((f, need))
}

/// The conversion for a return slot of type `ty` (`same` is an equal copy).
fn return_conversion(checker: &ByValueChecker, ty: Ty, same: &Ty) -> (r: ArgumentConversion)
    requires
        checker.wf(),
        checker.is_resolved(),
    ensures
        r.ty == ty,
        r.kind == return_kind(checker.decls(), *same),
{
    match same {
        Ty::Path { segments } => {
            let name = type_name_of_path(segments);
            if checker.is_pod(&name) {
                ArgumentConversion::unconverted(ty)
            } else {
                ArgumentConversion::to_unique_ptr(ty)
            }
        },
        _ => ArgumentConversion::unconverted(ty),
    }
}

/// The name a path type is known by.
pub fn type_name_of_path(segments: &Vec<crate::ast::PathSegment>) -> (r: TypeName)
    ensures
        r@ == path_name(segments@),
{
    if segments.len() == 0 {
        TypeName { name: String::new() }
    } else {
        TypeName::from_ident(&segments[segments.len() - 1].ident)
    }
}

} // verus!

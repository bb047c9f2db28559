use vstd::prelude::*;

verus! {

/// A metadata entry attached to a declaration, such as `link_name = "f"`.
pub struct Attr {
    pub name: String,
    pub value: String,
}

/// A type as written in a declaration.
pub enum Ty {
    /// A possibly qualified, possibly generic type name.
    Path { segments: Vec<PathSegment> },
    Reference { mutable: bool, elem: Box<Ty> },
    Ptr { mutable: bool, elem: Box<Ty> },
    /// Any other type form, carried through untouched.
    Other { text: String },
}

pub struct PathSegment {
    pub ident: String,
    pub args: Vec<GenericArg>,
}

pub enum GenericArg {
    Type(Ty),
    /// A lifetime, constant or binding, carried through untouched.
    Other(String),
}

/// The name a path type is known by: its last segment, or the empty name.
pub open spec fn path_name(segments: Seq<PathSegment>) -> Seq<char> {
    if segments.len() == 0 {
        Seq::empty()
    } else {
        segments.last().ident@
    }
}

/// A pattern binding a parameter.
pub enum Pat {
    Ident(String),
    Other(String),
}

/// A typed parameter.
pub struct FnArg {
    pub pat: Pat,
    pub ty: Ty,
}

/// A function declared in a foreign-linkage block.
pub struct ForeignFn {
    pub attrs: Vec<Attr>,
    pub name: String,
    pub args: Vec<FnArg>,
    pub ret: Option<Ty>,
}

pub enum ForeignItem {
    Fn(ForeignFn),
    /// An inclusion directive naming a header.
    Include(String),
    /// `type T = super::bindgen::T;`
    TypeAlias(String),
    /// Statics, macros and other items the rewrite does not handle.
    Other(String),
}

/// A foreign-linkage block.
pub struct ForeignMod {
    pub attrs: Vec<Attr>,
    pub items: Vec<ForeignItem>,
}

pub struct Field {
    pub name: String,
    pub ty: Ty,
}

pub struct StructDecl {
    pub attrs: Vec<Attr>,
    pub name: String,
    /// The generic parameters and where clause, carried through as written.
    pub generics: String,
    pub fields: Vec<Field>,
}

pub struct EnumDecl {
    pub attrs: Vec<Attr>,
    pub name: String,
    /// The generic parameters and where clause, carried through as written.
    pub generics: String,
    pub variants: Vec<String>,
}

pub enum MethodArg {
    Receiver { mutable: bool },
    Typed(FnArg),
}

pub enum Body {
    /// A body carried through as written.
    Source(String),
    /// A body that forwards its arguments, in order, to `callee` in the
    /// bridge module.
    Forward { callee: String, args: Vec<String> },
}

pub struct Method {
    pub attrs: Vec<Attr>,
    pub is_unsafe: bool,
    pub name: String,
    pub args: Vec<MethodArg>,
    pub ret: Option<Ty>,
    pub body: Body,
}

pub enum ImplItem {
    Method(Method),
    Other(String),
}

pub struct ImplBlock {
    pub attrs: Vec<Attr>,
    pub is_unsafe: bool,
    /// The generic parameters and where clause, carried through as written.
    pub generics: String,
    /// The implemented trait's path, carried through as written; `None`
    /// for an inherent impl.
    pub trait_path: Option<String>,
    pub self_ty: Ty,
    pub items: Vec<ImplItem>,
}

pub struct Module {
    pub attrs: Vec<Attr>,
    pub is_pub: bool,
    pub name: String,
    /// `None` for a module declared without a body.
    pub content: Option<Vec<Item>>,
}

pub enum Item {
    ForeignMod(ForeignMod),
    Struct(StructDecl),
    Enum(EnumDecl),
    Impl(ImplBlock),
    Mod(Module),
    /// Binds a type of the reclassified module to its foreign identity
    /// `id` and its triviality.
    ExternType { ident: String, id: String, trivial: bool },
    /// An empty `impl UniquePtr<T> {}`, so that owning handles of `T`
    /// can be generated.
    UniquePtrStub(String),
    /// Any other item, carried through untouched.
    Other(String),
}

/// `b` is `a` as the bridge accepts it: every raw pointer, at any depth
/// and inside generic arguments too, has become a reference of the same
/// mutability; nothing else has changed.
pub open spec fn ty_converted(a: Ty, b: Ty) -> bool
    decreases a, 0int,
{
    match a {
        Ty::Path { segments } => match b {
            Ty::Path { segments: s2 } => segments.len() == s2.len() && segs_converted(
                segments@,
                s2@,
                segments.len() as int,
            ),
            _ => false,
        },
        Ty::Reference { mutable, elem } => match b {
            Ty::Reference { mutable: m2, elem: e2 } => mutable == m2 && ty_converted(*elem, *e2),
            _ => false,
        },
        Ty::Ptr { mutable, elem } => match b {
            Ty::Reference { mutable: m2, elem: e2 } => mutable == m2 && ty_converted(*elem, *e2),
            _ => false,
        },
        Ty::Other { text } => match b {
            Ty::Other { text: t2 } => text@ == t2@,
            _ => false,
        },
    }
}

/// The first `n` segments of `b` are those of `a`, converted.
pub open spec fn segs_converted(a: Seq<PathSegment>, b: Seq<PathSegment>, n: int) -> bool
    decreases a, n,
{
    if n <= 0 || n > a.len() || n > b.len() {
        n == 0
    } else {
        seg_converted(a[n - 1], b[n - 1]) && segs_converted(a, b, n - 1)
    }
}

pub open spec fn seg_converted(a: PathSegment, b: PathSegment) -> bool
    decreases a, 0int,
{
    a.ident@ == b.ident@ && a.args.len() == b.args.len() && args_converted(
        a.args@,
        b.args@,
        a.args.len() as int,
    )
}

/// The first `n` generic arguments of `b` are those of `a`, converted.
pub open spec fn args_converted(a: Seq<GenericArg>, b: Seq<GenericArg>, n: int) -> bool
    decreases a, n,
{
    if n <= 0 || n > a.len() || n > b.len() {
        n == 0
    } else {
        arg_converted(a[n - 1], b[n - 1]) && args_converted(a, b, n - 1)
    }
}

pub open spec fn arg_converted(a: GenericArg, b: GenericArg) -> bool
    decreases a, 0int,
{
    match a {
        GenericArg::Type(t) => match b {
            GenericArg::Type(t2) => ty_converted(t, t2),
            _ => false,
        },
        GenericArg::Other(s) => match b {
            GenericArg::Other(s2) => s@ == s2@,
            _ => false,
        },
    }
}

proof fn lemma_segs_converted(a: Seq<PathSegment>, b: Seq<PathSegment>, n: int)
    requires
        0 <= n <= a.len(),
        n <= b.len(),
        forall|j: int| 0 <= j < n ==> #[trigger] seg_converted(a[j], b[j]),
    ensures
        segs_converted(a, b, n),
    decreases n,
{
    if n > 0 {
        lemma_segs_converted(a, b, n - 1);
        assert(seg_converted(a[n - 1], b[n - 1]));
        assert(segs_converted(a, b, n)) by {
            reveal_with_fuel(segs_converted, 2);
        }
    }
}

proof fn lemma_args_converted(a: Seq<GenericArg>, b: Seq<GenericArg>, n: int)
    requires
        0 <= n <= a.len(),
        n <= b.len(),
        forall|j: int| 0 <= j < n ==> #[trigger] arg_converted(a[j], b[j]),
    ensures
        args_converted(a, b, n),
    decreases n,
{
    if n > 0 {
        lemma_args_converted(a, b, n - 1);
        assert(arg_converted(a[n - 1], b[n - 1]));
        assert(args_converted(a, b, n)) by {
            reveal_with_fuel(args_converted, 2);
        }
    }
}

proof fn lemma_segs_converted_at(a: Seq<PathSegment>, b: Seq<PathSegment>, n: int)
    requires
        0 <= n <= a.len(),
        n <= b.len(),
        segs_converted(a, b, n),
    ensures
        forall|j: int| 0 <= j < n ==> #[trigger] seg_converted(a[j], b[j]),
    decreases n,
{
    if n > 0 {
        reveal_with_fuel(segs_converted, 2);
        lemma_segs_converted_at(a, b, n - 1);
    }
}

proof fn lemma_segs_same_at(a: Seq<PathSegment>, b: Seq<PathSegment>, n: int)
    requires
        0 <= n <= a.len(),
        n <= b.len(),
        segs_same(a, b, n),
    ensures
        forall|j: int| 0 <= j < n ==> #[trigger] seg_same(a[j], b[j]),
    decreases n,
{
    if n > 0 {
        reveal_with_fuel(segs_same, 2);
        lemma_segs_same_at(a, b, n - 1);
    }
}

proof fn lemma_args_converted_at(a: Seq<GenericArg>, b: Seq<GenericArg>, n: int)
    requires
        0 <= n <= a.len(),
        n <= b.len(),
        args_converted(a, b, n),
    ensures
        forall|j: int| 0 <= j < n ==> #[trigger] arg_converted(a[j], b[j]),
    decreases n,
{
    if n > 0 {
        reveal_with_fuel(args_converted, 2);
        lemma_args_converted_at(a, b, n - 1);
    }
}

proof fn lemma_args_same_at(a: Seq<GenericArg>, b: Seq<GenericArg>, n: int)
    requires
        0 <= n <= a.len(),
        n <= b.len(),
        args_same(a, b, n),
    ensures
        forall|j: int| 0 <= j < n ==> #[trigger] arg_same(a[j], b[j]),
    decreases n,
{
    if n > 0 {
        reveal_with_fuel(args_same, 2);
        lemma_args_same_at(a, b, n - 1);
    }
}

/// A copy of a converted type is the same conversion of the original.
pub proof fn lemma_converted_copy(a: Ty, b: Ty, c: Ty)
    requires
        ty_converted(a, b),
        ty_same(b, c),
    ensures
        ty_converted(a, c),
    decreases a,
{
    match a {
        Ty::Path { segments } => {
            let s2 = b->segments;
            let s3 = c->segments;
            let n = segments.len() as int;
            assert(segs_converted(segments@, s2@, n));
            assert(segs_same(s2@, s3@, n));
            lemma_segs_converted_at(segments@, s2@, n);
            lemma_segs_same_at(s2@, s3@, n);
            assert forall|j: int| 0 <= j < n implies #[trigger] seg_converted(segments@[j], s3@[j]) by {
                assert(decreases_to!(a => a->segments));
                assert(decreases_to!(a->segments => a->segments[j]));
                lemma_seg_converted_copy(segments@[j], s2@[j], s3@[j]);
            }
            lemma_segs_converted(segments@, s3@, n);
        },
        Ty::Reference { mutable, elem } => {
            lemma_converted_copy(*elem, *b->Reference_elem, *c->Reference_elem);
        },
        Ty::Ptr { mutable, elem } => {
            lemma_converted_copy(*elem, *b->Reference_elem, *c->Reference_elem);
        },
        Ty::Other { text } => {},
    }
}

proof fn lemma_seg_converted_copy(a: PathSegment, b: PathSegment, c: PathSegment)
    requires
        seg_converted(a, b),
        seg_same(b, c),
    ensures
        seg_converted(a, c),
    decreases a,
{
    let n = a.args.len() as int;
    lemma_args_converted_at(a.args@, b.args@, n);
    lemma_args_same_at(b.args@, c.args@, n);
    assert forall|j: int| 0 <= j < n implies #[trigger] arg_converted(a.args@[j], c.args@[j]) by {
        assert(decreases_to!(a => a.args));
        assert(decreases_to!(a.args => a.args[j]));
        let x = a.args@[j];
        assert(arg_converted(x, b.args@[j]));
        assert(arg_same(b.args@[j], c.args@[j]));
        if let GenericArg::Type(t) = x {
            assert(decreases_to!(x => t));
            lemma_converted_copy(t, b.args@[j]->Type_0, c.args@[j]->Type_0);
        }
    }
    lemma_args_converted(a.args@, c.args@, n);
}

/// Rewrites raw pointers into references, keeping their mutability, at
/// every level of nesting.
pub fn convert_type(t: &Ty) -> (r: Ty)
    ensures
        ty_converted(*t, r),
    decreases t,
{
    match t {
        Ty::Path { segments } => {
            let mut out: Vec<PathSegment> = Vec::new();
            let mut i: usize = 0;
            while i < segments.len()
                invariant
                    i <= segments.len(),
                    out.len() == i,
                    *t == (Ty::Path { segments: *segments }),
                    forall|j: int| 0 <= j < i ==> #[trigger] seg_converted(segments@[j], out@[j]),
                decreases segments.len() - i,
            {
                proof {
                    assert(decreases_to!(*t => t->segments));
                    assert(decreases_to!(t->segments => t->segments[i as int]));
                }
                let seg = convert_segment(&segments[i]);
                out.push(seg);
                i = i + 1;
            }
            proof {
                lemma_segs_converted(segments@, out@, segments.len() as int);
            }
            Ty::Path { segments: out }
        },
        Ty::Reference { mutable, elem } => {
            Ty::Reference { mutable: *mutable, elem: Box::new(convert_type(elem)) }
        },
        Ty::Ptr { mutable, elem } => {
            Ty::Reference { mutable: *mutable, elem: Box::new(convert_type(elem)) }
        },
        Ty::Other { text } => Ty::Other { text: text.clone() },
    }
}

fn convert_segment(s: &PathSegment) -> (r: PathSegment)
    ensures
        seg_converted(*s, r),
    decreases s,
{
    let mut args: Vec<GenericArg> = Vec::new();
    let mut i: usize = 0;
    while i < s.args.len()
        invariant
            i <= s.args.len(),
            args.len() == i,
            forall|j: int| 0 <= j < i ==> #[trigger] arg_converted(s.args@[j], args@[j]),
        decreases s.args.len() - i,
    {
        let a = match &s.args[i] {
            GenericArg::Type(t) => GenericArg::Type(convert_type(t)),
            GenericArg::Other(x) => GenericArg::Other(x.clone()),
        };
        args.push(a);
        i = i + 1;
    }
    proof {
        lemma_args_converted(s.args@, args@, s.args.len() as int);
    }
    PathSegment { ident: s.ident.clone(), args }
}


/// `b` is a copy of `a`.
pub open spec fn ty_same(a: Ty, b: Ty) -> bool
    decreases a, 0int,
{
    match a {
        Ty::Path { segments } => match b {
            Ty::Path { segments: s2 } => segments.len() == s2.len() && segs_same(
                segments@,
                s2@,
                segments.len() as int,
            ),
            _ => false,
        },
        Ty::Reference { mutable, elem } => match b {
            Ty::Reference { mutable: m2, elem: e2 } => mutable == m2 && ty_same(*elem, *e2),
            _ => false,
        },
        Ty::Ptr { mutable, elem } => match b {
            Ty::Ptr { mutable: m2, elem: e2 } => mutable == m2 && ty_same(*elem, *e2),
            _ => false,
        },
        Ty::Other { text } => match b {
            Ty::Other { text: t2 } => text@ == t2@,
            _ => false,
        },
    }
}

/// The first `n` segments of `b` are copies of those of `a`.
pub open spec fn segs_same(a: Seq<PathSegment>, b: Seq<PathSegment>, n: int) -> bool
    decreases a, n,
{
    if n <= 0 || n > a.len() || n > b.len() {
        n == 0
    } else {
        seg_same(a[n - 1], b[n - 1]) && segs_same(a, b, n - 1)
    }
}

pub open spec fn seg_same(a: PathSegment, b: PathSegment) -> bool
    decreases a, 0int,
{
    a.ident@ == b.ident@ && a.args.len() == b.args.len() && args_same(
        a.args@,
        b.args@,
        a.args.len() as int,
    )
}

/// The first `n` generic arguments of `b` are copies of those of `a`.
pub open spec fn args_same(a: Seq<GenericArg>, b: Seq<GenericArg>, n: int) -> bool
    decreases a, n,
{
    if n <= 0 || n > a.len() || n > b.len() {
        n == 0
    } else {
        arg_same(a[n - 1], b[n - 1]) && args_same(a, b, n - 1)
    }
}

pub open spec fn arg_same(a: GenericArg, b: GenericArg) -> bool
    decreases a, 0int,
{
    match a {
        GenericArg::Type(t) => match b {
            GenericArg::Type(t2) => ty_same(t, t2),
            _ => false,
        },
        GenericArg::Other(s) => match b {
            GenericArg::Other(s2) => s@ == s2@,
            _ => false,
        },
    }
}

proof fn lemma_segs_same(a: Seq<PathSegment>, b: Seq<PathSegment>, n: int)
    requires
        0 <= n <= a.len(),
        n <= b.len(),
        forall|j: int| 0 <= j < n ==> #[trigger] seg_same(a[j], b[j]),
    ensures
        segs_same(a, b, n),
    decreases n,
{
    if n > 0 {
        lemma_segs_same(a, b, n - 1);
        assert(seg_same(a[n - 1], b[n - 1]));
        assert(segs_same(a, b, n)) by {
            reveal_with_fuel(segs_same, 2);
        }
    }
}

proof fn lemma_args_same(a: Seq<GenericArg>, b: Seq<GenericArg>, n: int)
    requires
        0 <= n <= a.len(),
        n <= b.len(),
        forall|j: int| 0 <= j < n ==> #[trigger] arg_same(a[j], b[j]),
    ensures
        args_same(a, b, n),
    decreases n,
{
    if n > 0 {
        lemma_args_same(a, b, n - 1);
        assert(arg_same(a[n - 1], b[n - 1]));
        assert(args_same(a, b, n)) by {
            reveal_with_fuel(args_same, 2);
        }
    }
}

pub fn copy_ty(t: &Ty) -> (r: Ty)
    ensures
        ty_same(*t, r),
    decreases t,
{
    match t {
        Ty::Path { segments } => {
            let mut out: Vec<PathSegment> = Vec::new();
            let mut i: usize = 0;
            while i < segments.len()
                invariant
                    i <= segments.len(),
                    out.len() == i,
                    *t == (Ty::Path { segments: *segments }),
                    forall|j: int| 0 <= j < i ==> #[trigger] seg_same(segments@[j], out@[j]),
                decreases segments.len() - i,
            {
                proof {
                    assert(decreases_to!(*t => t->segments));
                    assert(decreases_to!(t->segments => t->segments[i as int]));
                }
                let seg = copy_segment(&segments[i]);
                out.push(seg);
                i = i + 1;
            }
            proof {
                lemma_segs_same(segments@, out@, segments.len() as int);
            }
            Ty::Path { segments: out }
        },
        Ty::Reference { mutable, elem } => {
            Ty::Reference { mutable: *mutable, elem: Box::new(copy_ty(elem)) }
        },
        Ty::Ptr { mutable, elem } => {
            Ty::Ptr { mutable: *mutable, elem: Box::new(copy_ty(elem)) }
        },
        Ty::Other { text } => Ty::Other { text: text.clone() },
    }
}

fn copy_segment(s: &PathSegment) -> (r: PathSegment)
    ensures
        seg_same(*s, r),
    decreases s,
{
    let mut args: Vec<GenericArg> = Vec::new();
    let mut i: usize = 0;
    while i < s.args.len()
        invariant
            i <= s.args.len(),
            args.len() == i,
            forall|j: int| 0 <= j < i ==> #[trigger] arg_same(s.args@[j], args@[j]),
        decreases s.args.len() - i,
    {
        let a = match &s.args[i] {
            GenericArg::Type(t) => GenericArg::Type(copy_ty(t)),
            GenericArg::Other(x) => GenericArg::Other(x.clone()),
        };
        args.push(a);
        i = i + 1;
    }
    proof {
        lemma_args_same(s.args@, args@, s.args.len() as int);
    }
    PathSegment { ident: s.ident.clone(), args }
}

} // verus!

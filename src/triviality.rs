use vstd::prelude::*;
use crate::ast::{StructDecl, Ty};
use crate::types::{str_eq, TypeName};

verus! {

/// An aggregate as the classifier sees it. `fields` is `None` for a
/// data-less enum; for a struct it holds, per field, the name of the
/// field's type when that type is a plain (path) type.
pub struct Decl {
    pub name: String,
    pub fields: Option<Vec<Option<String>>>,
}

/// What the classifier knows of an aggregate.
pub struct DeclV {
    pub name: Seq<char>,
    pub fields: Option<Seq<Option<Seq<char>>>>,
}

pub open spec fn opt_name(o: Option<String>) -> Option<Seq<char>> {
    match o {
        Some(s) => Some(s@),
        None => None,
    }
}

impl Decl {
    pub open spec fn view(&self) -> DeclV {
        DeclV {
            name: self.name@,
            fields: match self.fields {
                Some(fs) => Some(fs@.map_values(|o: Option<String>| opt_name(o))),
                None => None,
            },
        }
    }
}

pub open spec fn decls_view(decls: Seq<Decl>) -> Seq<DeclV> {
    decls.map_values(|d: Decl| d@)
}

/// The foreign scalar types, which are always trivial.
pub open spec fn is_scalar(n: Seq<char>) -> bool {
    n == "bool"@ || n == "i8"@ || n == "u8"@ || n == "i16"@ || n == "u16"@ || n == "i32"@
        || n == "u32"@ || n == "i64"@ || n == "u64"@ || n == "isize"@ || n == "usize"@
        || n == "f32"@ || n == "f64"@ || n == "c_char"@ || n == "c_schar"@ || n == "c_uchar"@
        || n == "c_short"@ || n == "c_ushort"@ || n == "c_int"@ || n == "c_uint"@
        || n == "c_long"@ || n == "c_ulong"@ || n == "c_longlong"@ || n == "c_ulonglong"@
}

/// Index of the first declaration named `n`, or -1.
pub open spec fn find_decl(decls: Seq<DeclV>, n: Seq<char>) -> int
    decreases decls.len(),
{
    if decls.len() == 0 {
        -1
    } else {
        let k = find_decl(decls.drop_last(), n);
        if k >= 0 {
            k
        } else if decls.last().name == n {
            decls.len() - 1
        } else {
            -1
        }
    }
}

/// Type `n` is trivial by a derivation of nesting depth at most `d`.
pub open spec fn name_triv(decls: Seq<DeclV>, n: Seq<char>, d: nat) -> bool
    decreases d, 1int, 0int,
{
    is_scalar(n) || (0 <= find_decl(decls, n) < decls.len() && decl_triv(
        decls,
        find_decl(decls, n),
        d,
    ))
}

/// Declaration `i` is trivial by a derivation of depth at most `d`.
pub open spec fn decl_triv(decls: Seq<DeclV>, i: int, d: nat) -> bool
    decreases d, 0int, 0int,
{
    if 0 <= i < decls.len() {
        match decls[i].fields {
            None => true,
            Some(fs) => d > 0 && fields_triv(decls, fs, fs.len() as int, (d - 1) as nat),
        }
    } else {
        false
    }
}

/// The first `k` fields are trivial at depth `d`.
pub open spec fn fields_triv(decls: Seq<DeclV>, fs: Seq<Option<Seq<char>>>, k: int, d: nat) -> bool
    decreases d, 2int, k,
{
    if k <= 0 || k > fs.len() {
        true
    } else {
        (match fs[k - 1] {
            None => false,
            Some(n) => name_triv(decls, n, d),
        }) && fields_triv(decls, fs, k - 1, d)
    }
}

/// Declaration `i` is trivial: every field's type is trivial, transitively.
pub open spec fn decl_trivial(decls: Seq<DeclV>, i: int) -> bool {
    exists|d: nat| decl_triv(decls, i, d)
}

/// Type `n` is trivial: a scalar, or an aggregate declared trivial.
pub open spec fn type_trivial(decls: Seq<DeclV>, n: Seq<char>) -> bool {
    is_scalar(n) || (0 <= find_decl(decls, n) < decls.len() && decl_trivial(
        decls,
        find_decl(decls, n),
    ))
}

pub fn is_scalar_name(n: &String) -> (r: bool)
    ensures
        r == is_scalar(n@),
{
    let s = n.as_str();
    str_eq(s, "bool") || str_eq(s, "i8") || str_eq(s, "u8") || str_eq(s, "i16") || str_eq(s, "u16")
        || str_eq(s, "i32") || str_eq(s, "u32") || str_eq(s, "i64") || str_eq(s, "u64")
        || str_eq(s, "isize") || str_eq(s, "usize") || str_eq(s, "f32") || str_eq(s, "f64")
        || str_eq(s, "c_char") || str_eq(s, "c_schar") || str_eq(s, "c_uchar")
        || str_eq(s, "c_short") || str_eq(s, "c_ushort") || str_eq(s, "c_int")
        || str_eq(s, "c_uint") || str_eq(s, "c_long") || str_eq(s, "c_ulong")
        || str_eq(s, "c_longlong") || str_eq(s, "c_ulonglong")
}

proof fn lemma_find_decl(decls: Seq<DeclV>, n: Seq<char>, i: int)
    requires
        0 <= i <= decls.len(),
        forall|j: int| 0 <= j < i ==> decls[j].name != n,
        i < decls.len() ==> decls[i].name == n,
    ensures
        find_decl(decls, n) == (if i < decls.len() { i } else { -1 }),
    decreases decls.len(),
{
    if decls.len() > 0 {
        if i == decls.len() {
            lemma_find_decl(decls.drop_last(), n, i - 1);
        } else {
            lemma_find_decl(decls.drop_last(), n, i);
        }
    }
}

/// Looks up the first declaration named `n`.
fn find_decl_exec(decls: &Vec<Decl>, n: &String) -> (r: Option<usize>)
    ensures
        match r {
            Some(i) => i < decls.len() && find_decl(decls_view(decls@), n@) == i,
            None => find_decl(decls_view(decls@), n@) == -1,
        },
{
    let mut i: usize = 0;
    while i < decls.len()
        invariant
            i <= decls.len(),
            forall|j: int| 0 <= j < i ==> decls@[j].name@ != n@,
        decreases decls.len() - i,
    {
        if decls[i].name == *n {
            proof {
                lemma_find_decl(decls_view(decls@), n@, i as int);
            }
            return Some(i);
        }
        i = i + 1;
    }
    proof {
        lemma_find_decl(decls_view(decls@), n@, i as int);
    }
    None
}

/// The name of a field's type, when the classifier can judge it.
pub open spec fn field_type_name(t: Ty) -> Option<Seq<char>> {
    match t {
        Ty::Path { segments } => if segments.len() > 0 {
            Some(segments@.last().ident@)
        } else {
            None
        },
        _ => None,
    }
}

pub open spec fn field_name_matches(f: Option<String>, t: Ty) -> bool {
    opt_name(f) == field_type_name(t)
}

/// What the classifier records of a struct.
pub open spec fn struct_decl_view(s: StructDecl) -> DeclV {
    DeclV {
        name: s.name@,
        fields: Some(Seq::new(s.fields.len() as nat, |j: int| field_type_name(s.fields@[j].ty))),
    }
}

/// Answers whether a type may be passed and returned by value.
pub struct ByValueChecker {
    decls: Vec<Decl>,
    pod: Vec<bool>,
    resolved: bool,
}

impl ByValueChecker {
    pub closed spec fn decls(&self) -> Seq<DeclV> {
        decls_view(self.decls@)
    }

    pub closed spec fn is_resolved(&self) -> bool {
        self.resolved
    }

    pub closed spec fn wf(&self) -> bool {
        &&& self.pod.len() == self.decls.len()
        &&& self.resolved ==> forall|i: int|
            0 <= i < self.decls.len() ==> self.pod@[i] == #[trigger] decl_trivial(decls_view(self.decls@), i)
    }

    pub fn new() -> (r: ByValueChecker)
        ensures
            r.wf(),
            r.decls() == Seq::<DeclV>::empty(),
            !r.is_resolved(),
    {
        let r = ByValueChecker { decls: Vec::new(), pod: Vec::new(), resolved: false };
        proof {
            assert(r.decls() =~= Seq::<DeclV>::empty());
        }
        r
    }

    /// Records a struct, whose triviality follows from its fields.
    pub fn ingest_struct(&mut self, s: &StructDecl)
        requires
            old(self).wf(),
        ensures
            final(self).wf(),
            !final(self).is_resolved(),
            final(self).decls() == old(self).decls().push(struct_decl_view(*s)),
    {
        let mut fs: Vec<Option<String>> = Vec::new();
        let mut j: usize = 0;
        while j < s.fields.len()
            invariant
                j <= s.fields.len(),
                fs.len() == j,
                forall|k: int| 0 <= k < j ==> #[trigger] field_name_matches(fs@[k], s.fields@[k].ty),
            decreases s.fields.len() - j,
        {
            let f = match &s.fields[j].ty {
                Ty::Path { segments } => if segments.len() > 0 {
                    Some(segments[segments.len() - 1].ident.clone())
                } else {
                    None
                },
                _ => None,
            };
            fs.push(f);
            j = j + 1;
        }
        let ghost fsv = fs@.map_values(|o: Option<String>| opt_name(o));
        proof {
            assert forall|k: int| 0 <= k < fsv.len() implies fsv[k] == (struct_decl_view(*s).fields->0)[k] by {
                assert(field_name_matches(fs@[k], s.fields@[k].ty));
            }
            assert(fsv =~= struct_decl_view(*s).fields->0);
        }
        self.decls.push(Decl { name: s.name.clone(), fields: Some(fs) });
        self.pod.push(false);
        self.resolved = false;
        proof {
            assert(self.decls@.last()@ == struct_decl_view(*s));
            assert(self.decls() =~= old(self).decls().push(struct_decl_view(*s)));
        }
    }

    /// Records a type that is trivial by construction, such as a data-less
    /// enum.
    pub fn ingest_pod_type(&mut self, t: TypeName)
        requires
            old(self).wf(),
        ensures
            final(self).wf(),
            !final(self).is_resolved(),
            final(self).decls() == old(self).decls().push(DeclV { name: t@, fields: None }),
    {
        self.decls.push(Decl { name: t.name, fields: None });
        self.pod.push(false);
        self.resolved = false;
        proof {
            assert(self.decls() =~= old(self).decls().push(DeclV { name: t@, fields: None }));
        }
    }

    /// Classifies everything recorded so far.
    pub fn resolve(&mut self)
        requires
            old(self).wf(),
        ensures
            final(self).wf(),
            final(self).is_resolved(),
            final(self).decls() == old(self).decls(),
    {
        self.pod = classify(&self.decls);
        self.resolved = true;
    }

    /// Whether `t` may be passed and returned by value.
    pub fn is_pod(&self, t: &TypeName) -> (r: bool)
        requires
            self.wf(),
            self.is_resolved(),
        ensures
            r == type_trivial(self.decls(), t@),
    {
        if is_scalar_name(&t.name) {
            return true;
        }
        match find_decl_exec(&self.decls, &t.name) {
            Some(i) => self.pod[i],
            None => false,
        }
    }

    /// Classifies everything recorded, then checks that each requested type
    /// is trivial; the first that is not is named in the error.
    pub fn satisfy_requests(&mut self, requests: &Vec<TypeName>) -> (r: Result<(), String>)
        requires
            old(self).wf(),
        ensures
            final(self).wf(),
            final(self).is_resolved(),
            final(self).decls() == old(self).decls(),
            r is Ok <==> forall|i: int| 0 <= i < requests.len() ==> #[trigger] type_trivial(old(self).decls(), requests@[i]@),
            r matches Err(e) ==> exists|i: int| 0 <= i < requests.len() && e@ == requests@[i]@
                && !type_trivial(old(self).decls(), requests@[i]@)
                && forall|j: int| 0 <= j < i ==> #[trigger] type_trivial(old(self).decls(), requests@[j]@),
    {
        self.resolve();
        let mut i: usize = 0;
        while i < requests.len()
            invariant
                self.wf(),
                self.is_resolved(),
                self.decls() == old(self).decls(),
                i <= requests.len(),
                forall|j: int| 0 <= j < i ==> #[trigger] type_trivial(old(self).decls(), requests@[j]@),
            decreases requests.len() - i,
        {
            if !self.is_pod(&requests[i]) {
                return Err(requests[i].to_cpp_name());
            }
            i = i + 1;
        }
        Ok(())
    }
}

proof fn lemma_fields_mono(decls: Seq<DeclV>, fs: Seq<Option<Seq<char>>>, k: int, d: nat)
    requires
        forall|i: int| #[trigger] decl_triv(decls, i, d) ==> decl_triv(decls, i, d + 1),
    ensures
        fields_triv(decls, fs, k, d) ==> fields_triv(decls, fs, k, d + 1),
    decreases k,
{
    if 0 < k <= fs.len() {
        reveal_with_fuel(name_triv, 2);
        reveal_with_fuel(decl_triv, 2);
        reveal_with_fuel(fields_triv, 2);
        lemma_fields_mono(decls, fs, k - 1, d);
        if let Some(n) = fs[k - 1] {
            if name_triv(decls, n, d) && !is_scalar(n) {
                assert(decl_triv(decls, find_decl(decls, n), d));
                assert(decl_triv(decls, find_decl(decls, n), d + 1));
                assert(name_triv(decls, n, d + 1));
            }
        }
    }
}

proof fn lemma_mono(decls: Seq<DeclV>, d: nat)
    ensures
        forall|i: int| #[trigger] decl_triv(decls, i, d) ==> decl_triv(decls, i, d + 1),
    decreases d,
{
    if d > 0 {
        lemma_mono(decls, (d - 1) as nat);
    }
    assert forall|i: int| #[trigger] decl_triv(decls, i, d) implies decl_triv(decls, i, d + 1) by {
        if let Some(fs) = decls[i].fields {
            if d > 0 {
                lemma_fields_mono(decls, fs, fs.len() as int, (d - 1) as nat);
            }
        }
    }
}

proof fn lemma_mono_le(decls: Seq<DeclV>, d: nat, m: nat)
    requires
        d <= m,
    ensures
        forall|i: int| #[trigger] decl_triv(decls, i, d) ==> decl_triv(decls, i, m),
    decreases m - d,
{
    if d < m {
        lemma_mono_le(decls, d, (m - 1) as nat);
        lemma_mono(decls, (m - 1) as nat);
    }
}

proof fn lemma_fields_congr(decls: Seq<DeclV>, fs: Seq<Option<Seq<char>>>, k: int, a: nat, b: nat)
    requires
        forall|j: int| #[trigger] decl_triv(decls, j, a) == decl_triv(decls, j, b),
    ensures
        fields_triv(decls, fs, k, a) == fields_triv(decls, fs, k, b),
    decreases k,
{
    if 0 < k <= fs.len() {
        reveal_with_fuel(name_triv, 2);
        reveal_with_fuel(decl_triv, 2);
        reveal_with_fuel(fields_triv, 2);
        lemma_fields_congr(decls, fs, k - 1, a, b);
        if let Some(n) = fs[k - 1] {
            if 0 <= find_decl(decls, n) < decls.len() {
                assert(decl_triv(decls, find_decl(decls, n), a) == decl_triv(decls, find_decl(decls, n), b));
            }
            assert(name_triv(decls, n, a) == name_triv(decls, n, b));
        }
    }
}

proof fn lemma_congr(decls: Seq<DeclV>, a: nat, b: nat)
    requires
        forall|j: int| #[trigger] decl_triv(decls, j, a) == decl_triv(decls, j, b),
    ensures
        forall|i: int| #[trigger] decl_triv(decls, i, a + 1) == decl_triv(decls, i, b + 1),
{
    assert forall|i: int| #[trigger] decl_triv(decls, i, a + 1) == decl_triv(decls, i, b + 1) by {
        if 0 <= i < decls.len() {
            if let Some(fs) = decls[i].fields {
                lemma_fields_congr(decls, fs, fs.len() as int, a, b);
            }
        }
    }
}

/// Once a depth adds nothing new, no greater depth does.
proof fn lemma_stable(decls: Seq<DeclV>, k: nat, m: nat)
    requires
        forall|j: int| #[trigger] decl_triv(decls, j, k + 1) == decl_triv(decls, j, k),
        k <= m,
    ensures
        forall|j: int| #[trigger] decl_triv(decls, j, m) == decl_triv(decls, j, k),
    decreases m - k,
{
    if k < m {
        lemma_stable(decls, k, (m - 1) as nat);
        lemma_congr(decls, (m - 1) as nat, k);
        assert forall|j: int| #[trigger] decl_triv(decls, j, m) == decl_triv(decls, j, k) by {
            assert(decl_triv(decls, j, (m - 1) as nat + 1) == decl_triv(decls, j, k + 1));
        }
    }
}

/// A field of type name `f` is trivial.
pub open spec fn field_trivial(decls: Seq<DeclV>, f: Option<Seq<char>>) -> bool {
    f matches Some(n) && type_trivial(decls, n)
}

proof fn lemma_fields_mono_le(decls: Seq<DeclV>, fs: Seq<Option<Seq<char>>>, k: int, a: nat, b: nat)
    requires
        a <= b,
        fields_triv(decls, fs, k, a),
    ensures
        fields_triv(decls, fs, k, b),
    decreases b - a,
{
    if a < b {
        lemma_mono(decls, a);
        lemma_fields_mono(decls, fs, k, a);
        lemma_fields_mono_le(decls, fs, k, a + 1, b);
    }
}

proof fn lemma_name_triv_trivial(decls: Seq<DeclV>, n: Seq<char>, d: nat)
    ensures
        name_triv(decls, n, d) ==> type_trivial(decls, n),
        type_trivial(decls, n) ==> exists|e: nat| name_triv(decls, n, e),
{
    if name_triv(decls, n, d) && !is_scalar(n) {
        assert(decl_triv(decls, find_decl(decls, n), d));
    }
    if type_trivial(decls, n) {
        if is_scalar(n) {
            assert(name_triv(decls, n, 0));
        } else {
            let e = choose|e: nat| decl_triv(decls, find_decl(decls, n), e);
            assert(name_triv(decls, n, e));
        }
    }
}

proof fn lemma_fields_triv_all(decls: Seq<DeclV>, fs: Seq<Option<Seq<char>>>, k: int, d: nat)
    requires
        0 <= k <= fs.len(),
    ensures
        fields_triv(decls, fs, k, d) <==> forall|j: int| 0 <= j < k ==> (#[trigger] fs[j] matches Some(n) && name_triv(decls, n, d)),
    decreases k,
{
    reveal_with_fuel(fields_triv, 2);
    if k > 0 {
        lemma_fields_triv_all(decls, fs, k - 1, d);
        if let Some(n) = fs[k - 1] {
            assert(fields_triv(decls, fs, k, d) == (name_triv(decls, n, d) && fields_triv(decls, fs, k - 1, d)));
        }
    }
}

proof fn lemma_fields_common_depth(decls: Seq<DeclV>, fs: Seq<Option<Seq<char>>>, k: int)
    requires
        0 <= k <= fs.len(),
        forall|j: int| 0 <= j < k ==> #[trigger] field_trivial(decls, fs[j]),
    ensures
        exists|d: nat| #[trigger] fields_triv(decls, fs, k, d),
    decreases k,
{
    if k == 0 {
        lemma_fields_triv_all(decls, fs, 0, 0);
        assert(fields_triv(decls, fs, 0, 0));
    } else {
        lemma_fields_common_depth(decls, fs, k - 1);
        let d1 = choose|d: nat| #[trigger] fields_triv(decls, fs, k - 1, d);
        assert(field_trivial(decls, fs[k - 1]));
        let n = fs[k - 1]->0;
        lemma_name_triv_trivial(decls, n, 0);
        let d2 = choose|e: nat| name_triv(decls, n, e);
        let d = if d1 < d2 { d2 } else { d1 };
        lemma_fields_mono_le(decls, fs, k - 1, d1, d);
        lemma_mono_le(decls, d2, d);
        if !is_scalar(n) {
            assert(decl_triv(decls, find_decl(decls, n), d2));
            assert(decl_triv(decls, find_decl(decls, n), d));
        }
        assert(name_triv(decls, n, d));
        reveal_with_fuel(fields_triv, 2);
        assert(fields_triv(decls, fs, k, d));
    }
}

/// A struct is trivial exactly when the type of every one of its fields is
/// trivial: a scalar, or an aggregate that is itself trivial.
pub proof fn lemma_struct_trivial_iff_fields(decls: Seq<DeclV>, i: int)
    requires
        0 <= i < decls.len(),
        decls[i].fields is Some,
    ensures
        decl_trivial(decls, i) <==> forall|j: int|
            0 <= j < decls[i].fields->0.len() ==> #[trigger] field_trivial(decls, decls[i].fields->0[j]),
{
    let fs = decls[i].fields->0;
    if decl_trivial(decls, i) {
        let d = choose|d: nat| decl_triv(decls, i, d);
        lemma_fields_triv_all(decls, fs, fs.len() as int, (d - 1) as nat);
        assert forall|j: int| 0 <= j < fs.len() implies #[trigger] field_trivial(decls, fs[j]) by {
            assert(fs[j] matches Some(n) && name_triv(decls, n, (d - 1) as nat));
            lemma_name_triv_trivial(decls, fs[j]->0, (d - 1) as nat);
        }
    }
    if forall|j: int| 0 <= j < fs.len() ==> #[trigger] field_trivial(decls, fs[j]) {
        lemma_fields_common_depth(decls, fs, fs.len() as int);
        let d = choose|d: nat| #[trigger] fields_triv(decls, fs, fs.len() as int, d);
        assert(decl_triv(decls, i, d + 1));
    }
}

pub open spec fn count_false(s: Seq<bool>) -> nat
    decreases s.len(),
{
    if s.len() == 0 {
        0
    } else {
        count_false(s.drop_last()) + if s.last() {
            0nat
        } else {
            1nat
        }
    }
}

proof fn lemma_count_false(a: Seq<bool>, b: Seq<bool>, i: int)
    requires
        a.len() == b.len(),
        forall|j: int| 0 <= j < a.len() && #[trigger] a[j] ==> b[j],
    ensures
        count_false(b) <= count_false(a),
        0 <= i < a.len() && !a[i] && b[i] ==> count_false(b) < count_false(a),
    decreases a.len(),
{
    if a.len() > 0 {
        let a2 = a.drop_last();
        let b2 = b.drop_last();
        assert forall|j: int| 0 <= j < a2.len() && #[trigger] a2[j] implies b2[j] by {
            assert(a[j]);
        }
        lemma_count_false(a2, b2, i);
    }
}

/// Whether the fields `fs` are all trivial when the declarations trivial
/// at depth `k` are those marked in `cur`.
fn fields_ok(decls: &Vec<Decl>, cur: &Vec<bool>, fs: &Vec<Option<String>>, Ghost(k): Ghost<nat>) -> (r:
    bool)
    requires
        cur.len() == decls.len(),
        forall|i: int| 0 <= i < decls.len() ==> cur@[i] == #[trigger] decl_triv(decls_view(decls@), i, k),
    ensures
        r == fields_triv(decls_view(decls@), fs@.map_values(|o: Option<String>| opt_name(o)), fs.len() as int, k),
{
    let mut j: usize = 0;
    let mut ok = true;
    while j < fs.len()
        invariant
            j <= fs.len(),
            cur.len() == decls.len(),
            forall|i: int| 0 <= i < decls.len() ==> cur@[i] == #[trigger] decl_triv(decls_view(decls@), i, k),
            ok == fields_triv(decls_view(decls@), fs@.map_values(|o: Option<String>| opt_name(o)), j as int, k),
        decreases fs.len() - j,
    {
        let this_ok = match &fs[j] {
            None => false,
            Some(n) => {
                if is_scalar_name(n) {
                    true
                } else {
                    match find_decl_exec(decls, n) {
                        Some(x) => {
                            proof {
                                assert(cur@[x as int] == decl_triv(decls_view(decls@), x as int, k));
                            }
                            cur[x]
                        },
                        None => false,
                    }
                }
            },
        };
        proof {
            reveal_with_fuel(name_triv, 2);
            reveal_with_fuel(decl_triv, 2);
            reveal_with_fuel(fields_triv, 2);
        }
        proof {
            if let Some(n) = fs@[j as int] {
                assert(this_ok == name_triv(decls_view(decls@), n@, k));
            }
        }
        ok = this_ok && ok;
        j = j + 1;
    }
    ok
}

/// The declarations trivial at depth `k + 1`, from those at depth `k`.
fn next_level(decls: &Vec<Decl>, cur: &Vec<bool>, Ghost(k): Ghost<nat>) -> (r: Vec<bool>)
    requires
        cur.len() == decls.len(),
        forall|i: int| 0 <= i < decls.len() ==> cur@[i] == #[trigger] decl_triv(decls_view(decls@), i, k),
    ensures
        r.len() == decls.len(),
        forall|i: int| 0 <= i < decls.len() ==> r@[i] == #[trigger] decl_triv(decls_view(decls@), i, k + 1),
{
    let mut r: Vec<bool> = Vec::new();
    let mut i: usize = 0;
    while i < decls.len()
        invariant
            i <= decls.len(),
            r.len() == i,
            cur.len() == decls.len(),
            forall|j: int| 0 <= j < decls.len() ==> cur@[j] == #[trigger] decl_triv(decls_view(decls@), j, k),
            forall|j: int| 0 <= j < i ==> r@[j] == #[trigger] decl_triv(decls_view(decls@), j, k + 1),
        decreases decls.len() - i,
    {
        let t = match &decls[i].fields {
            None => true,
            Some(fs) => fields_ok(decls, cur, fs, Ghost(k)),
        };
        r.push(t);
        i = i + 1;
    }
    r
}

/// Classifies every declaration: `r[i]` tells whether declaration `i` is
/// trivial.
pub fn classify(decls: &Vec<Decl>) -> (r: Vec<bool>)
    ensures
        r.len() == decls.len(),
        forall|i: int| 0 <= i < decls.len() ==> r@[i] == #[trigger] decl_trivial(decls_view(decls@), i),
{
    let mut cur: Vec<bool> = Vec::new();
    let mut i: usize = 0;
    while i < decls.len()
        invariant
            i <= decls.len(),
            cur.len() == i,
            forall|j: int| 0 <= j < i ==> cur@[j] == #[trigger] decl_triv(decls_view(decls@), j, 0),
        decreases decls.len() - i,
    {
        cur.push(decls[i].fields.is_none());
        i = i + 1;
    }
    let ghost mut k: nat = 0;
    loop
        invariant
            cur.len() == decls.len(),
            forall|j: int| 0 <= j < decls.len() ==> cur@[j] == #[trigger] decl_triv(decls_view(decls@), j, k),
        decreases count_false(cur@),
    {
        let next = next_level(decls, &cur, Ghost(k));
        proof {
            lemma_mono(decls_view(decls@), k);
            assert forall|j: int| 0 <= j < decls.len() && #[trigger] cur@[j] implies next@[j] by {
                assert(decl_triv(decls_view(decls@), j, k));
            }
        }
        let mut changed = false;
        let mut i: usize = 0;
        let ghost mut at: int = 0;
        while i < decls.len()
            invariant
                i <= decls.len(),
                cur.len() == decls.len(),
                next.len() == decls.len(),
                forall|j: int| 0 <= j < decls.len() && #[trigger] cur@[j] ==> next@[j],
                !changed ==> forall|j: int| 0 <= j < i ==> cur@[j] == next@[j],
                changed ==> 0 <= at < decls.len() && !cur@[at] && next@[at],
            decreases decls.len() - i,
        {
            if cur[i] != next[i] {
                changed = true;
                proof {
                    at = i as int;
                }
            }
            i = i + 1;
        }
        if !changed {
            proof {
                assert forall|j: int| #[trigger] decl_triv(decls_view(decls@), j, k + 1) == decl_triv(decls_view(decls@), j, k) by {
                    if 0 <= j < decls.len() {
                        assert(cur@[j] == next@[j]);
                    }
                }
                assert forall|j: int| 0 <= j < decls.len() implies cur@[j] == #[trigger] decl_trivial(decls_view(decls@), j) by {
                    assert(cur@[j] == decl_triv(decls_view(decls@), j, k));
                    if decl_trivial(decls_view(decls@), j) {
                        let d = choose|d: nat| decl_triv(decls_view(decls@), j, d);
                        if d <= k {
                            lemma_mono_le(decls_view(decls@), d, k);
                        } else {
                            lemma_stable(decls_view(decls@), k, d);
                        }
                    }
                }
            }
            return cur;
        }
        proof {
            lemma_count_false(cur@, next@, at);
            k = k + 1;
        }
        cur = next;
    }
}

} // verus!

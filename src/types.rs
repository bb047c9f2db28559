use vstd::prelude::*;

verus! {

/// True when `p` is a prefix of `s`.
pub open spec fn is_prefix_of(p: Seq<char>, s: Seq<char>) -> bool {
    p.len() <= s.len() && s.subrange(0, p.len() as int) == p
}

/// The prefix that a class-qualified function name starts with: `Type_`.
pub open spec fn class_prefix(t: Seq<char>) -> Seq<char> {
    t + seq!['_']
}

/// The name of the synthetic default constructor of `t`: `Type_Type`.
pub open spec fn constructor_name_of(t: Seq<char>) -> Seq<char> {
    class_prefix(t) + t
}

/// The name of the bridge-side factory of `t`: `Type_make_unique`.
pub open spec fn make_unique_name_of(t: Seq<char>) -> Seq<char> {
    t + "_make_unique"@
}

/// Character-wise equality of a string and a literal.
pub fn str_eq(s: &str, lit: &str) -> (r: bool)
    ensures
        r == (s@ == lit@),
{
    let n = s.unicode_len();
    let m = lit.unicode_len();
    if n != m {
        return false;
    }
    let mut i: usize = 0;
    while i < n
        invariant
            n == s@.len(),
            m == lit@.len(),
            n == m,
            i <= n,
            forall|j: int| 0 <= j < i ==> s@[j] == lit@[j],
        decreases n - i,
    {
        if s.get_char(i) != lit.get_char(i) {
            return false;
        }
        i = i + 1;
    }
    proof {
        assert(s@ =~= lit@);
    }
    true
}

/// A canonical foreign type name. Equality is by name.
pub struct TypeName {
    pub name: String,
}

impl TypeName {
    pub open spec fn view(&self) -> Seq<char> {
        self.name@
    }

    pub fn from_ident(ident: &String) -> (r: TypeName)
        ensures
            r@ == ident@,
    {
        TypeName { name: ident.clone() }
    }

    pub fn copy(&self) -> (r: TypeName)
        ensures
            r@ == self@,
    {
        TypeName { name: self.name.clone() }
    }

    /// The identifier under which the bridge refers to this type.
    pub fn to_ident(&self) -> (r: String)
        ensures
            r@ == self@,
    {
        self.name.clone()
    }

    /// The spelling of this type in the foreign language, used as its
    /// stable cross-language identity.
    pub fn to_cpp_name(&self) -> (r: String)
        ensures
            r@ == self@,
    {
        self.name.clone()
    }

    pub fn eq_name(&self, other: &TypeName) -> (r: bool)
        ensures
            r == (self@ == other@),
    {
        self.name == other.name
    }

    /// If `s` is `Type_rest` for this type, returns `rest`.
    pub fn prefixes(&self, s: &String) -> (r: Option<String>)
        ensures
            r is Some <==> is_prefix_of(class_prefix(self@), s@),
            r matches Some(x) ==> x@ == s@.subrange(self@.len() as int + 1, s@.len() as int),
    {
        let n = self.name.as_str().unicode_len();
        let m = s.as_str().unicode_len();
        if m < n || m - n < 1 {
            return None;
        }
        let mut i: usize = 0;
        while i < n
            invariant
                n == self@.len(),
                m == s@.len(),
                n < m,
                i <= n,
                forall|j: int| 0 <= j < i ==> s@[j] == self@[j],
            decreases n - i,
        {
            if s.as_str().get_char(i) != self.name.as_str().get_char(i) {
                proof {
                    assert(s@.subrange(0, n as int + 1)[i as int] != class_prefix(self@)[i as int]);
                }
                return None;
            }
            i = i + 1;
        }
        if s.as_str().get_char(n) != '_' {
            proof {
                assert(s@.subrange(0, n as int + 1)[n as int] != class_prefix(self@)[n as int]);
            }
            return None;
        }
        proof {
            assert(s@.subrange(0, n as int + 1) =~= class_prefix(self@));
        }
        let rest = s.as_str().substring_char(n + 1, m);
        Some(String::from_str(rest))
    }

    /// `Type_Type`.
    pub fn constructor_name(&self) -> (r: String)
        ensures
            r@ == constructor_name_of(self@),
    {
        let mut r = self.name.clone();
        r.append("_");
        r.append(self.name.as_str());
        proof {
            reveal_strlit("_");
            assert(r@ =~= constructor_name_of(self@));
        }
        r
    }

    /// `Type_make_unique`.
    pub fn make_unique_name(&self) -> (r: String)
        ensures
            r@ == make_unique_name_of(self@),
    {
        let mut r = self.name.clone();
        r.append("_make_unique");
        r
    }
}

} // verus!

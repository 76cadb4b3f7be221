//! Java package paths as the front-end hands them over.
use vstd::prelude::*;
use crate::naming::push_char;

verus! {

/// Whether syn reads `s` as one identifier that is not a keyword.
pub uninterp spec fn rust_ident(s: Seq<char>) -> bool;

/// Relies on `syn::parse_str::<syn::Ident>`: whether the text is a single
/// identifier other than a keyword or `_`; empty text holds no identifier.
#[verifier::external_body]
fn parses_as_ident(s: &str) -> (r: bool)
    ensures
        r == rust_ident(s@),
        s@.len() == 0 ==> !r,
{
    syn::parse_str::<syn::Ident>(s).is_ok()
}

/// The pieces of `s` between dots, in order (`"a.b"` gives `a` and `b`;
/// text without a dot is one piece).
pub open spec fn split_dots(s: Seq<char>) -> Seq<Seq<char>>
    decreases s.len(),
{
    if s.len() == 0 {
        seq![Seq::empty()]
    } else {
        let rest = split_dots(s.drop_last());
        if s.last() == '.' {
            rest.push(Seq::empty())
        } else {
            rest.update(rest.len() - 1, rest.last().push(s.last()))
        }
    }
}

proof fn lemma_split_dots_nonempty(s: Seq<char>)
    ensures
        split_dots(s).len() >= 1,
    decreases s.len(),
{
    if s.len() > 0 {
        lemma_split_dots_nonempty(s.drop_last());
    }
}

pub open spec fn has_dash(s: Seq<char>) -> bool {
    exists|i: int| 0 <= i < s.len() && s[i] == '-'
}

/// A Java path: no dash, and dot-separated identifiers.
pub open spec fn valid_java_path(s: Seq<char>) -> bool {
    &&& !has_dash(s)
    &&& forall|i: int| 0 <= i < split_dots(s).len() ==> rust_ident(#[trigger] split_dots(s)[i])
}

#[derive(Debug, Clone, Copy, PartialEq, Eq, Structural)]
pub enum JavaPathError {
    /// Packages and classes cannot contain dashes.
    ContainsDash,
    /// The text is not a dot-separated list of identifiers.
    NotAPath,
}

/// A validated Java path such as `com.example`.
#[derive(Debug, PartialEq, Eq)]
pub struct JavaPath(pub String);

/// The pieces of `s` between dots.
pub fn split_java_path(s: &str) -> (r: Vec<String>)
    ensures
        r@.len() == split_dots(s@).len(),
        forall|i: int| 0 <= i < r@.len() ==> (#[trigger] r@[i])@ == split_dots(s@)[i],
{
    let n = s.unicode_len();
    let mut done: Vec<String> = Vec::new();
    let mut cur = String::new();
    let mut i: usize = 0;
    while i < n
        invariant
            n == s@.len(),
            i <= n,
            done@.len() + 1 == split_dots(s@.subrange(0, i as int)).len(),
            forall|j: int| 0 <= j < done@.len() ==> (#[trigger] done@[j])@ == split_dots(s@.subrange(0, i as int))[j],
            cur@ == split_dots(s@.subrange(0, i as int)).last(),
        decreases n - i,
    {
        let c = s.get_char(i);
        let ghost pre = s@.subrange(0, i as int);
        proof {
            assert(s@.subrange(0, i + 1).drop_last() =~= pre);
            lemma_split_dots_nonempty(pre);
        }
        if c == '.' {
            done.push(cur);
            cur = String::new();
            assert(cur@ =~= Seq::<char>::empty());
        } else {
            push_char(&mut cur, c);
        }
        i = i + 1;
    }
    assert(s@.subrange(0, n as int) =~= s@);
    proof { lemma_split_dots_nonempty(s@); }
    done.push(cur);
    done
}

impl JavaPath {
    /// Checks a Java path: a dash is refused first, then every piece between
    /// dots must be an identifier.
    pub fn from_value(value: &str) -> (r: Result<JavaPath, JavaPathError>)
        ensures
            has_dash(value@) <==> r == Err::<JavaPath, JavaPathError>(JavaPathError::ContainsDash),
            r is Ok <==> valid_java_path(value@),
            r is Ok ==> r->Ok_0.0@ == value@,
    {
        let n = value.unicode_len();
        let mut i: usize = 0;
        while i < n
            invariant
                n == value@.len(),
                i <= n,
                forall|j: int| 0 <= j < i ==> value@[j] != '-',
            decreases n - i,
        {
            if value.get_char(i) == '-' {
                return Err(JavaPathError::ContainsDash);
            }
            i = i + 1;
        }
        let pieces = split_java_path(value);
        let mut k: usize = 0;
        while k < pieces.len()
            invariant
                pieces@.len() == split_dots(value@).len(),
                forall|j: int| 0 <= j < pieces@.len() ==> (#[trigger] pieces@[j])@ == split_dots(value@)[j],
                k <= pieces@.len(),
                forall|j: int| 0 <= j < value@.len() ==> value@[j] != '-',
                forall|j: int| 0 <= j < k ==> rust_ident(#[trigger] split_dots(value@)[j]),
            decreases pieces@.len() - k,
        {
            if !parses_as_ident(pieces[k].as_str()) {
                return Err(JavaPathError::NotAPath);
            }
            k = k + 1;
        }
        Ok(JavaPath(String::from_str(value)))
    }
}

} // verus!

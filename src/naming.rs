//! Symbol names of native entry points and collision-free generated identifiers.
use vstd::prelude::*;

verus! {

/// The character that writes the decimal digit `d`.
pub open spec fn digit_char(d: nat) -> char {
    if d == 0 { '0' }
    else if d == 1 { '1' }
    else if d == 2 { '2' }
    else if d == 3 { '3' }
    else if d == 4 { '4' }
    else if d == 5 { '5' }
    else if d == 6 { '6' }
    else if d == 7 { '7' }
    else if d == 8 { '8' }
    else { '9' }
}

/// The decimal notation of `n`, without leading zeros.
pub open spec fn decimal(n: nat) -> Seq<char>
    decreases n,
{
    if n < 10 {
        seq![digit_char(n)]
    } else {
        decimal(n / 10).push(digit_char(n % 10))
    }
}

/// The identifier issued for `base` at position `index` of a namespace.
pub open spec fn fresh_name(base: Seq<char>, index: nat) -> Seq<char> {
    base.push('_') + decimal(index)
}

/// `s` with every `.` replaced by `_`.
pub open spec fn dots_to_underscores(s: Seq<char>) -> Seq<char> {
    Seq::new(s.len(), |i: int| if s[i] == '.' { '_' } else { s[i] })
}

/// The exported symbol of method `method` of type `ty` in Java package `package`.
pub open spec fn jni_symbol(package: Seq<char>, ty: Seq<char>, method: Seq<char>) -> Seq<char> {
    seq!['J', 'a', 'v', 'a', '_'] + dots_to_underscores(package) + seq!['_'] + ty + seq!['_'] + method
}

/// Relies on `String::push`: the character is appended at the end.
#[verifier::external_body]
pub(crate) fn push_char(s: &mut String, c: char)
    ensures
        final(s)@ == old(s)@.push(c),
{
    s.push(c);
}

proof fn lemma_digit_char_injective(a: nat, b: nat)
    requires
        a < 10,
        b < 10,
        digit_char(a) == digit_char(b),
    ensures
        a == b,
{
}

proof fn lemma_decimal_no_underscore(n: nat)
    ensures
        forall|i: int| 0 <= i < decimal(n).len() ==> decimal(n)[i] != '_',
        decimal(n).len() >= 1,
    decreases n,
{
    if n >= 10 {
        lemma_decimal_no_underscore(n / 10);
    }
}

proof fn lemma_decimal_injective(a: nat, b: nat)
    requires
        decimal(a) == decimal(b),
    ensures
        a == b,
    decreases a,
{
    if a < 10 && b < 10 {
        assert(decimal(a)[0] == digit_char(a));
        assert(decimal(b)[0] == digit_char(b));
        lemma_digit_char_injective(a, b);
    } else if a < 10 {
        lemma_decimal_no_underscore(b / 10);
        assert(decimal(b).len() >= 2);
    } else if b < 10 {
        lemma_decimal_no_underscore(a / 10);
        assert(decimal(a).len() >= 2);
    } else {
        let da = decimal(a);
        let db = decimal(b);
        assert(da.last() == digit_char(a % 10));
        assert(db.last() == digit_char(b % 10));
        lemma_digit_char_injective(a % 10, b % 10);
        assert(decimal(a / 10) == da.drop_last());
        assert(decimal(b / 10) == db.drop_last());
        lemma_decimal_injective(a / 10, b / 10);
    }
}

/// Identifiers issued at different positions differ, whatever their bases:
/// the decimal suffix after the last `_` tells the position.
pub proof fn lemma_fresh_names_distinct(b1: Seq<char>, b2: Seq<char>, i: nat, j: nat)
    requires
        i != j,
    ensures
        fresh_name(b1, i) != fresh_name(b2, j),
{
    if fresh_name(b1, i) == fresh_name(b2, j) {
        let l1 = b1.push('_');
        let l2 = b2.push('_');
        let d1 = decimal(i);
        let d2 = decimal(j);
        let s = l1 + d1;
        assert(s == l2 + d2);
        lemma_decimal_no_underscore(i);
        lemma_decimal_no_underscore(j);
        if d1.len() < d2.len() {
            let k = b1.len() as int;
            assert(s[k] == l1[k]);
            assert(l1[k] == '_');
            assert((l2 + d2)[k] == d2[k - l2.len()]);
        } else if d2.len() < d1.len() {
            let k = b2.len() as int;
            assert((l2 + d2)[k] == l2[k]);
            assert(l2[k] == '_');
            assert(s[k] == d1[k - l1.len()]);
        } else {
            assert(d1 =~= s.subrange(s.len() - d1.len(), s.len() as int));
            assert(d2 =~= (l2 + d2).subrange(s.len() - d2.len(), s.len() as int));
            lemma_decimal_injective(i, j);
        }
    }
}

/// The character of decimal digit `d`.
fn digit(d: u64) -> (c: char)
    requires
        d < 10,
    ensures
        c == digit_char(d as nat),
{
    if d == 0 { '0' }
    else if d == 1 { '1' }
    else if d == 2 { '2' }
    else if d == 3 { '3' }
    else if d == 4 { '4' }
    else if d == 5 { '5' }
    else if d == 6 { '6' }
    else if d == 7 { '7' }
    else if d == 8 { '8' }
    else { '9' }
}

/// Appends the decimal notation of `n` to `s`.
pub fn push_decimal(s: &mut String, n: u64)
    ensures
        final(s)@ == old(s)@ + decimal(n as nat),
    decreases n,
{
    if n >= 10 {
        push_decimal(s, n / 10);
    }
    push_char(s, digit(n % 10));
    assert(decimal(n as nat) =~= if n < 10 { seq![digit_char(n as nat)] } else {
        decimal((n / 10) as nat).push(digit_char((n % 10) as nat))
    });
}

/// Appends `t` to `s`, replacing every `.` by `_`.
fn push_underscored(s: &mut String, t: &str)
    ensures
        final(s)@ == old(s)@ + dots_to_underscores(t@),
{
    let n = t.unicode_len();
    let mut i: usize = 0;
    while i < n
        invariant
            n == t@.len(),
            i <= n,
            s@ == old(s)@ + dots_to_underscores(t@).subrange(0, i as int),
        decreases n - i,
    {
        let c = t.get_char(i);
        if c == '.' {
            push_char(s, '_');
        } else {
            push_char(s, c);
        }
        assert(dots_to_underscores(t@).subrange(0, i + 1) =~= dots_to_underscores(t@).subrange(
            0,
            i as int,
        ).push(dots_to_underscores(t@)[i as int]));
        i = i + 1;
    }
    assert(dots_to_underscores(t@).subrange(0, n as int) =~= dots_to_underscores(t@));
}

/// The name under which the JVM looks up the native method `method` of type
/// `ty` in package `package`: `Java_<package with _ for .>_<ty>_<method>`.
pub fn jni_method_name(package: &str, ty: &str, method: &str) -> (r: String)
    ensures
        r@ == jni_symbol(package@, ty@, method@),
{
    let mut s = String::new();
    push_char(&mut s, 'J');
    push_char(&mut s, 'a');
    push_char(&mut s, 'v');
    push_char(&mut s, 'a');
    push_char(&mut s, '_');
    push_underscored(&mut s, package);
    push_char(&mut s, '_');
    s.append(ty);
    push_char(&mut s, '_');
    s.append(method);
    assert(s@ =~= jni_symbol(package@, ty@, method@));
    s
}

/// A per-pass source of identifiers that never collide with one another.
/// Position `k` issues `<base>_<k>`.
pub struct Namespace {
    pub next: u64,
}

impl Namespace {
    pub fn new() -> (r: Namespace)
        ensures
            r.next == 0,
    {
        Namespace { next: 0 }
    }

    /// Issues `<base>_<n>` for the next unused position `n`; `None` once every
    /// position has been used.
    pub fn fresh(&mut self, base: &str) -> (r: Option<String>)
        ensures
            old(self).next == u64::MAX ==> r is None && final(self).next == old(self).next,
            old(self).next < u64::MAX ==> r is Some && r->0@ == fresh_name(base@, old(self).next as nat)
                && final(self).next == old(self).next + 1,
    {
        if self.next == u64::MAX {
            return None;
        }
        let mut s = String::from_str(base);
        push_char(&mut s, '_');
        push_decimal(&mut s, self.next);
        self.next = self.next + 1;
        Some(s)
    }
}

} // verus!

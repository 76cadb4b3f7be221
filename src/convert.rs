//! Values as they cross the native interface: booleans as `0`/`1`, chars and
//! strings as UTF-16 code units, lists element by element, and optional
//! strings as a reference that may be null.
use vstd::prelude::*;
use vstd::arithmetic::div_mod::lemma_fundamental_div_mod_converse;

verus! {

broadcast use vstd::utf8::char_is_scalar, vstd::utf8::char_u32_cast;

/// The JNI boolean of `b`.
pub open spec fn jboolean_of(b: bool) -> u8 {
    if b { 1 } else { 0 }
}

/// The host boolean of JNI boolean `v`: true exactly for `1`.
pub open spec fn bool_of(v: u8) -> bool {
    v == 1
}

pub fn bool_into(b: bool) -> (r: u8)
    ensures
        r == jboolean_of(b),
{
    if b { 1 } else { 0 }
}

pub fn bool_from(v: u8) -> (r: bool)
    ensures
        r == bool_of(v),
{
    v == 1
}

/// Booleans survive the trip to the JNI representation and back.
pub proof fn lemma_bool_round_trip(b: bool)
    ensures
        bool_of(jboolean_of(b)) == b,
        jboolean_of(true) == 1,
        jboolean_of(false) == 0,
{
}

/// The JNI boolean array of `v`, element by element.
pub fn bools_into(v: &Vec<bool>) -> (r: Vec<u8>)
    ensures
        r@.len() == v@.len(),
        forall|i: int| 0 <= i < v@.len() ==> #[trigger] r@[i] == jboolean_of(v@[i]),
{
    let mut out: Vec<u8> = Vec::new();
    let mut i: usize = 0;
    while i < v.len()
        invariant
            i <= v@.len(),
            out@.len() == i,
            forall|j: int| 0 <= j < i ==> #[trigger] out@[j] == jboolean_of(v@[j]),
        decreases v@.len() - i,
    {
        out.push(bool_into(v[i]));
        i = i + 1;
    }
    out
}

/// The booleans of JNI boolean array `v`, element by element.
pub fn bools_from(v: &Vec<u8>) -> (r: Vec<bool>)
    ensures
        r@.len() == v@.len(),
        forall|i: int| 0 <= i < v@.len() ==> #[trigger] r@[i] == bool_of(v@[i]),
{
    let mut out: Vec<bool> = Vec::new();
    let mut i: usize = 0;
    while i < v.len()
        invariant
            i <= v@.len(),
            out@.len() == i,
            forall|j: int| 0 <= j < i ==> #[trigger] out@[j] == bool_of(v@[j]),
        decreases v@.len() - i,
    {
        out.push(bool_from(v[i]));
        i = i + 1;
    }
    out
}

pub open spec fn is_surrogate(u: u32) -> bool {
    0xD800 <= u <= 0xDFFF
}

pub open spec fn is_high_surrogate(u: u32) -> bool {
    0xD800 <= u <= 0xDBFF
}

pub open spec fn is_low_surrogate(u: u32) -> bool {
    0xDC00 <= u <= 0xDFFF
}

/// A Unicode scalar value: at most `0x10FFFF` and no surrogate.
pub open spec fn is_scalar_value(v: u32) -> bool {
    v <= 0x10FFFF && !is_surrogate(v)
}

/// The UTF-16 code units of `c`: one for the basic multilingual plane, a
/// surrogate pair above it.
pub open spec fn utf16_char(c: char) -> Seq<u16> {
    let v = c as u32;
    if v < 0x10000 {
        seq![v as u16]
    } else {
        let w = v - 0x10000;
        seq![(0xD800 + w / 0x400) as u16, (0xDC00 + w % 0x400) as u16]
    }
}

/// The UTF-16 code units of `s`.
pub open spec fn utf16(s: Seq<char>) -> Seq<u16>
    decreases s.len(),
{
    if s.len() == 0 {
        Seq::empty()
    } else {
        utf16_char(s[0]) + utf16(s.drop_first())
    }
}

/// Whether `u` is well-formed UTF-16: every high surrogate is followed by a
/// low one, and no low surrogate stands alone.
pub open spec fn valid_utf16(u: Seq<u16>) -> bool
    decreases u.len(),
{
    if u.len() == 0 {
        true
    } else if !is_surrogate(u[0] as u32) {
        valid_utf16(u.drop_first())
    } else if is_high_surrogate(u[0] as u32) && u.len() >= 2 && is_low_surrogate(u[1] as u32) {
        valid_utf16(u.subrange(2, u.len() as int))
    } else {
        false
    }
}

/// Relies on `char::from_u32`: `Some` of the char with that scalar value
/// exactly when `v` is one, `None` for surrogates and values above `0x10FFFF`.
#[verifier::external_body]
fn char_of_u32(v: u32) -> (r: Option<char>)
    ensures
        r is Some <==> is_scalar_value(v),
        r is Some ==> r->0 as u32 == v,
{
    char::from_u32(v)
}

proof fn lemma_char_scalar(c: char)
    ensures
        is_scalar_value(c as u32),
{
    assert(vstd::utf8::is_scalar(c as u32));
}

/// The JNI char of `c`; `None` when `c` lies outside the basic multilingual
/// plane and needs two code units.
pub fn char_into(c: char) -> (r: Option<u16>)
    ensures
        (c as u32) < 0x10000 ==> r == Some((c as u32) as u16),
        (c as u32) >= 0x10000 ==> r is None,
{
    let v = c as u32;
    if v < 0x10000 {
        Some(v as u16)
    } else {
        None
    }
}

/// The char of JNI char `u`; `None` for a lone surrogate.
pub fn char_from(u: u16) -> (r: Option<char>)
    ensures
        is_surrogate(u as u32) ==> r is None,
        !is_surrogate(u as u32) ==> r is Some && r->0 as u32 == u as u32 && utf16_char(r->0) == seq![u],
{
    let r = char_of_u32(u as u32);
    proof {
        if let Some(c) = r {
            assert(utf16_char(c) =~= seq![u]);
        }
    }
    r
}

proof fn lemma_utf16_push(s: Seq<char>, c: char)
    ensures
        utf16(s.push(c)) == utf16(s) + utf16_char(c),
    decreases s.len(),
{
    if s.len() == 0 {
        assert(s.push(c).drop_first() =~= Seq::<char>::empty());
        assert(utf16(Seq::<char>::empty()) == Seq::<u16>::empty());
        assert(utf16_char(c) + Seq::<u16>::empty() =~= utf16_char(c));
        assert(utf16(s) + utf16_char(c) =~= utf16_char(c));
    } else {
        assert(s.push(c).drop_first() =~= s.drop_first().push(c));
        lemma_utf16_push(s.drop_first(), c);
        assert(utf16(s.push(c)) =~= utf16(s) + utf16_char(c));
    }
}

proof fn lemma_pair(hi: u16, lo: u16, v: u32)
    requires
        is_high_surrogate(hi as u32),
        is_low_surrogate(lo as u32),
        v == 0x10000 + (hi as u32 - 0xD800) * 0x400 + (lo as u32 - 0xDC00),
    ensures
        0x10000 <= v <= 0x10FFFF,
        (0xD800 + (v - 0x10000) / 0x400) as u16 == hi,
        (0xDC00 + (v - 0x10000) % 0x400) as u16 == lo,
{
    let w = v - 0x10000;
    lemma_fundamental_div_mod_converse(w as int, 0x400, hi as int - 0xD800, lo as int - 0xDC00);
}

proof fn lemma_char_units(c: char)
    ensures
        (c as u32) < 0x10000 ==> utf16_char(c).len() == 1 && !is_surrogate(utf16_char(c)[0] as u32),
        (c as u32) >= 0x10000 ==> utf16_char(c).len() == 2 && is_high_surrogate(utf16_char(c)[0] as u32)
            && is_low_surrogate(utf16_char(c)[1] as u32),
{
    lemma_char_scalar(c);
    let v = c as u32;
    if v >= 0x10000 {
        let w = v - 0x10000;
        assert(w / 0x400 < 0x400) by (nonlinear_arith)
            requires w <= 0xFFFFF;
        assert(w % 0x400 < 0x400) by (nonlinear_arith);
    }
}

/// Well-formed UTF-16 units decode to exactly one string: `utf16` is
/// injective, and what it yields is well-formed.
pub proof fn lemma_utf16_injective(a: Seq<char>, b: Seq<char>)
    requires
        utf16(a) == utf16(b),
    ensures
        a == b,
    decreases a.len(),
{
    if a.len() == 0 && b.len() == 0 {
    } else if a.len() == 0 || b.len() == 0 {
        if a.len() > 0 {
            lemma_char_units(a[0]);
            assert(utf16(a).len() > 0);
        } else {
            lemma_char_units(b[0]);
            assert(utf16(b).len() > 0);
        }
    } else {
        lemma_char_units(a[0]);
        lemma_char_units(b[0]);
        lemma_char_scalar(a[0]);
        lemma_char_scalar(b[0]);
        let ua = utf16_char(a[0]);
        let ub = utf16_char(b[0]);
        let u = utf16(a);
        assert(u == ua + utf16(a.drop_first()));
        assert(u == ub + utf16(b.drop_first()));
        assert(u[0] == ua[0]);
        assert(u[0] == ub[0]);
        let va = a[0] as u32;
        let vb = b[0] as u32;
        if va < 0x10000 {
            assert(vb < 0x10000);
            assert(va as u16 == vb as u16);
            assert(va == vb);
        } else {
            assert(vb >= 0x10000);
            assert(u[1] == ua[1]);
            assert(u[1] == ub[1]);
            let wa = va - 0x10000;
            let wb = vb - 0x10000;
            assert(wa / 0x400 < 0x400 && wb / 0x400 < 0x400) by (nonlinear_arith)
                requires wa <= 0xFFFFF, wb <= 0xFFFFF;
            assert(wa % 0x400 < 0x400 && wb % 0x400 < 0x400) by (nonlinear_arith);
            assert(wa / 0x400 == wb / 0x400);
            assert(wa % 0x400 == wb % 0x400);
            assert(wa == 0x400 * (wa / 0x400) + wa % 0x400) by (nonlinear_arith);
            assert(wb == 0x400 * (wb / 0x400) + wb % 0x400) by (nonlinear_arith);
            assert(va == vb);
        }
        vstd::utf8::char_u32_cast(a[0], va);
        vstd::utf8::char_u32_cast(b[0], vb);
        assert(a[0] == b[0]);
        assert(utf16(a.drop_first()) =~= u.subrange(ua.len() as int, u.len() as int));
        assert(utf16(b.drop_first()) =~= u.subrange(ub.len() as int, u.len() as int));
        lemma_utf16_injective(a.drop_first(), b.drop_first());
        assert(a =~= seq![a[0]] + a.drop_first());
        assert(b =~= seq![b[0]] + b.drop_first());
    }
}

/// The UTF-16 encoding of any string is well-formed.
pub proof fn lemma_utf16_valid(s: Seq<char>)
    ensures
        valid_utf16(utf16(s)),
    decreases s.len(),
{
    if s.len() > 0 {
        lemma_utf16_valid(s.drop_first());
        lemma_char_units(s[0]);
        let u = utf16(s);
        let h = utf16_char(s[0]);
        assert(u == h + utf16(s.drop_first()));
        if h.len() == 1 {
            assert(u.drop_first() =~= utf16(s.drop_first()));
        } else {
            assert(u.subrange(2, u.len() as int) =~= utf16(s.drop_first()));
        }
    }
}

/// The Java string of `s`, as UTF-16 code units; characters outside the
/// basic multilingual plane become surrogate pairs.
pub fn string_into(s: &String) -> (r: Vec<u16>)
    ensures
        r@ == utf16(s@),
{
    let t = s.as_str();
    let n = t.unicode_len();
    let mut out: Vec<u16> = Vec::new();
    let mut i: usize = 0;
    while i < n
        invariant
            n == s@.len(),
            t@ == s@,
            i <= n,
            out@ == utf16(s@.subrange(0, i as int)),
        decreases n - i,
    {
        let c = t.get_char(i);
        let v = c as u32;
        proof {
            lemma_utf16_push(s@.subrange(0, i as int), c);
            assert(s@.subrange(0, i + 1) =~= s@.subrange(0, i as int).push(c));
            lemma_char_scalar(c);
        }
        if v < 0x10000 {
            out.push(v as u16);
            assert(out@ =~= utf16(s@.subrange(0, i as int)) + utf16_char(c));
        } else {
            let w = v - 0x10000;
            assert(w / 0x400 < 0x400) by (nonlinear_arith)
                requires w <= 0xFFFFF;
            out.push((0xD800 + w / 0x400) as u16);
            out.push((0xDC00 + w % 0x400) as u16);
            assert(out@ =~= utf16(s@.subrange(0, i as int)) + utf16_char(c));
        }
        i = i + 1;
    }
    assert(s@.subrange(0, n as int) =~= s@);
    out
}

/// The string that UTF-16 units `u` encode; `None` when they are not well-formed.
pub fn string_from(u: &Vec<u16>) -> (r: Option<String>)
    ensures
        r is Some <==> valid_utf16(u@),
        r is Some ==> utf16(r->0@) == u@,
{
    let n = u.len();
    let mut out = String::new();
    let mut i: usize = 0;
    assert(u@.subrange(0, n as int) =~= u@);
    assert(u@.subrange(0, 0) =~= Seq::<u16>::empty());
    assert(utf16(out@) == Seq::<u16>::empty());
    while i < n
        invariant
            n == u@.len(),
            i <= n,
            utf16(out@) == u@.subrange(0, i as int),
            valid_utf16(u@) == valid_utf16(u@.subrange(i as int, n as int)),
        decreases n - i,
    {
        let ghost rest = u@.subrange(i as int, n as int);
        let hi = u[i];
        if hi < 0xD800 || hi > 0xDFFF {
            let c = match char_of_u32(hi as u32) {
                Some(c) => c,
                None => { return None; },
            };
            proof {
                lemma_utf16_push(out@, c);
                assert(utf16_char(c) =~= seq![hi]);
                assert(rest.drop_first() =~= u@.subrange(i + 1, n as int));
            }
            crate::naming::push_char(&mut out, c);
            assert(u@.subrange(0, i + 1) =~= u@.subrange(0, i as int) + seq![hi]);
            i = i + 1;
        } else if hi <= 0xDBFF && i + 1 < n && u[i + 1] >= 0xDC00 && u[i + 1] <= 0xDFFF {
            let lo = u[i + 1];
            let v: u32 = 0x10000 + (hi as u32 - 0xD800) * 0x400 + (lo as u32 - 0xDC00);
            proof { lemma_pair(hi, lo, v); }
            let c = match char_of_u32(v) {
                Some(c) => c,
                None => { return None; },
            };
            proof {
                lemma_utf16_push(out@, c);
                assert(utf16_char(c) =~= seq![hi, lo]);
                assert(rest.subrange(2, rest.len() as int) =~= u@.subrange(i + 2, n as int));
            }
            crate::naming::push_char(&mut out, c);
            assert(u@.subrange(0, i + 2) =~= u@.subrange(0, i as int) + seq![hi, lo]);
            i = i + 2;
        } else {
            return None;
        }
    }
    assert(u@.subrange(0, n as int) =~= u@);
    Some(out)
}

/// The Java list of strings `v`, element by element and in order.
pub fn strings_into(v: &Vec<String>) -> (r: Vec<Vec<u16>>)
    ensures
        r@.len() == v@.len(),
        forall|i: int| 0 <= i < v@.len() ==> (#[trigger] r@[i])@ == utf16(v@[i]@),
{
    let mut out: Vec<Vec<u16>> = Vec::new();
    let mut i: usize = 0;
    while i < v.len()
        invariant
            i <= v@.len(),
            out@.len() == i,
            forall|j: int| 0 <= j < i ==> (#[trigger] out@[j])@ == utf16(v@[j]@),
        decreases v@.len() - i,
    {
        out.push(string_into(&v[i]));
        i = i + 1;
    }
    out
}

/// The strings of Java list `v`, in order; `None` when an element is not
/// well-formed UTF-16.
pub fn strings_from(v: &Vec<Vec<u16>>) -> (r: Option<Vec<String>>)
    ensures
        r is Some <==> forall|i: int| 0 <= i < v@.len() ==> valid_utf16(#[trigger] v@[i]@),
        r is Some ==> r->0@.len() == v@.len() && forall|i: int|
            0 <= i < v@.len() ==> utf16((#[trigger] r->0@[i])@) == v@[i]@,
{
    let mut out: Vec<String> = Vec::new();
    let mut i: usize = 0;
    while i < v.len()
        invariant
            i <= v@.len(),
            out@.len() == i,
            forall|j: int| 0 <= j < i ==> utf16((#[trigger] out@[j])@) == v@[j]@,
            forall|j: int| 0 <= j < i ==> valid_utf16(#[trigger] v@[j]@),
        decreases v@.len() - i,
    {
        match string_from(&v[i]) {
            Some(s) => out.push(s),
            None => {
                return None;
            },
        }
        i = i + 1;
    }
    Some(out)
}

/// Converting a list of strings to its Java form and back gives the same
/// strings in the same order: every encoded element decodes, and only to
/// the string it came from.
pub proof fn lemma_string_list_round_trip(xs: Seq<Seq<char>>, ys: Seq<Seq<char>>)
    ensures
        forall|i: int| 0 <= i < xs.len() ==> valid_utf16(#[trigger] utf16(xs[i])),
        ys.len() == xs.len() && (forall|i: int| 0 <= i < xs.len() ==> #[trigger] utf16(ys[i]) == utf16(xs[i]))
            ==> ys == xs,
{
    assert forall|i: int| 0 <= i < xs.len() implies valid_utf16(#[trigger] utf16(xs[i])) by {
        lemma_utf16_valid(xs[i]);
    }
    if ys.len() == xs.len() && (forall|i: int| 0 <= i < xs.len() ==> #[trigger] utf16(ys[i]) == utf16(xs[i])) {
        assert forall|i: int| 0 <= i < xs.len() implies ys[i] == xs[i] by {
            assert(utf16(ys[i]) == utf16(xs[i]));
            lemma_utf16_injective(ys[i], xs[i]);
        }
        assert(ys =~= xs);
    }
}

/// The code units of an optional string: `None` is the null reference.
pub open spec fn optional_units(v: Option<Seq<char>>) -> Option<Seq<u16>> {
    match v {
        Some(s) => Some(utf16(s)),
        None => None,
    }
}

/// `r` is what reference `obj` decodes to: null gives `Some(None)`, a
/// reference to well-formed units `Some(Some(t))` with `t` encoding to
/// them, and malformed units `None`.
pub open spec fn optional_decoded(obj: Option<Seq<u16>>, r: Option<Option<Seq<char>>>) -> bool {
    match obj {
        None => r == Some(None::<Seq<char>>),
        Some(u) => match r {
            None => !valid_utf16(u),
            Some(None) => false,
            Some(Some(t)) => utf16(t) == u,
        },
    }
}

pub open spec fn string_opt_view(v: Option<String>) -> Option<Seq<char>> {
    match v {
        Some(s) => Some(s@),
        None => None,
    }
}

pub open spec fn units_opt_view(v: Option<Vec<u16>>) -> Option<Seq<u16>> {
    match v {
        Some(u) => Some(u@),
        None => None,
    }
}

pub open spec fn decoded_view(r: Option<Option<String>>) -> Option<Option<Seq<char>>> {
    match r {
        Some(x) => Some(string_opt_view(x)),
        None => None,
    }
}

/// The Java reference for an optional string: null for `None`, the string's
/// code units for `Some`.
pub fn optional_string_into(v: &Option<String>) -> (r: Option<Vec<u16>>)
    ensures
        units_opt_view(r) == optional_units(string_opt_view(*v)),
{
    match v {
        Some(s) => Some(string_into(s)),
        None => None,
    }
}

/// The optional string of a Java reference: the null reference gives
/// `None`, and only a non-null one is decoded and wrapped in `Some`. The
/// outer `None` means the referenced units are not well-formed UTF-16.
pub fn optional_string_from(obj: &Option<Vec<u16>>) -> (r: Option<Option<String>>)
    ensures
        optional_decoded(units_opt_view(*obj), decoded_view(r)),
{
    match obj {
        None => Some(None),
        Some(units) => match string_from(units) {
            Some(s) => Some(Some(s)),
            None => None,
        },
    }
}

/// Null and non-null references both survive the round trip: `None` goes
/// to null and back to `None`, and `Some(s)` comes back as `Some(s)`.
pub proof fn lemma_optional_round_trip(v: Option<Seq<char>>, r: Option<Option<Seq<char>>>)
    requires
        optional_decoded(optional_units(v), r),
    ensures
        r == Some(v),
{
    if let Some(s) = v {
        lemma_utf16_valid(s);
        if let Some(Some(t)) = r {
            lemma_utf16_injective(t, s);
        }
    }
}

} // verus!

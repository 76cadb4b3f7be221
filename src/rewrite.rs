//! Turning methods into JNI entry points (exported) or JVM-calling methods
//! with an explicit receiver (imported).
use vstd::prelude::*;
use crate::model::{
    CallType, Diagnostic, DiagnosticKind, FnArg, GenericParam, Method, NativeFn, Param,
    Projection, TypeExpr, TypePath,
};
use crate::diagnostics::{
    added_counts, lemma_counts_empty, lemma_counts_push, lemma_counts_trans, report,
};
use crate::naming::{fresh_name, jni_method_name, jni_symbol, push_char, Namespace};

verus! {

/// The name of the environment lifetime.
pub open spec fn env_name() -> Seq<char> {
    seq!['e', 'n', 'v']
}

/// The name of the receiver parameter before its suffix: `receiver_<type>_<method>`.
pub open spec fn receiver_base(ty: Seq<char>, method: Seq<char>) -> Seq<char> {
    seq!['r', 'e', 'c', 'e', 'i', 'v', 'e', 'r', '_'] + ty + seq!['_'] + method
}

pub open spec fn has_env(p: TypePath) -> bool {
    exists|i: int| 0 <= i < p.lifetimes@.len() && (#[trigger] p.lifetimes@[i])@ == env_name()
}

/// An instance method on `p` can only be exported when `p` either has no
/// lifetime arguments or has `'env` among them.
pub open spec fn lacks_env(p: TypePath) -> bool {
    p.lifetimes@.len() > 0 && !has_env(p)
}

pub open spec fn same_path(a: TypePath, b: TypePath) -> bool {
    a.name == b.name && a.lifetimes@ == b.lifetimes@
}

/// `t` is nominal, or a reference to a nominal type.
pub open spec fn is_nominal(t: TypeExpr) -> bool {
    match t {
        TypeExpr::Path(_) => true,
        TypeExpr::Reference { elem, .. } => *elem is Path,
        _ => false,
    }
}

pub open spec fn is_self_arg(a: FnArg) -> bool {
    match a {
        FnArg::Receiver { .. } => true,
        FnArg::Typed(p) => p.name@ == seq!['s', 'e', 'l', 'f'],
    }
}

pub open spec fn is_self_method(inputs: Seq<FnArg>) -> bool {
    exists|i: int| 0 <= i < inputs.len() && is_self_arg(#[trigger] inputs[i])
}

/// `t` is the type a receiver of kind (`reference`, `lifetime`, `mutable`)
/// on `p` becomes: `p` itself, or `&'lifetime mut? p`.
pub open spec fn is_receiver_type(
    t: TypeExpr,
    p: TypePath,
    reference: bool,
    lifetime: Option<String>,
    mutable: bool,
) -> bool {
    if reference {
        match t {
            TypeExpr::Reference { lifetime: l, mutable: m, elem } => l == lifetime && m == mutable
                && match *elem {
                TypeExpr::Path(q) => same_path(q, p),
                _ => false,
            },
            _ => false,
        }
    } else {
        match t {
            TypeExpr::Path(q) => same_path(q, p),
            _ => false,
        }
    }
}

/// `out` is `inp` with its receiver, if it is one, made an explicit
/// parameter of type `p` named `name`.
pub open spec fn is_erased(inp: FnArg, out: FnArg, p: TypePath, name: Seq<char>) -> bool {
    match inp {
        FnArg::Receiver { reference, lifetime, mutable } => match out {
            FnArg::Typed(q) => q.name@ == name && is_receiver_type(q.ty, p, reference, lifetime, mutable),
            _ => false,
        },
        FnArg::Typed(a) => if a.name@ == seq!['s', 'e', 'l', 'f'] {
            match out {
                FnArg::Typed(q) => q.name@ == name && q.ty == a.ty,
                _ => false,
            }
        } else {
            out == inp
        },
    }
}

/// Whether `s` is `env`.
fn is_env_name(s: &String) -> (r: bool)
    ensures
        r == (s@ == env_name()),
{
    let t = s.as_str();
    if t.unicode_len() != 3 {
        return false;
    }
    let r = t.get_char(0) == 'e' && t.get_char(1) == 'n' && t.get_char(2) == 'v';
    proof {
        if r {
            assert(s@ =~= env_name());
        }
    }
    r
}

/// Whether `p` has `'env` among its lifetime arguments.
pub fn has_env_lifetime(p: &TypePath) -> (r: bool)
    ensures
        r == has_env(*p),
{
    let mut i: usize = 0;
    while i < p.lifetimes.len()
        invariant
            i <= p.lifetimes@.len(),
            forall|j: int| 0 <= j < i ==> (#[trigger] p.lifetimes@[j])@ != env_name(),
        decreases p.lifetimes@.len() - i,
    {
        if is_env_name(&p.lifetimes[i]) {
            return true;
        }
        i = i + 1;
    }
    false
}

/// A copy of `p`.
pub fn copy_path(p: &TypePath) -> (r: TypePath)
    ensures
        same_path(r, *p),
{
    let mut lifetimes: Vec<String> = Vec::new();
    let mut i: usize = 0;
    while i < p.lifetimes.len()
        invariant
            i <= p.lifetimes@.len(),
            lifetimes@ == p.lifetimes@.subrange(0, i as int),
        decreases p.lifetimes@.len() - i,
    {
        lifetimes.push(p.lifetimes[i].clone());
        assert(lifetimes@ =~= p.lifetimes@.subrange(0, i + 1));
        i = i + 1;
    }
    assert(lifetimes@ =~= p.lifetimes@);
    TypePath { name: p.name.clone(), lifetimes }
}

/// Whether `t` is nominal, or a reference to a nominal type.
pub fn check_nominal(t: &TypeExpr) -> (r: bool)
    ensures
        r == is_nominal(*t),
{
    match t {
        TypeExpr::Path(_) => true,
        TypeExpr::Reference { elem, .. } => match &**elem {
            TypeExpr::Path(_) => true,
            _ => false,
        },
        _ => false,
    }
}

/// Whether `a` is the receiver.
pub fn check_self_arg(a: &FnArg) -> (r: bool)
    ensures
        r == is_self_arg(*a),
{
    match a {
        FnArg::Receiver { .. } => true,
        FnArg::Typed(p) => check_self_name(&p.name),
    }
}

/// Whether `s` is `self`.
fn check_self_name(s: &String) -> (r: bool)
    ensures
        r == (s@ == seq!['s', 'e', 'l', 'f']),
{
    let t = s.as_str();
    let r = t.unicode_len() == 4 && t.get_char(0) == 's' && t.get_char(1) == 'e' && t.get_char(2) == 'l'
        && t.get_char(3) == 'f';
    proof {
        if r {
            assert(s@ =~= seq!['s', 'e', 'l', 'f']);
        }
    }
    r
}

/// Whether one of `inputs` is the receiver.
pub fn check_self_method(inputs: &Vec<FnArg>) -> (r: bool)
    ensures
        r == is_self_method(inputs@),
{
    let mut i: usize = 0;
    while i < inputs.len()
        invariant
            i <= inputs@.len(),
            forall|j: int| 0 <= j < i ==> !is_self_arg(#[trigger] inputs@[j]),
        decreases inputs@.len() - i,
    {
        if check_self_arg(&inputs[i]) {
            return true;
        }
        i = i + 1;
    }
    false
}

/// `receiver_<ty>_<method>`.
pub fn receiver_name_base(ty: &str, method: &str) -> (r: String)
    ensures
        r@ == receiver_base(ty@, method@),
{
    let mut s = String::new();
    push_char(&mut s, 'r');
    push_char(&mut s, 'e');
    push_char(&mut s, 'c');
    push_char(&mut s, 'e');
    push_char(&mut s, 'i');
    push_char(&mut s, 'v');
    push_char(&mut s, 'e');
    push_char(&mut s, 'r');
    push_char(&mut s, '_');
    s.append(ty);
    push_char(&mut s, '_');
    s.append(method);
    assert(s@ =~= receiver_base(ty@, method@));
    s
}

/// Makes a receiver an explicit parameter of type `p` under the name `name`;
/// any other argument is returned as it is.
pub fn erase_receiver(arg: FnArg, p: &TypePath, name: String) -> (r: FnArg)
    ensures
        is_erased(arg, r, *p, name@),
{
    match arg {
        FnArg::Receiver { reference, lifetime, mutable } => {
            let path = TypeExpr::Path(copy_path(p));
            let ty = if reference {
                TypeExpr::Reference { lifetime, mutable, elem: Box::new(path) }
            } else {
                path
            };
            FnArg::Typed(Param { name, ty })
        },
        FnArg::Typed(a) => {
            if check_self_name(&a.name) {
                FnArg::Typed(Param { name, ty: a.ty })
            } else {
                FnArg::Typed(a)
            }
        },
    }
}

/// The lifetime arguments of a type other than `'env`, in order, as generic parameters.
pub open spec fn threaded(ls: Seq<String>) -> Seq<GenericParam>
    decreases ls.len(),
{
    if ls.len() == 0 {
        Seq::empty()
    } else {
        threaded(ls.drop_last()) + if ls.last()@ != env_name() {
            seq![GenericParam::Lifetime(ls.last())]
        } else {
            Seq::empty()
        }
    }
}

pub open spec fn is_env_param(g: GenericParam) -> bool {
    match g {
        GenericParam::Lifetime(s) => s@ == env_name(),
        _ => false,
    }
}

/// `g` without its `'env` declarations, in order.
pub open spec fn without_env(g: Seq<GenericParam>) -> Seq<GenericParam>
    decreases g.len(),
{
    if g.len() == 0 {
        Seq::empty()
    } else {
        without_env(g.drop_last()) + if is_env_param(g.last()) { Seq::empty() } else { seq![g.last()] }
    }
}

/// `r` is `g` (with any `'env` of its own taken out), followed, for an
/// instance method, by the lifetimes of `p` other than `'env`, and last by
/// `'env`.
pub open spec fn generics_rewritten(g: Seq<GenericParam>, p: TypePath, self_method: bool, r: Seq<GenericParam>) -> bool {
    &&& r.len() >= 1
    &&& r.drop_last() == without_env(g) + if self_method { threaded(p.lifetimes@) } else { Seq::empty() }
    &&& is_env_param(r.last())
}

proof fn lemma_without_env_no_env(g: Seq<GenericParam>)
    ensures
        forall|i: int| 0 <= i < without_env(g).len() ==> !is_env_param(#[trigger] without_env(g)[i]),
    decreases g.len(),
{
    if g.len() > 0 {
        lemma_without_env_no_env(g.drop_last());
        let a = without_env(g.drop_last());
        let b: Seq<GenericParam> = if is_env_param(g.last()) { Seq::empty() } else { seq![g.last()] };
        assert forall|i: int| 0 <= i < without_env(g).len() implies !is_env_param(#[trigger] without_env(g)[i]) by {
            assert(without_env(g) == a + b);
            if i < a.len() {
                assert((a + b)[i] == a[i]);
            } else {
                assert((a + b)[i] == b[i - a.len()]);
            }
        }
    }
}

proof fn lemma_threaded_no_env(ls: Seq<String>)
    ensures
        forall|i: int| 0 <= i < threaded(ls).len() ==> !is_env_param(#[trigger] threaded(ls)[i]),
    decreases ls.len(),
{
    if ls.len() > 0 {
        lemma_threaded_no_env(ls.drop_last());
        let a = threaded(ls.drop_last());
        let b: Seq<GenericParam> = if ls.last()@ != env_name() {
            seq![GenericParam::Lifetime(ls.last())]
        } else {
            Seq::empty()
        };
        assert forall|i: int| 0 <= i < threaded(ls).len() implies !is_env_param(#[trigger] threaded(ls)[i]) by {
            assert(threaded(ls) == a + b);
            if i < a.len() {
                assert((a + b)[i] == a[i]);
            } else {
                assert((a + b)[i] == b[i - a.len()]);
            }
        }
    }
}

/// The rewritten generic parameters of an exported method hold the
/// environment lifetime exactly once, in the last position, after the
/// lifetimes threaded through from the receiving type.
pub proof fn lemma_env_param_once(g: Seq<GenericParam>, p: TypePath, self_method: bool, r: Seq<GenericParam>)
    requires
        generics_rewritten(g, p, self_method, r),
    ensures
        is_env_param(r[r.len() - 1]),
        forall|i: int| 0 <= i < r.len() && is_env_param(#[trigger] r[i]) ==> i == r.len() - 1,
{
    lemma_threaded_no_env(p.lifetimes@);
    lemma_without_env_no_env(g);
    let g = without_env(g);
    let t: Seq<GenericParam> = if self_method { threaded(p.lifetimes@) } else { Seq::empty() };
    assert forall|i: int| 0 <= i < r.len() && is_env_param(#[trigger] r[i]) implies i == r.len() - 1 by {
        if i < r.len() - 1 {
            assert(r[i] == r.drop_last()[i]);
            assert(r.drop_last() == g + t);
            assert(r.drop_last().len() == r.len() - 1);
            assert((g + t).len() == g.len() + t.len());
            if i >= g.len() {
                assert((g + t)[i] == t[i - g.len()]);
            } else {
                assert((g + t)[i] == g[i]);
            }
        }
    }
}

/// Whether `g` is the `'env` lifetime.
fn check_env_param(g: &GenericParam) -> (r: bool)
    ensures
        r == is_env_param(*g),
{
    match g {
        GenericParam::Lifetime(s) => is_env_name(s),
        _ => false,
    }
}

/// Appends `'env` once, last, after the lifetimes of `p` other than `'env`
/// for an instance method; an `'env` the method declares itself moves there.
pub fn transform_generics(generics: Vec<GenericParam>, p: &TypePath, self_method: bool) -> (r: Vec<GenericParam>)
    ensures
        generics_rewritten(generics@, *p, self_method, r@),
{
    let ghost g0 = generics@;
    let mut rest = generics;
    let mut r: Vec<GenericParam> = Vec::new();
    let n = rest.len();
    let mut k: usize = 0;
    while k < n
        invariant
            n == g0.len(),
            k <= n,
            rest@ == g0.subrange(k as int, n as int),
            r@ == without_env(g0.subrange(0, k as int)),
        decreases n - k,
    {
        let x = rest.remove(0);
        assert(x == g0[k as int]);
        assert(g0.subrange(0, k + 1).drop_last() =~= g0.subrange(0, k as int));
        if !check_env_param(&x) {
            r.push(x);
        }
        assert(r@ =~= without_env(g0.subrange(0, k + 1)));
        assert(rest@ =~= g0.subrange(k + 1, n as int));
        k = k + 1;
    }
    assert(g0.subrange(0, n as int) =~= g0);
    let ghost base = r@;
    if self_method {
        let mut i: usize = 0;
        while i < p.lifetimes.len()
            invariant
                i <= p.lifetimes@.len(),
                r@ == base + threaded(p.lifetimes@.subrange(0, i as int)),
            decreases p.lifetimes@.len() - i,
        {
            let l = &p.lifetimes[i];
            assert(p.lifetimes@.subrange(0, i + 1).drop_last() =~= p.lifetimes@.subrange(0, i as int));
            if !is_env_name(l) {
                r.push(GenericParam::Lifetime(l.clone()));
            }
            assert(r@ =~= base + threaded(p.lifetimes@.subrange(0, i + 1)));
            i = i + 1;
        }
        assert(p.lifetimes@.subrange(0, p.lifetimes@.len() as int) =~= p.lifetimes@);
    } else {
        assert(r@ =~= base + Seq::empty());
    }
    let mut env = String::new();
    push_char(&mut env, 'e');
    push_char(&mut env, 'n');
    push_char(&mut env, 'v');
    assert(env@ =~= env_name());
    let ghost before = r@;
    r.push(GenericParam::Lifetime(env));
    assert(r@.drop_last() =~= before);
    r
}

/// A nominal `t` replaced by the associated type of its conversion for the
/// call type `ct`; any other type unchanged.
pub open spec fn converted(t: TypeExpr, ct: CallType, proj: Projection) -> TypeExpr {
    if is_nominal(t) {
        TypeExpr::Converted { ty: Box::new(t), call_type: ct, projection: proj }
    } else {
        t
    }
}

/// `t` with the call type of its conversion, if it is one, replaced by `ct`.
pub open spec fn with_call_type(t: TypeExpr, ct: CallType) -> TypeExpr {
    match t {
        TypeExpr::Converted { ty, projection, .. } => TypeExpr::Converted { ty, call_type: ct, projection },
        _ => t,
    }
}

/// The substitution for one call type is the substitution for the other
/// with only the call type changed.
pub proof fn lemma_call_type_only_changes_family(t: TypeExpr, c1: CallType, c2: CallType, proj: Projection)
    requires
        !(t is Converted),
    ensures
        converted(t, c2, proj) == with_call_type(converted(t, c1, proj), c2),
        is_nominal(t) ==> ((converted(t, c1, proj) == converted(t, c2, proj)) == (c1 == c2)),
{
}

/// Replaces a nominal type by the associated type of its conversion; the
/// flag tells whether `t` was nominal.
pub fn convert_type(t: TypeExpr, ct: CallType, proj: Projection) -> (r: (TypeExpr, bool))
    ensures
        r.0 == converted(t, ct, proj),
        r.1 == is_nominal(t),
{
    if check_nominal(&t) {
        (TypeExpr::Converted { ty: Box::new(t), call_type: ct, projection: proj }, true)
    } else {
        (t, false)
    }
}

/// The number of receivers among `inputs[..i]`.
pub open spec fn self_args_before(inputs: Seq<FnArg>, i: int) -> nat
    decreases i,
{
    if i <= 0 {
        0
    } else {
        self_args_before(inputs, i - 1) + if is_self_arg(inputs[i - 1]) { 1nat } else { 0nat }
    }
}

/// The name the receiver `inputs[i]` receives when the namespace is at `lo`
/// before the method; `None` when it is no receiver or the namespace is used up.
pub open spec fn receiver_name(inputs: Seq<FnArg>, i: int, base: Seq<char>, lo: nat) -> Option<Seq<char>> {
    if is_self_arg(inputs[i]) && lo + self_args_before(inputs, i) < u64::MAX {
        Some(fresh_name(base, lo + self_args_before(inputs, i)))
    } else {
        None
    }
}

/// How many of `n` receivers, named from `lo` on, find the namespace used up.
pub open spec fn overflow(lo: nat, n: nat) -> nat {
    if lo + n > u64::MAX { (lo + n - u64::MAX) as nat } else { 0nat }
}

/// Receivers named in two runs, from `lo` then from where the first run
/// left the namespace, find it used up as often as in one run.
pub proof fn lemma_overflow_split(lo: nat, a: nat, b: nat)
    requires
        lo <= u64::MAX,
    ensures
        overflow(lo, a) + overflow(advanced(lo, a), b) == overflow(lo, a + b),
        advanced(advanced(lo, a), b) == advanced(lo, a + b),
{
}

/// Where the namespace stands after `n` receivers, from `lo`.
pub open spec fn advanced(lo: nat, n: nat) -> nat {
    if lo + n < u64::MAX { lo + n } else { u64::MAX as nat }
}

/// The number of parameters whose type is neither nominal nor a reference to one.
pub open spec fn bad_param_types(inputs: Seq<FnArg>) -> nat
    decreases inputs.len(),
{
    if inputs.len() == 0 {
        0
    } else {
        bad_param_types(inputs.drop_last()) + bad_param_type(inputs.last())
    }
}

pub open spec fn bad_param_type(a: FnArg) -> nat {
    match a {
        FnArg::Typed(q) => if is_nominal(q.ty) { 0nat } else { 1nat },
        _ => 0nat,
    }
}

/// `out` is the exported form of parameter `inp`: the receiver made explicit
/// under `name` (when there is one), and the type replaced by the `Source` of
/// its conversion for `ct`.
pub open spec fn exported_arg(inp: FnArg, out: FnArg, p: TypePath, ct: CallType, name: Option<Seq<char>>) -> bool {
    match inp {
        FnArg::Receiver { reference, lifetime, mutable } => match name {
            Some(n) => match out {
                FnArg::Typed(q) => q.name@ == n && match q.ty {
                    TypeExpr::Converted { ty, call_type, projection } => call_type == ct && projection
                        == Projection::Source && is_receiver_type(*ty, p, reference, lifetime, mutable),
                    _ => false,
                },
                _ => false,
            },
            None => out == inp,
        },
        FnArg::Typed(a) => match out {
            FnArg::Typed(q) => q.ty == converted(a.ty, ct, Projection::Source) && match name {
                Some(n) => q.name@ == n,
                None => q.name == a.name,
            },
            _ => false,
        },
    }
}

/// `out` is `inp` with the receiver, when there is one, made explicit under `name`.
pub open spec fn imported_arg(inp: FnArg, out: FnArg, p: TypePath, name: Option<Seq<char>>) -> bool {
    match name {
        Some(n) => is_erased(inp, out, p, n),
        None => out == inp,
    }
}

pub open spec fn call_type_of(m: Method) -> CallType {
    match m.call_type {
        Some(c) => c,
        None => CallType::Safe,
    }
}

/// The result type of an exported method: the `Target` of its conversion.
pub open spec fn exported_output(out: Option<TypeExpr>, ct: CallType) -> Option<TypeExpr> {
    match out {
        Some(t) => Some(converted(t, ct, Projection::Target)),
        None => None,
    }
}

pub open spec fn bad_output_type(out: Option<TypeExpr>) -> nat {
    match out {
        Some(t) => if is_nominal(t) { 0nat } else { 1nat },
        None => 0nat,
    }
}

pub open spec fn lacks_env_for(m: Method, p: TypePath) -> bool {
    is_self_method(m.inputs@) && lacks_env(p)
}

/// The name a single argument receives from a namespace at `next`.
pub open spec fn arg_name(a: FnArg, base: Seq<char>, next: nat) -> Option<Seq<char>> {
    if is_self_arg(a) && next < u64::MAX {
        Some(fresh_name(base, next))
    } else {
        None
    }
}

/// Issues the receiver's name, or reports that the namespace is used up.
fn receiver_fresh(arg: &FnArg, base: &String, ns: &mut Namespace, diags: &mut Vec<Diagnostic>, ty: &String, mname: &String) -> (r: Option<String>)
    requires
        is_self_arg(*arg),
    ensures
        match arg_name(*arg, base@, old(ns).next as nat) {
            Some(n) => r is Some && r->0@ == n,
            None => r is None,
        },
        final(ns).next == advanced(old(ns).next as nat, 1),
        added_counts(old(diags)@, final(diags)@, 0, 0, 0, overflow(old(ns).next as nat, 1)),
{
    let r = ns.fresh(base.as_str());
    proof { lemma_counts_empty(diags@); }
    if r.is_none() {
        let ghost d0 = diags@;
        report(diags, DiagnosticKind::NamespaceExhausted, ty, mname);
        proof { lemma_counts_push(d0, d0, diags@.last(), 0, 0, 0, 0); }
    }
    r
}

/// The exported form of one parameter.
fn export_arg(
    arg: FnArg,
    p: &TypePath,
    base: &String,
    ct: CallType,
    ns: &mut Namespace,
    diags: &mut Vec<Diagnostic>,
    ty: &String,
    mname: &String,
) -> (r: FnArg)
    ensures
        exported_arg(arg, r, *p, ct, arg_name(arg, base@, old(ns).next as nat)),
        final(ns).next == if is_self_arg(arg) { advanced(old(ns).next as nat, 1) } else { old(ns).next as nat },
        added_counts(
            old(diags)@,
            final(diags)@,
            0,
            0,
            bad_param_type(arg),
            overflow(old(ns).next as nat, if is_self_arg(arg) { 1nat } else { 0nat }),
        ),
{
    let ghost d0 = diags@;
    let ghost e: nat = overflow(ns.next as nat, if is_self_arg(arg) { 1nat } else { 0nat });
    let arg = if check_self_arg(&arg) {
        match receiver_fresh(&arg, base, ns, diags, ty, mname) {
            Some(name) => erase_receiver(arg, p, name),
            None => arg,
        }
    } else {
        proof { lemma_counts_empty(d0); }
        arg
    };
    match arg {
        FnArg::Typed(q) => {
            let (t, ok) = convert_type(q.ty, ct, Projection::Source);
            if !ok {
                let ghost d1 = diags@;
                report(diags, DiagnosticKind::NonNominalType, ty, mname);
                proof { lemma_counts_push(d0, d1, diags@.last(), 0, 0, 0, e); }
            }
            FnArg::Typed(Param { name: q.name, ty: t })
        },
        _ => arg,
    }
}

/// The parameters of an exported method, each in its exported form.
pub open spec fn exported_inputs(inp: Seq<FnArg>, out: Seq<FnArg>, p: TypePath, ct: CallType, base: Seq<char>, lo: nat) -> bool {
    &&& out.len() == inp.len()
    &&& forall|i: int| 0 <= i < inp.len() ==> exported_arg(
        #[trigger] inp[i],
        out[i],
        p,
        ct,
        receiver_name(inp, i, base, lo),
    )
}

/// The parameters of an imported method, with receivers made explicit.
pub open spec fn imported_inputs(inp: Seq<FnArg>, out: Seq<FnArg>, p: TypePath, base: Seq<char>, lo: nat) -> bool {
    &&& out.len() == inp.len()
    &&& forall|i: int| 0 <= i < inp.len() ==> imported_arg(
        #[trigger] inp[i],
        out[i],
        p,
        receiver_name(inp, i, base, lo),
    )
}

proof fn lemma_advanced_step(lo: nat, n: nat, next: nat)
    requires
        next == advanced(lo, n),
    ensures
        advanced(next, 1) == advanced(lo, n + 1),
        next < u64::MAX ==> next == lo + n && lo + n < u64::MAX,
        next >= u64::MAX ==> lo + n >= u64::MAX,
{
}

/// `f` is the native entry point of exported method `m` of type `p` (named
/// `ty`, in Java package `package`), its receivers named from position `lo`:
/// the symbol is `Java_<package>_<ty>_<method>`, `'env` is appended to the
/// generics, every parameter and the result are replaced by their JNI types
/// for the method's call type, and attributes and body are kept.
pub open spec fn native_of(m: Method, f: NativeFn, p: TypePath, ty: Seq<char>, package: Seq<char>, lo: nat) -> bool {
    &&& f.symbol@ == jni_symbol(package, ty, m.name@)
    &&& f.attrs == m.attrs
    &&& f.body == m.body
    &&& generics_rewritten(m.generics@, p, is_self_method(m.inputs@), f.generics@)
    &&& exported_inputs(m.inputs@, f.inputs@, p, call_type_of(m), receiver_base(ty, m.name@), lo)
    &&& f.output == exported_output(m.output, call_type_of(m))
}

/// `r` is imported method `m` of type `p` (named `ty`) with its receiver made
/// an explicit parameter named from position `lo`, all else unchanged.
pub open spec fn imported_of(m: Method, r: Method, p: TypePath, ty: Seq<char>, lo: nat) -> bool {
    &&& imported_inputs(m.inputs@, r.inputs@, p, receiver_base(ty, m.name@), lo)
    &&& r.attrs == m.attrs
    &&& r.public == m.public
    &&& r.marker == m.marker
    &&& r.call_type == m.call_type
    &&& r.name == m.name
    &&& r.generics == m.generics
    &&& r.output == m.output
    &&& r.body == m.body
}

/// The native entry point for exported method `m` of type `p`, named
/// `ty` and living in Java package `package`.
pub fn rewrite_exported(
    m: Method,
    p: &TypePath,
    ty: &String,
    package: &String,
    ns: &mut Namespace,
    diags: &mut Vec<Diagnostic>,
) -> (r: NativeFn)
    ensures
        native_of(m, r, *p, ty@, package@, old(ns).next as nat),
        final(ns).next == advanced(old(ns).next as nat, self_args_before(m.inputs@, m.inputs@.len() as int)),
        added_counts(
            old(diags)@,
            final(diags)@,
            0,
            if lacks_env_for(m, *p) { 1nat } else { 0nat },
            bad_param_types(m.inputs@) + bad_output_type(m.output),
            overflow(old(ns).next as nat, self_args_before(m.inputs@, m.inputs@.len() as int)),
        ),
{
    let ghost d0 = diags@;
    let ghost lo = ns.next as nat;
    let ct = match m.call_type {
        Some(c) => c,
        None => CallType::Safe,
    };
    let self_method = check_self_method(&m.inputs);
    proof { lemma_counts_empty(d0); }
    if self_method && p.lifetimes.len() > 0 && !has_env_lifetime(p) {
        report(diags, DiagnosticKind::MissingEnvLifetime, ty, &m.name);
        proof { lemma_counts_push(d0, d0, diags@.last(), 0, 0, 0, 0); }
    }
    let ghost d1 = diags@;
    let ghost m_inputs = m.inputs@;
    let ghost env_err: nat = if lacks_env_for(m, *p) { 1nat } else { 0nat };
    let generics = transform_generics(m.generics, p, self_method);
    let base = receiver_name_base(ty.as_str(), m.name.as_str());
    let mut rest = m.inputs;
    let mut inputs: Vec<FnArg> = Vec::new();
    let n = rest.len();
    let mut i: usize = 0;
    proof {
        lemma_counts_empty(d1);
        lemma_counts_trans(d0, d1, d1, 0, env_err, 0, 0, 0, 0, 0, 0);
    }
    while i < n
        invariant
            n == m_inputs.len(),
            i <= n,
            rest@ == m_inputs.subrange(i as int, n as int),
            inputs@.len() == i,
            forall|j: int| 0 <= j < i ==> exported_arg(
                #[trigger] m_inputs[j],
                inputs@[j],
                *p,
                ct,
                receiver_name(m_inputs, j, base@, lo),
            ),
            ns.next == advanced(lo, self_args_before(m_inputs, i as int)),
            added_counts(
                d0,
                diags@,
                0,
                env_err,
                bad_param_types(m_inputs.subrange(0, i as int)),
                overflow(lo, self_args_before(m_inputs, i as int)),
            ),
            lo <= u64::MAX,
        decreases n - i,
    {
        let a = rest.remove(0);
        assert(a == m_inputs[i as int]);
        let ghost d2 = diags@;
        let ghost next = ns.next as nat;
        proof { lemma_advanced_step(lo, self_args_before(m_inputs, i as int), next); }
        let b = export_arg(a, p, &base, ct, ns, diags, ty, &m.name);
        assert(arg_name(a, base@, next) == receiver_name(m_inputs, i as int, base@, lo));
        inputs.push(b);
        proof {
            assert(m_inputs.subrange(0, i + 1).drop_last() =~= m_inputs.subrange(0, i as int));
            let k: nat = if is_self_arg(a) { 1nat } else { 0nat };
            lemma_overflow_split(lo, self_args_before(m_inputs, i as int), k);
            lemma_counts_trans(d0, d2, diags@, 0, env_err, bad_param_types(m_inputs.subrange(0, i as int)),
                overflow(lo, self_args_before(m_inputs, i as int)), 0, 0, bad_param_type(a), overflow(next, k));
            assert(rest@ =~= m_inputs.subrange(i + 1, n as int));
        }
        i = i + 1;
    }
    assert(m_inputs.subrange(0, n as int) =~= m_inputs);
    let output = match m.output {
        Some(t) => {
            let (t2, ok) = convert_type(t, ct, Projection::Target);
            if !ok {
                let ghost d3 = diags@;
                report(diags, DiagnosticKind::NonNominalType, ty, &m.name);
                proof {
                    lemma_counts_push(d0, d3, diags@.last(), 0, env_err, bad_param_types(m_inputs),
                        overflow(lo, self_args_before(m_inputs, n as int)));
                }
            }
            Some(t2)
        },
        None => None,
    };
    let symbol = jni_method_name(package.as_str(), ty.as_str(), m.name.as_str());
    NativeFn { attrs: m.attrs, symbol, generics, inputs, output, body: m.body }
}

/// Method `m` of type `p` (named `ty`) with its receiver made an explicit
/// parameter; nothing else changes.
pub fn rewrite_imported(m: Method, p: &TypePath, ty: &String, ns: &mut Namespace, diags: &mut Vec<Diagnostic>) -> (r: Method)
    ensures
        imported_of(m, r, *p, ty@, old(ns).next as nat),
        final(ns).next == advanced(old(ns).next as nat, self_args_before(m.inputs@, m.inputs@.len() as int)),
        added_counts(
            old(diags)@,
            final(diags)@,
            0,
            0,
            0,
            overflow(old(ns).next as nat, self_args_before(m.inputs@, m.inputs@.len() as int)),
        ),
{
    let ghost d0 = diags@;
    let ghost lo = ns.next as nat;
    let ghost m_inputs = m.inputs@;
    let base = receiver_name_base(ty.as_str(), m.name.as_str());
    let mut rest = m.inputs;
    let mut inputs: Vec<FnArg> = Vec::new();
    let n = rest.len();
    let mut i: usize = 0;
    proof { lemma_counts_empty(d0); }
    while i < n
        invariant
            n == m_inputs.len(),
            i <= n,
            rest@ == m_inputs.subrange(i as int, n as int),
            inputs@.len() == i,
            forall|j: int| 0 <= j < i ==> imported_arg(
                #[trigger] m_inputs[j],
                inputs@[j],
                *p,
                receiver_name(m_inputs, j, base@, lo),
            ),
            ns.next == advanced(lo, self_args_before(m_inputs, i as int)),
            added_counts(d0, diags@, 0, 0, 0, overflow(lo, self_args_before(m_inputs, i as int))),
            lo <= u64::MAX,
        decreases n - i,
    {
        let a = rest.remove(0);
        assert(a == m_inputs[i as int]);
        let ghost d2 = diags@;
        let ghost next = ns.next as nat;
        proof { lemma_advanced_step(lo, self_args_before(m_inputs, i as int), next); }
        let b = if check_self_arg(&a) {
            match receiver_fresh(&a, &base, ns, diags, ty, &m.name) {
                Some(name) => erase_receiver(a, p, name),
                None => a,
            }
        } else {
            proof { lemma_counts_empty(d2); }
            a
        };
        inputs.push(b);
        proof {
            let k: nat = if is_self_arg(a) { 1nat } else { 0nat };
            lemma_overflow_split(lo, self_args_before(m_inputs, i as int), k);
            lemma_counts_trans(d0, d2, diags@, 0, 0, 0, overflow(lo, self_args_before(m_inputs, i as int)), 0, 0, 0, overflow(next, k));
            assert(rest@ =~= m_inputs.subrange(i + 1, n as int));
        }
        i = i + 1;
    }
    assert(m_inputs.subrange(0, n as int) =~= m_inputs);
    Method {
        attrs: m.attrs,
        public: m.public,
        marker: m.marker,
        call_type: m.call_type,
        name: m.name,
        generics: m.generics,
        inputs,
        output: m.output,
        body: m.body,
    }
}

} // verus!

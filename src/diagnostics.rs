//! Counting what a pass reports: diagnostics are only ever appended, and
//! contracts say how many of each kind a step appended.
use vstd::prelude::*;
use crate::model::{Diagnostic, DiagnosticKind};

verus! {

/// The number of diagnostics of kind `k` in `d`.
pub open spec fn count_kind(d: Seq<Diagnostic>, k: DiagnosticKind) -> nat
    decreases d.len(),
{
    if d.len() == 0 {
        0
    } else {
        count_kind(d.drop_last(), k) + if d.last().kind == k { 1nat } else { 0nat }
    }
}

/// What was appended to `before` to give `after`.
pub open spec fn added(before: Seq<Diagnostic>, after: Seq<Diagnostic>) -> Seq<Diagnostic> {
    after.subrange(before.len() as int, after.len() as int)
}

/// `after` is `before` with diagnostics appended.
pub open spec fn extends(before: Seq<Diagnostic>, after: Seq<Diagnostic>) -> bool {
    before.len() <= after.len() && after.subrange(0, before.len() as int) == before
}

pub proof fn lemma_count_push(b: Seq<Diagnostic>, a: Seq<Diagnostic>, x: Diagnostic, k: DiagnosticKind)
    requires
        extends(b, a),
    ensures
        extends(b, a.push(x)),
        count_kind(added(b, a.push(x)), k) == count_kind(added(b, a), k) + if x.kind == k { 1nat } else { 0nat },
{
    assert(added(b, a.push(x)).drop_last() =~= added(b, a));
    assert(a.push(x).subrange(0, b.len() as int) =~= a.subrange(0, b.len() as int));
}

pub proof fn lemma_count_empty(b: Seq<Diagnostic>, k: DiagnosticKind)
    ensures
        extends(b, b),
        count_kind(added(b, b), k) == 0,
{
    assert(added(b, b) =~= Seq::<Diagnostic>::empty());
    assert(b.subrange(0, b.len() as int) =~= b);
}

pub proof fn lemma_count_trans(a: Seq<Diagnostic>, b: Seq<Diagnostic>, c: Seq<Diagnostic>, k: DiagnosticKind)
    requires
        extends(a, b),
        extends(b, c),
    ensures
        extends(a, c),
        count_kind(added(a, c), k) == count_kind(added(a, b), k) + count_kind(added(b, c), k),
    decreases c.len(),
{
    assert(c.subrange(0, a.len() as int) =~= b.subrange(0, a.len() as int));
    if c.len() == b.len() {
        assert(c =~= b);
        lemma_count_empty(b, k);
    } else {
        let c0 = c.drop_last();
        assert(c0.subrange(0, b.len() as int) =~= c.subrange(0, b.len() as int));
        lemma_count_trans(a, b, c0, k);
        assert(c0.push(c.last()) =~= c);
        lemma_count_push(a, c0, c.last(), k);
        lemma_count_push(b, c0, c.last(), k);
    }
}

/// Of the diagnostics appended from `b` to `a`, `u` are unresolved packages,
/// `m` missing environment lifetimes, `n` non-nominal types and `e` an
/// exhausted namespace, and nothing else was appended.
pub open spec fn added_counts(b: Seq<Diagnostic>, a: Seq<Diagnostic>, u: nat, m: nat, n: nat, e: nat) -> bool {
    &&& extends(b, a)
    &&& count_kind(added(b, a), DiagnosticKind::UnresolvedPackage) == u
    &&& count_kind(added(b, a), DiagnosticKind::MissingEnvLifetime) == m
    &&& count_kind(added(b, a), DiagnosticKind::NonNominalType) == n
    &&& count_kind(added(b, a), DiagnosticKind::NamespaceExhausted) == e
    &&& added(b, a).len() == u + m + n + e
    &&& well_rated(added(b, a))
}

/// Every diagnostic of `d` has the severity of its kind.
pub open spec fn well_rated(d: Seq<Diagnostic>) -> bool {
    forall|i: int| 0 <= i < d.len() ==> (#[trigger] d[i]).severity == crate::model::severity_of(d[i].kind)
}

/// Bumps the count of `k` by one.
pub open spec fn bump(k: DiagnosticKind, which: DiagnosticKind) -> nat {
    if k == which { 1nat } else { 0nat }
}

pub proof fn lemma_counts_push(b: Seq<Diagnostic>, a: Seq<Diagnostic>, x: Diagnostic, u: nat, m: nat, n: nat, e: nat)
    requires
        added_counts(b, a, u, m, n, e),
        x.severity == crate::model::severity_of(x.kind),
    ensures
        added_counts(
            b,
            a.push(x),
            u + bump(x.kind, DiagnosticKind::UnresolvedPackage),
            m + bump(x.kind, DiagnosticKind::MissingEnvLifetime),
            n + bump(x.kind, DiagnosticKind::NonNominalType),
            e + bump(x.kind, DiagnosticKind::NamespaceExhausted),
        ),
{
    lemma_count_push(b, a, x, DiagnosticKind::UnresolvedPackage);
    lemma_count_push(b, a, x, DiagnosticKind::MissingEnvLifetime);
    lemma_count_push(b, a, x, DiagnosticKind::NonNominalType);
    lemma_count_push(b, a, x, DiagnosticKind::NamespaceExhausted);
    assert(added(b, a.push(x)) =~= added(b, a).push(x));
}

pub proof fn lemma_counts_empty(b: Seq<Diagnostic>)
    ensures
        added_counts(b, b, 0, 0, 0, 0),
{
    lemma_count_empty(b, DiagnosticKind::UnresolvedPackage);
    lemma_count_empty(b, DiagnosticKind::MissingEnvLifetime);
    lemma_count_empty(b, DiagnosticKind::NonNominalType);
    lemma_count_empty(b, DiagnosticKind::NamespaceExhausted);
}

pub proof fn lemma_counts_trans(
    a: Seq<Diagnostic>,
    b: Seq<Diagnostic>,
    c: Seq<Diagnostic>,
    u1: nat, m1: nat, n1: nat, e1: nat,
    u2: nat, m2: nat, n2: nat, e2: nat,
)
    requires
        added_counts(a, b, u1, m1, n1, e1),
        added_counts(b, c, u2, m2, n2, e2),
    ensures
        added_counts(a, c, u1 + u2, m1 + m2, n1 + n2, e1 + e2),
{
    lemma_count_trans(a, b, c, DiagnosticKind::UnresolvedPackage);
    lemma_count_trans(a, b, c, DiagnosticKind::MissingEnvLifetime);
    lemma_count_trans(a, b, c, DiagnosticKind::NonNominalType);
    lemma_count_trans(a, b, c, DiagnosticKind::NamespaceExhausted);
    let x = added(a, b);
    let y = added(b, c);
    assert(added(a, c) =~= x + y);
    assert forall|i: int| 0 <= i < (x + y).len() implies (#[trigger] (x + y)[i]).severity
        == crate::model::severity_of((x + y)[i].kind) by {
        if i < x.len() {
            assert((x + y)[i] == x[i]);
        } else {
            assert((x + y)[i] == y[i - x.len()]);
        }
    }
}

/// Records a diagnostic of kind `kind` about `method` of type `ty`.
pub(crate) fn report(diags: &mut Vec<Diagnostic>, kind: DiagnosticKind, ty: &String, method: &String)
    ensures
        final(diags)@ == old(diags)@.push(final(diags)@.last()),
        final(diags)@.last().kind == kind,
        final(diags)@.last().severity == crate::model::severity_of(kind),
        final(diags)@.last().ty_name == *ty,
        final(diags)@.last().method == Some(*method),
{
    diags.push(Diagnostic::new(kind, ty.clone(), Some(method.clone())));
}

} // verus!

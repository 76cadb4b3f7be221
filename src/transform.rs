//! The pass over a whole module: method blocks are split into the block that
//! stays and the native entry points generated from it, nested modules are
//! walked, and package markers are stripped.
use vstd::prelude::*;
use crate::classify::{classify, role_of};
use crate::model::{
    Attribute, Diagnostic, DiagnosticKind, ImplBlock, Item, JNIBridgeModule, Method, ModItem,
    PackageEntry, Role, Severity, StructItem, TypeExpr, TypePath,
};
use crate::model::FnArg;
use crate::naming::{fresh_name, lemma_fresh_names_distinct, Namespace};
use crate::diagnostics::{
    added, added_counts, count_kind, extends, lemma_count_empty, lemma_count_trans, lemma_counts_empty, lemma_counts_trans,
};
use crate::rewrite::{
    advanced, bad_output_type, bad_param_types, imported_of, is_self_arg, lemma_overflow_split, overflow,
    receiver_name, self_args_before, is_self_method, lacks_env, lacks_env_for, native_of,
    rewrite_exported, rewrite_imported,
};

verus! {

/// The package that the first entry for `name` gives; `None` when there is
/// no entry or the entry has no package.
pub open spec fn package_lookup(entries: Seq<PackageEntry>, name: Seq<char>) -> Option<String>
    decreases entries.len(),
{
    if entries.len() == 0 {
        None
    } else if entries[0].ty_name@ == name {
        entries[0].package
    } else {
        package_lookup(entries.drop_first(), name)
    }
}

pub open spec fn role(m: Method) -> Role {
    role_of(m.public, m.marker)
}

/// The number of exported methods among `ms[..i]`.
pub open spec fn exported_before(ms: Seq<Method>, i: int) -> nat
    decreases i,
{
    if i <= 0 {
        0
    } else {
        exported_before(ms, i - 1) + if role(ms[i - 1]) == Role::Exported { 1nat } else { 0nat }
    }
}

/// The number of exported instance methods among `ms[..i]` whose type lacks `'env`.
pub open spec fn lacking_before(ms: Seq<Method>, i: int, p: TypePath) -> nat
    decreases i,
{
    if i <= 0 {
        0
    } else {
        lacking_before(ms, i - 1, p) + if role(ms[i - 1]) == Role::Exported && lacks_env_for(ms[i - 1], p) {
            1nat
        } else {
            0nat
        }
    }
}

/// The number of non-nominal parameter and result types of exported methods among `ms[..i]`.
pub open spec fn bad_types_before(ms: Seq<Method>, i: int) -> nat
    decreases i,
{
    if i <= 0 {
        0
    } else {
        bad_types_before(ms, i - 1) + if role(ms[i - 1]) == Role::Exported {
            bad_param_types(ms[i - 1].inputs@) + bad_output_type(ms[i - 1].output)
        } else {
            0nat
        }
    }
}

/// Where method `ms[i]` of a resolved block ends up: an unexported method
/// stays in the block unchanged, an imported one stays with its receiver made
/// explicit, and an exported one leaves the block and becomes the next
/// native entry point.
pub open spec fn method_placed(
    ms: Seq<Method>,
    i: int,
    kept: Seq<Method>,
    natives: Seq<Item>,
    p: TypePath,
    package: Seq<char>,
) -> bool {
    let m = ms[i];
    let k = i - exported_before(ms, i);
    let e = exported_before(ms, i) as int;
    match role(m) {
        Role::Unexported => kept[k] == m,
        Role::Imported => exists|lo: nat| imported_of(m, kept[k], p, p.name@, lo),
        Role::Exported => match natives[e] {
            Item::Native(f) => exists|lo: nat| native_of(m, f, p, p.name@, package, lo),
            _ => false,
        },
    }
}

/// The receivers method `m` names from the namespace: those of an exported
/// or imported method.
pub open spec fn receivers_of(m: Method) -> nat {
    if role(m) == Role::Unexported { 0nat } else { self_args_before(m.inputs@, m.inputs@.len() as int) }
}

/// The receivers that the methods `ms[..i]` name from the namespace.
pub open spec fn receivers_before(ms: Seq<Method>, i: int) -> nat
    decreases i,
{
    if i <= 0 {
        0
    } else {
        receivers_before(ms, i - 1) + receivers_of(ms[i - 1])
    }
}

/// `method_placed`, with the receivers of `ms[i]` named from namespace position `lo`.
pub open spec fn method_placed_at(
    ms: Seq<Method>,
    i: int,
    kept: Seq<Method>,
    natives: Seq<Item>,
    p: TypePath,
    package: Seq<char>,
    lo: nat,
) -> bool {
    let m = ms[i];
    let k = i - exported_before(ms, i);
    let e = exported_before(ms, i) as int;
    match role(m) {
        Role::Unexported => kept[k] == m,
        Role::Imported => imported_of(m, kept[k], p, p.name@, lo),
        Role::Exported => match natives[e] {
            Item::Native(f) => native_of(m, f, p, p.name@, package, lo),
            _ => false,
        },
    }
}

/// The namespace positions a block uses, from `ns0` to `ns1`: method `ms[i]`
/// of a resolved block names its receivers from `ns0` advanced by the
/// receivers of the methods before it.
pub open spec fn impl_positions(b: ImplBlock, out: Seq<Item>, entries: Seq<PackageEntry>, ns0: nat, ns1: nat) -> bool {
    match b.self_ty {
        TypeExpr::Path(p) => match package_lookup(entries, p.name@) {
            Some(package) => {
                let ms = b.methods@;
                &&& ns1 == advanced(ns0, receivers_before(ms, ms.len() as int))
                &&& match out[0] {
                    Item::Impl(c) => forall|i: int|
                        0 <= i < ms.len() ==> method_placed_at(
                            ms,
                            i,
                            c.methods@,
                            out.drop_first(),
                            p,
                            package@,
                            advanced(ns0, receivers_before(ms, i)),
                        ),
                    _ => false,
                }
            },
            None => ns1 == ns0,
        },
        _ => ns1 == ns0,
    }
}

/// `out` is what method block `b` becomes. A block on a nominal type whose
/// package is known keeps its header and its unexported and imported
/// methods, and is followed by one native entry point per exported method,
/// in order. Any other block is kept as it is.
pub open spec fn impl_transformed(b: ImplBlock, out: Seq<Item>, entries: Seq<PackageEntry>) -> bool {
    match b.self_ty {
        TypeExpr::Path(p) => match package_lookup(entries, p.name@) {
            Some(package) => {
                let ms = b.methods@;
                let n = ms.len() as int;
                &&& out.len() == 1 + exported_before(ms, n)
                &&& forall|k: int| 1 <= k < out.len() ==> out[k] is Native
                &&& match out[0] {
                    Item::Impl(c) => {
                        &&& c.attrs == b.attrs
                        &&& c.generics == b.generics
                        &&& c.trait_name == b.trait_name
                        &&& c.self_ty == b.self_ty
                        &&& c.methods@.len() == n - exported_before(ms, n)
                        &&& forall|i: int| 0 <= i < n ==> method_placed(ms, i, c.methods@, out.drop_first(), p, package@)
                    },
                    _ => false,
                }
            },
            None => out == seq![Item::Impl(b)],
        },
        _ => out == seq![Item::Impl(b)],
    }
}

/// The diagnostics a block produces, its namespace starting at `ns0`: one
/// warning when its type's package is unknown; otherwise one error per
/// exported instance method whose type lacks `'env`, one per non-nominal type
/// of an exported method, one per receiver that finds the namespace used
/// up, and nothing else.
pub open spec fn impl_diagnosed(b: ImplBlock, entries: Seq<PackageEntry>, ns0: nat, d0: Seq<Diagnostic>, d1: Seq<Diagnostic>) -> bool {
    match b.self_ty {
        TypeExpr::Path(p) => match package_lookup(entries, p.name@) {
            Some(_) => added_counts(
                d0,
                d1,
                0,
                lacking_before(b.methods@, b.methods@.len() as int, p),
                bad_types_before(b.methods@, b.methods@.len() as int),
                overflow(ns0, receivers_before(b.methods@, b.methods@.len() as int)),
            ),
            None => d1.len() == d0.len() + 1 && d1.drop_last() == d0 && d1.last().kind
                == DiagnosticKind::UnresolvedPackage && d1.last().severity == Severity::Warning
                && d1.last().ty_name == p.name && d1.last().method is None,
        },
        _ => d1 == d0,
    }
}

proof fn lemma_exported_before_monotone(ms: Seq<Method>, a: int, b: int)
    requires
        0 <= a <= b,
    ensures
        exported_before(ms, a) <= exported_before(ms, b),
        a - exported_before(ms, a) <= b - exported_before(ms, b),
        a < b && role(ms[a]) == Role::Exported ==> exported_before(ms, a) < exported_before(ms, b),
        a < b && role(ms[a]) != Role::Exported ==> a - exported_before(ms, a) < b - exported_before(ms, b),
    decreases b - a,
{
    if a < b {
        lemma_exported_before_monotone(ms, a + 1, b);
    }
}

/// The one-item sequence of `it`.
fn single(it: Item) -> (r: Vec<Item>)
    ensures
        r@ == seq![it],
{
    let mut r: Vec<Item> = Vec::new();
    r.push(it);
    r
}

/// `attrs` without the package markers.
pub open spec fn without_package(attrs: Seq<Attribute>) -> Seq<Attribute>
    decreases attrs.len(),
{
    if attrs.len() == 0 {
        Seq::empty()
    } else {
        without_package(attrs.drop_last()) + if attrs.last().path@ == "package"@ {
            Seq::empty()
        } else {
            seq![attrs.last()]
        }
    }
}

pub open spec fn struct_cleaned(s: StructItem, t: StructItem) -> bool {
    &&& t.name == s.name
    &&& t.rest == s.rest
    &&& t.attrs@ == without_package(s.attrs@)
}

pub open spec fn is_allow(a: Attribute, what: Seq<char>) -> bool {
    a.path@ == "allow"@ && a.args@ == what
}

/// `n` has the name and attributes of `m`, followed by the allowances for
/// non-snake-case and unused names.
pub open spec fn mod_header_folded(m: ModItem, n: ModItem) -> bool {
    let k = m.attrs@.len() as int;
    &&& n.name == m.name
    &&& n.attrs@.len() == k + 2
    &&& n.attrs@.subrange(0, k) == m.attrs@
    &&& is_allow(n.attrs@[k], "non_snake_case"@)
    &&& is_allow(n.attrs@[k + 1], "unused"@)
}

/// `out` is what `item` becomes in the pass; a nested module is walked in
/// the same way.
pub open spec fn item_folded(item: Item, out: Seq<Item>, entries: Seq<PackageEntry>) -> bool
    decreases item,
{
    match item {
        Item::Impl(b) => impl_transformed(b, out, entries),
        Item::Struct(s) => out.len() == 1 && match out[0] {
            Item::Struct(t) => struct_cleaned(s, t),
            _ => false,
        },
        Item::Mod(m) => out.len() == 1 && match out[0] {
            Item::Mod(n) => mod_header_folded(m, n) && exists|groups: Seq<Seq<Item>>|
                {
                    &&& groups.len() == m.items@.len()
                    &&& n.items@ == groups.flatten()
                    &&& forall|j: int|
                        0 <= j < m.items@.len() ==> item_folded(#[trigger] m.items@[j], groups[j], entries)
                },
            _ => false,
        },
        _ => out == seq![item],
    }
}

/// `out` is the concatenation, in order, of what each of `items` becomes.
pub open spec fn items_folded(items: Seq<Item>, out: Seq<Item>, entries: Seq<PackageEntry>) -> bool {
    exists|groups: Seq<Seq<Item>>|
        {
            &&& groups.len() == items.len()
            &&& out == groups.flatten()
            &&& forall|j: int| 0 <= j < items.len() ==> item_folded(#[trigger] items[j], groups[j], entries)
        }
}

/// How `item` moves the namespace from `n0` to `n1` and the diagnostics
/// from `d0` to `d1`: a method block as `impl_positions` and
/// `impl_diagnosed` say, a nested module through its items in order, and
/// any other item not at all.
pub open spec fn item_step(
    item: Item,
    out: Seq<Item>,
    entries: Seq<PackageEntry>,
    n0: nat,
    n1: nat,
    d0: Seq<Diagnostic>,
    d1: Seq<Diagnostic>,
) -> bool
    decreases item,
{
    match item {
        Item::Impl(b) => impl_positions(b, out, entries, n0, n1) && impl_diagnosed(b, entries, n0, d0, d1),
        Item::Mod(m) => out.len() == 1 && match out[0] {
            Item::Mod(n) => exists|groups: Seq<Seq<Item>>, ns: Seq<nat>, ds: Seq<Seq<Diagnostic>>|
                {
                    &&& groups.len() == m.items@.len()
                    &&& ns.len() == groups.len() + 1
                    &&& ds.len() == groups.len() + 1
                    &&& ns[0] == n0
                    &&& ns[groups.len() as int] == n1
                    &&& ds[0] == d0
                    &&& ds[groups.len() as int] == d1
                    &&& n.items@ == groups.flatten()
                    &&& forall|j: int| 0 <= j < groups.len() ==> #[trigger] ns[j] <= ns[j + 1]
                    &&& forall|j: int|
                        0 <= j < m.items@.len() ==> item_step(
                            #[trigger] m.items@[j],
                            groups[j],
                            entries,
                            ns[j],
                            ns[j + 1],
                            ds[j],
                            ds[j + 1],
                        )
                },
            _ => false,
        },
        _ => n1 == n0 && d1 == d0,
    }
}

/// `out` is what `items` become, in order, with the namespace moving from
/// `n0` to `n1` and the diagnostics from `d0` to `d1` item after item.
pub open spec fn items_threaded(
    items: Seq<Item>,
    out: Seq<Item>,
    entries: Seq<PackageEntry>,
    n0: nat,
    n1: nat,
    d0: Seq<Diagnostic>,
    d1: Seq<Diagnostic>,
) -> bool {
    exists|groups: Seq<Seq<Item>>, ns: Seq<nat>, ds: Seq<Seq<Diagnostic>>|
        {
            &&& groups.len() == items.len()
            &&& ns.len() == groups.len() + 1
            &&& ds.len() == groups.len() + 1
            &&& ns[0] == n0
            &&& ns[groups.len() as int] == n1
            &&& ds[0] == d0
            &&& ds[groups.len() as int] == d1
            &&& out == groups.flatten()
            &&& forall|j: int| 0 <= j < groups.len() ==> #[trigger] ns[j] <= ns[j + 1]
            &&& forall|j: int|
                0 <= j < items.len() ==> item_folded(#[trigger] items[j], groups[j], entries) && item_step(
                    items[j],
                    groups[j],
                    entries,
                    ns[j],
                    ns[j + 1],
                    ds[j],
                    ds[j + 1],
                )
        }
}

pub open spec fn mod_folded(m: ModItem, n: ModItem, entries: Seq<PackageEntry>) -> bool {
    mod_header_folded(m, n) && items_folded(m.items@, n.items@, entries)
}

proof fn lemma_impl_diagnosed_extends(b: ImplBlock, entries: Seq<PackageEntry>, ns0: nat, d0: Seq<Diagnostic>, d1: Seq<Diagnostic>)
    requires
        impl_diagnosed(b, entries, ns0, d0, d1),
    ensures
        extends(d0, d1),
{
    assert(d0.subrange(0, d0.len() as int) =~= d0);
    if d1.len() == d0.len() + 1 && d1.drop_last() == d0 {
        assert(d1.subrange(0, d0.len() as int) =~= d1.drop_last());
    }
}

/// Slot `k` of the kept block belongs to an unexported or imported method.
pub open spec fn kept_slot_owned(ms: Seq<Method>, k: int) -> bool {
    exists|i: int| 0 <= i < ms.len() && role(ms[i]) != Role::Exported && #[trigger] exported_before(ms, i) == i - k
}

/// Native entry point `e` belongs to an exported method.
pub open spec fn native_slot_owned(ms: Seq<Method>, e: int) -> bool {
    exists|i: int| 0 <= i < ms.len() && role(ms[i]) == Role::Exported && #[trigger] exported_before(ms, i) == e
}

proof fn lemma_kept_slot_filled(ms: Seq<Method>, n: int, k: int)
    requires
        0 <= n <= ms.len(),
        0 <= k < n - exported_before(ms, n),
    ensures
        exists|i: int| 0 <= i < n && role(ms[i]) != Role::Exported && #[trigger] exported_before(ms, i) == i - k,
    decreases n,
{
    lemma_exported_before_monotone(ms, n - 1, n);
    if k < (n - 1) - exported_before(ms, n - 1) {
        lemma_kept_slot_filled(ms, n - 1, k);
        let i = choose|i: int| 0 <= i < n - 1 && role(ms[i]) != Role::Exported && #[trigger] exported_before(ms, i) == i - k;
        assert(0 <= i < n && role(ms[i]) != Role::Exported && exported_before(ms, i) == i - k);
    } else {
        let i = n - 1;
        assert(role(ms[i]) != Role::Exported && exported_before(ms, i) == i - k);
    }
}

proof fn lemma_native_slot_filled(ms: Seq<Method>, n: int, e: int)
    requires
        0 <= n <= ms.len(),
        0 <= e < exported_before(ms, n),
    ensures
        exists|i: int| 0 <= i < n && role(ms[i]) == Role::Exported && #[trigger] exported_before(ms, i) == e,
    decreases n,
{
    if e < exported_before(ms, n - 1) {
        lemma_native_slot_filled(ms, n - 1, e);
        let i = choose|i: int| 0 <= i < n - 1 && role(ms[i]) == Role::Exported && #[trigger] exported_before(ms, i) == e;
        assert(0 <= i < n && role(ms[i]) == Role::Exported && exported_before(ms, i) == e);
    } else {
        let i = n - 1;
        assert(role(ms[i]) == Role::Exported && exported_before(ms, i) == e);
    }
}

/// In a resolved block the roles partition the output: every slot of the
/// kept block belongs to exactly one unexported or imported method, and every
/// native entry point to exactly one exported method. So an exported method
/// leaves the block, and an imported one yields no entry point.
pub proof fn lemma_roles_partition(ms: Seq<Method>)
    ensures
        forall|k: int|
            0 <= k < ms.len() - exported_before(ms, ms.len() as int) ==> #[trigger] kept_slot_owned(ms, k),
        forall|e: int| 0 <= e < exported_before(ms, ms.len() as int) ==> #[trigger] native_slot_owned(ms, e),
        forall|i1: int, i2: int|
            0 <= i1 < i2 < ms.len() && role(ms[i1]) != Role::Exported && role(ms[i2]) != Role::Exported
                ==> #[trigger] exported_before(ms, i1) - i1 != #[trigger] exported_before(ms, i2) - i2,
        forall|i1: int, i2: int|
            0 <= i1 < i2 < ms.len() && role(ms[i1]) == Role::Exported && role(ms[i2]) == Role::Exported
                ==> #[trigger] exported_before(ms, i1) != #[trigger] exported_before(ms, i2),
{
    let n = ms.len() as int;
    assert forall|k: int| 0 <= k < n - exported_before(ms, n) implies #[trigger] kept_slot_owned(ms, k) by {
        lemma_kept_slot_filled(ms, n, k);
    }
    assert forall|e: int| 0 <= e < exported_before(ms, n) implies #[trigger] native_slot_owned(ms, e) by {
        lemma_native_slot_filled(ms, n, e);
    }
    assert forall|i1: int, i2: int|
        0 <= i1 < i2 < n && role(ms[i1]) != Role::Exported && role(ms[i2]) != Role::Exported
            implies #[trigger] exported_before(ms, i1) - i1 != #[trigger] exported_before(ms, i2) - i2 by {
        lemma_exported_before_monotone(ms, i1, i2);
    }
    assert forall|i1: int, i2: int|
        0 <= i1 < i2 < n && role(ms[i1]) == Role::Exported && role(ms[i2]) == Role::Exported
            implies #[trigger] exported_before(ms, i1) != #[trigger] exported_before(ms, i2) by {
        lemma_exported_before_monotone(ms, i1, i2);
    }
}

/// A method block whose type has no known package comes out exactly as it
/// went in, with no native entry point, and yields exactly one diagnostic: a
/// warning.
pub proof fn lemma_unresolved_block_unchanged(
    b: ImplBlock,
    entries: Seq<PackageEntry>,
    ns0: nat,
    out: Seq<Item>,
    d0: Seq<Diagnostic>,
    d1: Seq<Diagnostic>,
)
    requires
        match b.self_ty {
            TypeExpr::Path(p) => package_lookup(entries, p.name@) is None,
            _ => false,
        },
        impl_transformed(b, out, entries),
        impl_diagnosed(b, entries, ns0, d0, d1),
    ensures
        out == seq![Item::Impl(b)],
        forall|k: int| 0 <= k < out.len() ==> !(out[k] is Native),
        d1.len() == d0.len() + 1,
        d1.subrange(0, d0.len() as int) == d0,
        d1.last().severity == Severity::Warning,
{
    assert(d1.subrange(0, d0.len() as int) =~= d1.drop_last());
}

proof fn lemma_single_exported(ms: Seq<Method>, p: TypePath, i0: int, k: int)
    requires
        0 <= i0 < ms.len(),
        0 <= k <= ms.len(),
        role(ms[i0]) == Role::Exported,
        forall|j: int| 0 <= j < ms.len() && j != i0 ==> role(#[trigger] ms[j]) != Role::Exported,
    ensures
        lacking_before(ms, k, p) == if k > i0 && lacks_env_for(ms[i0], p) { 1nat } else { 0nat },
        bad_types_before(ms, k) == if k > i0 {
            bad_param_types(ms[i0].inputs@) + bad_output_type(ms[i0].output)
        } else {
            0nat
        },
    decreases k,
{
    if k > 0 {
        lemma_single_exported(ms, p, i0, k - 1);
    }
}

/// A resolved method block whose type has lifetime arguments but no `'env`,
/// and whose only exported method is an instance method with nominal types,
/// yields exactly one diagnostic: the error about the missing lifetime
/// (while the namespace has room for the block's receivers).
pub proof fn lemma_missing_env_single_error(
    b: ImplBlock,
    entries: Seq<PackageEntry>,
    ns0: nat,
    d0: Seq<Diagnostic>,
    d1: Seq<Diagnostic>,
    i0: int,
)
    requires
        match b.self_ty {
            TypeExpr::Path(p) => package_lookup(entries, p.name@) is Some && lacks_env(p),
            _ => false,
        },
        0 <= i0 < b.methods@.len(),
        role(b.methods@[i0]) == Role::Exported,
        is_self_method(b.methods@[i0].inputs@),
        bad_param_types(b.methods@[i0].inputs@) == 0,
        bad_output_type(b.methods@[i0].output) == 0,
        forall|j: int| 0 <= j < b.methods@.len() && j != i0 ==> role(#[trigger] b.methods@[j]) != Role::Exported,
        ns0 + receivers_before(b.methods@, b.methods@.len() as int) <= u64::MAX,
        impl_diagnosed(b, entries, ns0, d0, d1),
    ensures
        added_counts(d0, d1, 0, 1, 0, 0),
        d1.len() == d0.len() + 1,
        d1.last().kind == DiagnosticKind::MissingEnvLifetime,
        d1.last().severity == Severity::Error,
{
    if let TypeExpr::Path(p) = b.self_ty {
        lemma_single_exported(b.methods@, p, i0, b.methods@.len() as int);
        let a = added(d0, d1);
        assert(a.len() == 1);
        assert(count_kind(a, DiagnosticKind::MissingEnvLifetime) == 1);
        assert(a.drop_last() =~= Seq::<Diagnostic>::empty());
        assert(a.last() == d1.last());
        assert(a.last().kind == DiagnosticKind::MissingEnvLifetime);
        assert(d1.last().severity == crate::model::severity_of(d1.last().kind));
    }
}

proof fn lemma_self_args_monotone(inputs: Seq<FnArg>, a: int, b: int)
    requires
        0 <= a <= b <= inputs.len(),
    ensures
        self_args_before(inputs, a) <= self_args_before(inputs, b),
        a < b && is_self_arg(inputs[a]) ==> self_args_before(inputs, a) < self_args_before(inputs, b),
    decreases b - a,
{
    if a < b {
        lemma_self_args_monotone(inputs, a, b - 1);
        if a == b - 1 {
        } else {
            lemma_self_args_monotone(inputs, a + 1, b);
        }
    }
}

proof fn lemma_receivers_monotone(ms: Seq<Method>, a: int, b: int)
    requires
        0 <= a <= b <= ms.len(),
    ensures
        receivers_before(ms, a) <= receivers_before(ms, b),
        a < b ==> receivers_before(ms, a) + receivers_of(ms[a]) <= receivers_before(ms, b),
    decreases b - a,
{
    if a < b {
        lemma_receivers_monotone(ms, a, b - 1);
        if a < b - 1 {
            lemma_receivers_monotone(ms, a + 1, b);
        }
    }
}

/// The namespace position of receiver `inputs[a]` of method `ms[i]` in a
/// block whose namespace starts at `ns0`, when it gets a name.
proof fn lemma_receiver_position(ms: Seq<Method>, ns0: nat, b: Seq<char>, i: int, a: int)
    requires
        ns0 <= u64::MAX,
        0 <= i < ms.len(),
        0 <= a < ms[i].inputs@.len(),
        receiver_name(ms[i].inputs@, a, b, advanced(ns0, receivers_before(ms, i))) is Some,
    ensures
        is_self_arg(ms[i].inputs@[a]),
        receiver_name(ms[i].inputs@, a, b, advanced(ns0, receivers_before(ms, i)))
            == Some(fresh_name(b, ns0 + receivers_before(ms, i) + self_args_before(ms[i].inputs@, a))),
{
}

/// Within a method block, receivers that get a name never get the same one,
/// even where the natural names `receiver_<type>_<method>` coincide: each
/// takes its own namespace position.
pub proof fn lemma_block_receiver_names_distinct(
    ms: Seq<Method>,
    ns0: nat,
    b1: Seq<char>,
    b2: Seq<char>,
    i1: int,
    a1: int,
    i2: int,
    a2: int,
)
    requires
        ns0 <= u64::MAX,
        0 <= i1 < ms.len(),
        0 <= i2 < ms.len(),
        role(ms[i1]) != Role::Unexported,
        role(ms[i2]) != Role::Unexported,
        0 <= a1 < ms[i1].inputs@.len(),
        0 <= a2 < ms[i2].inputs@.len(),
        i1 != i2 || a1 != a2,
        receiver_name(ms[i1].inputs@, a1, b1, advanced(ns0, receivers_before(ms, i1))) is Some,
        receiver_name(ms[i2].inputs@, a2, b2, advanced(ns0, receivers_before(ms, i2))) is Some,
    ensures
        receiver_name(ms[i1].inputs@, a1, b1, advanced(ns0, receivers_before(ms, i1)))
            != receiver_name(ms[i2].inputs@, a2, b2, advanced(ns0, receivers_before(ms, i2))),
{
    lemma_receiver_position(ms, ns0, b1, i1, a1);
    lemma_receiver_position(ms, ns0, b2, i2, a2);
    let in1 = ms[i1].inputs@;
    let in2 = ms[i2].inputs@;
    let q1 = ns0 + receivers_before(ms, i1) + self_args_before(in1, a1);
    let q2 = ns0 + receivers_before(ms, i2) + self_args_before(in2, a2);
    lemma_self_args_monotone(in1, a1, in1.len() as int);
    lemma_self_args_monotone(in2, a2, in2.len() as int);
    if i1 < i2 {
        lemma_receivers_monotone(ms, i1, i2);
        assert(q1 < q2);
    } else if i2 < i1 {
        lemma_receivers_monotone(ms, i2, i1);
        assert(q2 < q1);
    } else if a1 < a2 {
        lemma_self_args_monotone(in1, a1, a2);
        assert(q1 < q2);
    } else {
        lemma_self_args_monotone(in1, a2, a1);
        assert(q2 < q1);
    }
    lemma_fresh_names_distinct(b1, b2, q1, q2);
}

/// A receiver of a resolved block that gets a name takes a namespace position
/// inside the block's range `[s, e)`.
proof fn lemma_receiver_in_range(
    bk: ImplBlock,
    out: Seq<Item>,
    entries: Seq<PackageEntry>,
    s: nat,
    e: nat,
    b: Seq<char>,
    i: int,
    a: int,
)
    requires
        s <= u64::MAX,
        impl_positions(bk, out, entries, s, e),
        match bk.self_ty {
            TypeExpr::Path(p) => package_lookup(entries, p.name@) is Some,
            _ => false,
        },
        0 <= i < bk.methods@.len(),
        role(bk.methods@[i]) != Role::Unexported,
        0 <= a < bk.methods@[i].inputs@.len(),
        receiver_name(bk.methods@[i].inputs@, a, b, advanced(s, receivers_before(bk.methods@, i))) is Some,
    ensures
        receiver_name(bk.methods@[i].inputs@, a, b, advanced(s, receivers_before(bk.methods@, i)))
            == Some(fresh_name(b, s + receivers_before(bk.methods@, i) + self_args_before(bk.methods@[i].inputs@, a))),
        s <= s + receivers_before(bk.methods@, i) + self_args_before(bk.methods@[i].inputs@, a) < e,
{
    let ms = bk.methods@;
    let inp = ms[i].inputs@;
    lemma_receiver_position(ms, s, b, i, a);
    lemma_self_args_monotone(inp, a, inp.len() as int);
    lemma_receivers_monotone(ms, i, ms.len() as int);
}

/// Receivers of two method blocks whose namespace ranges do not overlap
/// (the first ends where or before the second starts, as the blocks of a
/// module pass do) never get the same name, even where the natural names
/// `receiver_<type>_<method>` coincide.
pub proof fn lemma_blocks_receiver_names_distinct(
    bk1: ImplBlock,
    o1: Seq<Item>,
    s1: nat,
    e1: nat,
    bk2: ImplBlock,
    o2: Seq<Item>,
    s2: nat,
    e2: nat,
    entries: Seq<PackageEntry>,
    b1: Seq<char>,
    b2: Seq<char>,
    i1: int,
    a1: int,
    i2: int,
    a2: int,
)
    requires
        s1 <= u64::MAX,
        s2 <= u64::MAX,
        e1 <= s2,
        impl_positions(bk1, o1, entries, s1, e1),
        impl_positions(bk2, o2, entries, s2, e2),
        match bk1.self_ty {
            TypeExpr::Path(p) => package_lookup(entries, p.name@) is Some,
            _ => false,
        },
        match bk2.self_ty {
            TypeExpr::Path(p) => package_lookup(entries, p.name@) is Some,
            _ => false,
        },
        0 <= i1 < bk1.methods@.len(),
        0 <= i2 < bk2.methods@.len(),
        role(bk1.methods@[i1]) != Role::Unexported,
        role(bk2.methods@[i2]) != Role::Unexported,
        0 <= a1 < bk1.methods@[i1].inputs@.len(),
        0 <= a2 < bk2.methods@[i2].inputs@.len(),
        receiver_name(bk1.methods@[i1].inputs@, a1, b1, advanced(s1, receivers_before(bk1.methods@, i1))) is Some,
        receiver_name(bk2.methods@[i2].inputs@, a2, b2, advanced(s2, receivers_before(bk2.methods@, i2))) is Some,
    ensures
        receiver_name(bk1.methods@[i1].inputs@, a1, b1, advanced(s1, receivers_before(bk1.methods@, i1)))
            != receiver_name(bk2.methods@[i2].inputs@, a2, b2, advanced(s2, receivers_before(bk2.methods@, i2))),
{
    lemma_receiver_in_range(bk1, o1, entries, s1, e1, b1, i1, a1);
    lemma_receiver_in_range(bk2, o2, entries, s2, e2, b2, i2, a2);
    let q1 = s1 + receivers_before(bk1.methods@, i1) + self_args_before(bk1.methods@[i1].inputs@, a1);
    let q2 = s2 + receivers_before(bk2.methods@, i2) + self_args_before(bk2.methods@[i2].inputs@, a2);
    lemma_fresh_names_distinct(b1, b2, q1, q2);
}

/// Along a module pass the namespace only moves forward, so an item's range
/// ends where or before any later item's range starts.
pub proof fn lemma_ranges_ordered(ns: Seq<nat>, j1: int, j2: int)
    requires
        0 <= j1 < j2 < ns.len(),
        forall|j: int| 0 <= j < ns.len() - 1 ==> #[trigger] ns[j] <= ns[j + 1],
    ensures
        ns[j1 + 1] <= ns[j2],
    decreases j2 - j1,
{
    if j1 + 1 < j2 {
        lemma_ranges_ordered(ns, j1 + 1, j2);
        assert(ns[j1 + 1] <= ns[j1 + 2]);
    }
}

pub open spec fn no_bindings(s: Seq<Item>) -> bool {
    forall|k: int| 0 <= k < s.len() ==> !(#[trigger] s[k] is Bindings)
}

proof fn lemma_flatten_no_bindings(groups: Seq<Seq<Item>>)
    requires
        forall|j: int| 0 <= j < groups.len() ==> no_bindings(#[trigger] groups[j]),
    ensures
        no_bindings(groups.flatten()),
    decreases groups.len(),
{
    if groups.len() > 0 {
        let rest = groups.drop_first();
        assert forall|j: int| 0 <= j < rest.len() implies no_bindings(#[trigger] rest[j]) by {
            assert(rest[j] == groups[j + 1]);
        }
        lemma_flatten_no_bindings(rest);
        let f = groups.first() + rest.flatten();
        assert(groups.flatten() == f);
        assert(no_bindings(groups.first()));
        assert forall|k: int| 0 <= k < f.len() implies !(#[trigger] f[k] is Bindings) by {
            if k < groups.first().len() {
                assert(f[k] == groups.first()[k]);
            } else {
                assert(f[k] == rest.flatten()[k - groups.first().len()]);
            }
        }
    }
}

proof fn lemma_item_folded_no_bindings(item: Item, out: Seq<Item>, entries: Seq<PackageEntry>)
    requires
        item_folded(item, out, entries),
        !(item is Bindings),
    ensures
        no_bindings(out),
{
    if let Item::Impl(b) = item {
        if let TypeExpr::Path(p) = b.self_ty {
            if package_lookup(entries, p.name@) is Some {
                assert forall|k: int| 0 <= k < out.len() implies !(#[trigger] out[k] is Bindings) by {
                    if k >= 1 {
                        assert(out[k] is Native);
                    }
                }
            }
        }
    }
}

/// A pass over a module without bindings of its own leaves the bindings
/// that generated code needs exactly once, at the top.
pub proof fn lemma_bindings_once(items: Seq<Item>, out: Seq<Item>, entries: Seq<PackageEntry>)
    requires
        items_folded(seq![Item::Bindings] + items, out, entries),
        no_bindings(items),
    ensures
        out.len() >= 1,
        out[0] is Bindings,
        no_bindings(out.drop_first()),
{
    let all = seq![Item::Bindings] + items;
    let groups = choose|groups: Seq<Seq<Item>>|
        {
            &&& groups.len() == all.len()
            &&& out == groups.flatten()
            &&& forall|j: int| 0 <= j < all.len() ==> item_folded(#[trigger] all[j], groups[j], entries)
        };
    assert(all[0] is Bindings);
    assert(item_folded(all[0], groups[0], entries));
    assert(groups[0] == seq![Item::Bindings]);
    let rest = groups.drop_first();
    assert forall|j: int| 0 <= j < rest.len() implies no_bindings(#[trigger] rest[j]) by {
        assert(rest[j] == groups[j + 1]);
        assert(all[j + 1] == items[j]);
        assert(item_folded(all[j + 1], groups[j + 1], entries));
        lemma_item_folded_no_bindings(all[j + 1], groups[j + 1], entries);
    }
    lemma_flatten_no_bindings(rest);
    assert(out == groups[0] + rest.flatten());
    assert(out.drop_first() =~= rest.flatten());
}

/// The transformation of one module, with its package map, identifier
/// namespace and the diagnostics found so far.
pub struct ModTransformer {
    pub module: JNIBridgeModule,
    pub ns: Namespace,
    pub diags: Vec<Diagnostic>,
}

impl ModTransformer {
    pub fn new(module: JNIBridgeModule) -> (r: ModTransformer)
        ensures
            r.module == module,
            r.ns.next == 0,
            r.diags@.len() == 0,
    {
        ModTransformer { module, ns: Namespace::new(), diags: Vec::new() }
    }

    /// The package of type `name`.
    pub fn package_of(&self, name: &String) -> (r: Option<String>)
        ensures
            r == package_lookup(self.module.package_map@, name@),
    {
        let ghost entries = self.module.package_map@;
        let n = self.module.package_map.len();
        let mut i: usize = 0;
        assert(entries.subrange(0, n as int) =~= entries);
        while i < n
            invariant
                n == entries.len(),
                entries == self.module.package_map@,
                i <= n,
                package_lookup(entries, name@) == package_lookup(entries.subrange(i as int, n as int), name@),
            decreases n - i,
        {
            assert(entries.subrange(i as int, n as int).drop_first() =~= entries.subrange(i + 1, n as int));
            let e = &self.module.package_map[i];
            if e.ty_name == *name {
                assert(entries.subrange(i as int, n as int)[0] == entries[i as int]);
                let r = match &e.package {
                    Some(s) => Some(s.clone()),
                    None => None,
                };
                assert(r == e.package);
                return r;
            }
            i = i + 1;
        }
        None
    }

    /// Splits method block `node` into the block that stays and the native
    /// entry points of its exported methods.
    pub fn transform_item_impl(&mut self, node: ImplBlock) -> (r: Vec<Item>)
        ensures
            impl_transformed(node, r@, old(self).module.package_map@),
            impl_positions(node, r@, old(self).module.package_map@, old(self).ns.next as nat, final(self).ns.next as nat),
            impl_diagnosed(node, old(self).module.package_map@, old(self).ns.next as nat, old(self).diags@, final(self).diags@),
            final(self).module == old(self).module,
            final(self).ns.next >= old(self).ns.next,
    {
        let ghost ns0 = self.ns.next as nat;
        let ghost entries = self.module.package_map@;
        let ghost d0 = self.diags@;
        let package = match &node.self_ty {
            TypeExpr::Path(p) => self.package_of(&p.name),
            _ => {
                return single(Item::Impl(node));
            },
        };
        let package = match package {
            Some(s) => s,
            None => {
                match &node.self_ty {
                    TypeExpr::Path(p) => {
                        self.diags.push(Diagnostic::new(DiagnosticKind::UnresolvedPackage, p.name.clone(), None));
                        assert(self.diags@.drop_last() =~= d0);
                    },
                    _ => {},
                }
                return single(Item::Impl(node));
            },
        };
        let ImplBlock { attrs, generics, trait_name, self_ty, methods } = node;
        let ghost ms = methods@;
        let mut kept: Vec<Method> = Vec::new();
        let mut natives: Vec<Item> = Vec::new();
        let mut rest = methods;
        let n = rest.len();
        let mut i: usize = 0;
        proof { lemma_counts_empty(d0); }
        if let TypeExpr::Path(p) = &self_ty {
            while i < n
                invariant
                    n == ms.len(),
                    i <= n,
                    rest@ == ms.subrange(i as int, n as int),
                    natives@.len() == exported_before(ms, i as int),
                    forall|k: int| 0 <= k < natives@.len() ==> natives@[k] is Native,
                    kept@.len() == i - exported_before(ms, i as int),
                    forall|j: int| 0 <= j < i ==> method_placed_at(ms, j, kept@, natives@, *p, package@,
                        advanced(ns0, receivers_before(ms, j))),
                    added_counts(d0, self.diags@, 0, lacking_before(ms, i as int, *p), bad_types_before(ms, i as int),
                        overflow(ns0, receivers_before(ms, i as int))),
                    self.module.package_map@ == entries,
                    ns0 == old(self).ns.next,
                    self.ns.next == advanced(ns0, receivers_before(ms, i as int)),
                    self.module == old(self).module,
                decreases n - i,
            {
                let m = rest.remove(0);
                assert(m == ms[i as int]);
                let ghost d1 = self.diags@;
                let ghost lo = self.ns.next as nat;
                let ghost rb = receivers_before(ms, i as int);
                proof { lemma_overflow_split(ns0, rb, receivers_of(ms[i as int])); }
                let ghost kept0 = kept@;
                let ghost natives0 = natives@;
                match classify(m.public, m.marker) {
                    Role::Exported => {
                        let f = rewrite_exported(m, p, &p.name, &package, &mut self.ns, &mut self.diags);
                        assert(native_of(ms[i as int], f, *p, p.name@, package@, lo));
                        natives.push(Item::Native(f));
                        proof {
                            lemma_counts_trans(d0, d1, self.diags@, 0, lacking_before(ms, i as int, *p), bad_types_before(ms, i as int),
                                overflow(ns0, rb),
                                0, if lacks_env_for(ms[i as int], *p) { 1nat } else { 0nat },
                                bad_param_types(ms[i as int].inputs@) + bad_output_type(ms[i as int].output),
                                overflow(lo, receivers_of(ms[i as int])));
                        }
                    },
                    Role::Imported => {
                        let r = rewrite_imported(m, p, &p.name, &mut self.ns, &mut self.diags);
                        assert(imported_of(ms[i as int], r, *p, p.name@, lo));
                        kept.push(r);
                        proof {
                            lemma_counts_trans(d0, d1, self.diags@, 0, lacking_before(ms, i as int, *p), bad_types_before(ms, i as int),
                                overflow(ns0, rb), 0, 0, 0, overflow(lo, receivers_of(ms[i as int])));
                        }
                    },
                    Role::Unexported => {
                        kept.push(m);
                        proof {
                            lemma_counts_empty(d1);
                            lemma_counts_trans(d0, d1, self.diags@, 0, lacking_before(ms, i as int, *p), bad_types_before(ms, i as int),
                                overflow(ns0, rb), 0, 0, 0, 0);
                        }
                    },
                }
                proof {
                    assert(kept0.len() <= kept@.len());
                    assert(natives0.len() <= natives@.len());
                    assert(forall|k: int| 0 <= k < kept0.len() ==> kept@[k] == kept0[k]);
                    assert(forall|k: int| 0 <= k < natives0.len() ==> natives@[k] == natives0[k]);
                    assert forall|j: int| 0 <= j <= i implies method_placed_at(ms, j, kept@, natives@, *p, package@,
                        advanced(ns0, receivers_before(ms, j))) by {
                        if j < i {
                            assert(method_placed_at(ms, j, kept0, natives0, *p, package@, advanced(ns0, receivers_before(ms, j))));
                            lemma_exported_before_monotone(ms, j, i as int);
                            lemma_exported_before_monotone(ms, 0, j);
                            assert(kept0.len() == i - exported_before(ms, i as int));
                            let k = j - exported_before(ms, j);
                            let e = exported_before(ms, j) as int;
                            match role(ms[j]) {
                                Role::Unexported => {
                                    assert(role(ms[j]) != Role::Exported);
                                    assert(k < kept0.len());
                                    assert(kept@[k] == kept0[k]);
                                },
                                Role::Imported => {
                                    assert(kept@[k] == kept0[k]);
                                },
                                Role::Exported => {
                                    assert(natives@[e] == natives0[e]);
                                },
                            }
                        }
                    }
                    assert(rest@ =~= ms.subrange(i + 1, n as int));
                }
                i = i + 1;
            }
        }
        proof {
            let ghost sty = self_ty;
            if let TypeExpr::Path(p) = sty {
                assert forall|j: int| 0 <= j < n implies method_placed(ms, j, kept@, natives@, p, package@) by {
                    assert(method_placed_at(ms, j, kept@, natives@, p, package@, advanced(ns0, receivers_before(ms, j))));
                }
            }
        }
        let mut out: Vec<Item> = Vec::new();
        out.push(Item::Impl(ImplBlock { attrs, generics, trait_name, self_ty, methods: kept }));
        let ghost nat_seq = natives@;
        out.append(&mut natives);
        assert(out@.drop_first() =~= nat_seq);
        assert(forall|k: int| 1 <= k < out@.len() ==> out@[k] == nat_seq[k - 1]);
        out
    }

    /// A struct without its package marker.
    pub fn fold_item_struct(&self, node: StructItem) -> (r: StructItem)
        ensures
            struct_cleaned(node, r),
    {
        let StructItem { attrs, name, rest } = node;
        let marker = String::from_str("package");
        let mut kept: Vec<Attribute> = Vec::new();
        let mut others = attrs;
        let ghost all = others@;
        let n = others.len();
        let mut i: usize = 0;
        while i < n
            invariant
                n == all.len(),
                i <= n,
                others@ == all.subrange(i as int, n as int),
                kept@ == without_package(all.subrange(0, i as int)),
                marker@ == "package"@,
            decreases n - i,
        {
            let a = others.remove(0);
            assert(a == all[i as int]);
            assert(all.subrange(0, i + 1).drop_last() =~= all.subrange(0, i as int));
            if a.path != marker {
                kept.push(a);
            }
            assert(others@ =~= all.subrange(i + 1, n as int));
            i = i + 1;
        }
        assert(all.subrange(0, n as int) =~= all);
        StructItem { attrs: kept, name, rest }
    }

    /// One item, transformed: a method block becomes the block that stays
    /// and its native entry points, a module is walked, a struct loses its
    /// package marker, and anything else is kept.
    pub fn fold_item(&mut self, node: Item) -> (r: Vec<Item>)
        ensures
            item_folded(node, r@, old(self).module.package_map@),
            item_step(
                node,
                r@,
                old(self).module.package_map@,
                old(self).ns.next as nat,
                final(self).ns.next as nat,
                old(self).diags@,
                final(self).diags@,
            ),
            final(self).module == old(self).module,
            final(self).ns.next >= old(self).ns.next,
            extends(old(self).diags@, final(self).diags@),
        decreases node,
    {
        match node {
            Item::Impl(b) => {
                let ghost d0 = self.diags@;
                let ghost entries = self.module.package_map@;
                let ghost b0 = b;
                let ghost ns0 = self.ns.next as nat;
                let r = self.transform_item_impl(b);
                proof { lemma_impl_diagnosed_extends(b0, entries, ns0, d0, self.diags@); }
                r
            },
            Item::Struct(st) => {
                proof { lemma_count_empty(self.diags@, DiagnosticKind::UnresolvedPackage); }
                single(Item::Struct(self.fold_item_struct(st)))
            },
            Item::Mod(m) => {
                let ghost m0 = m;
                let ghost entries = self.module.package_map@;
                let ghost n0 = self.ns.next as nat;
                let ghost d0 = self.diags@;
                let n = self.fold_item_mod(m);
                proof {
                    let (groups, ns, ds) = choose|groups: Seq<Seq<Item>>, ns: Seq<nat>, ds: Seq<Seq<Diagnostic>>|
                        {
                            &&& groups.len() == m0.items@.len()
                            &&& ns.len() == groups.len() + 1
                            &&& ds.len() == groups.len() + 1
                            &&& ns[0] == n0
                            &&& ns[groups.len() as int] == self.ns.next as nat
                            &&& ds[0] == d0
                            &&& ds[groups.len() as int] == self.diags@
                            &&& n.items@ == groups.flatten()
                            &&& forall|j: int| 0 <= j < groups.len() ==> #[trigger] ns[j] <= ns[j + 1]
                            &&& forall|j: int|
                                0 <= j < m0.items@.len() ==> item_folded(#[trigger] m0.items@[j], groups[j], entries)
                                    && item_step(m0.items@[j], groups[j], entries, ns[j], ns[j + 1], ds[j], ds[j + 1])
                        };
                    assert(forall|j: int|
                        0 <= j < m0.items@.len() ==> item_step(#[trigger] m0.items@[j], groups[j], entries, ns[j], ns[j + 1], ds[j], ds[j + 1]));
                }
                single(Item::Mod(n))
            },
            other => {
                proof { lemma_count_empty(self.diags@, DiagnosticKind::UnresolvedPackage); }
                single(other)
            },
        }
    }

    /// Every item of `items`, transformed, in order.
    pub fn fold_items(&mut self, items: Vec<Item>) -> (r: Vec<Item>)
        ensures
            items_folded(items@, r@, old(self).module.package_map@),
            items_threaded(
                items@,
                r@,
                old(self).module.package_map@,
                old(self).ns.next as nat,
                final(self).ns.next as nat,
                old(self).diags@,
                final(self).diags@,
            ),
            final(self).module == old(self).module,
            final(self).ns.next >= old(self).ns.next,
            extends(old(self).diags@, final(self).diags@),
        decreases items,
    {
        let ghost all = items@;
        let ghost items0 = items;
        let ghost entries = self.module.package_map@;
        let ghost d0 = self.diags@;
        let ghost mut groups: Seq<Seq<Item>> = Seq::empty();
        let ghost mut nss: Seq<nat> = seq![self.ns.next as nat];
        let ghost mut dss: Seq<Seq<Diagnostic>> = seq![self.diags@];
        let mut out: Vec<Item> = Vec::new();
        let mut rest = items;
        let n = rest.len();
        let mut i: usize = 0;
        proof { lemma_count_empty(d0, DiagnosticKind::UnresolvedPackage); }
        while i < n
            invariant
                n == all.len(),
                all == items0@,
                items0 == items,
                i <= n,
                rest@ == all.subrange(i as int, n as int),
                groups.len() == i,
                out@ == groups.flatten(),
                forall|j: int| 0 <= j < i ==> item_folded(#[trigger] all[j], groups[j], entries),
                nss.len() == i + 1,
                dss.len() == i + 1,
                nss[0] == old(self).ns.next,
                dss[0] == old(self).diags@,
                nss[i as int] == self.ns.next,
                dss[i as int] == self.diags@,
                forall|j: int| 0 <= j < i ==> #[trigger] nss[j] <= nss[j + 1],
                forall|j: int| 0 <= j < i ==> item_step(#[trigger] all[j], groups[j], entries, nss[j], nss[j + 1], dss[j], dss[j + 1]),
                d0 == old(self).diags@,
                self.module.package_map@ == entries,
                self.module == old(self).module,
                self.ns.next >= old(self).ns.next,
                extends(d0, self.diags@),
            decreases n - i,
        {
            let it = rest.remove(0);
            assert(it == all[i as int]);
            proof {
                vstd::std_specs::vec::axiom_vec_index_decreases(items0, i as int);
            }
            let ghost d1 = self.diags@;
            let mut g = self.fold_item(it);
            let ghost gs = g@;
            proof {
                lemma_count_trans(d0, d1, self.diags@, DiagnosticKind::UnresolvedPackage);
                groups.lemma_flatten_push(gs);
                groups = groups.push(gs);
                nss = nss.push(self.ns.next as nat);
                dss = dss.push(self.diags@);
            }
            out.append(&mut g);
            assert(rest@ =~= all.subrange(i + 1, n as int));
            i = i + 1;
        }
        assert(groups.len() == all.len());
        assert(items_threaded(all, out@, entries, nss[0], nss[n as int], dss[0], dss[n as int]));
        out
    }

    /// A module with its items transformed and lint allowances for the
    /// generated names added.
    pub fn fold_item_mod(&mut self, node: ModItem) -> (r: ModItem)
        ensures
            mod_folded(node, r, old(self).module.package_map@),
            items_threaded(
                node.items@,
                r.items@,
                old(self).module.package_map@,
                old(self).ns.next as nat,
                final(self).ns.next as nat,
                old(self).diags@,
                final(self).diags@,
            ),
            final(self).module == old(self).module,
            final(self).ns.next >= old(self).ns.next,
            extends(old(self).diags@, final(self).diags@),
        decreases node,
    {
        let ModItem { attrs, name, items } = node;
        let ghost a0 = attrs@;
        let mut attrs = attrs;
        attrs.push(Attribute { path: String::from_str("allow"), args: String::from_str("non_snake_case") });
        attrs.push(Attribute { path: String::from_str("allow"), args: String::from_str("unused") });
        assert(attrs@.subrange(0, a0.len() as int) =~= a0);
        let items = self.fold_items(items);
        ModItem { attrs, name, items }
    }

    /// The whole module, transformed, with the bindings that generated code
    /// needs imported once at its top, and the diagnostics of the pass.
    pub fn transform_module(self) -> (r: (ModItem, Vec<Diagnostic>))
        ensures
            mod_header_folded(self.module.module_decl, r.0),
            items_folded(seq![Item::Bindings] + self.module.module_decl.items@, r.0.items@, self.module.package_map@),
            exists|n1: nat|
                #[trigger] items_threaded(
                    seq![Item::Bindings] + self.module.module_decl.items@,
                    r.0.items@,
                    self.module.package_map@,
                    self.ns.next as nat,
                    n1,
                    self.diags@,
                    r.1@,
                ),
            extends(self.diags@, r.1@),
    {
        let ghost ns_start = self.ns.next as nat;
        let ghost d_start = self.diags@;
        let ghost pm = self.module.package_map@;
        let ghost items_start = self.module.module_decl.items@;
        let ModTransformer { module, ns, diags } = self;
        let JNIBridgeModule { module_decl, package_map } = module;
        let ModItem { attrs, name, items } = module_decl;
        let mut with_use: Vec<Item> = Vec::new();
        with_use.push(Item::Bindings);
        let mut items = items;
        let ghost orig = items@;
        with_use.append(&mut items);
        assert(with_use@ =~= seq![Item::Bindings] + orig);
        // The declaration has been taken apart; the pass only reads the package map.
        let empty = ModItem { attrs: Vec::new(), name: String::new(), items: Vec::new() };
        let mut t = ModTransformer { module: JNIBridgeModule { module_decl: empty, package_map }, ns, diags };
        let m = t.fold_item_mod(ModItem { attrs, name, items: with_use });
        let ghost n1 = t.ns.next as nat;
        assert(orig == items_start);
        assert(items_threaded(seq![Item::Bindings] + items_start, m.items@, pm, ns_start, n1, d_start, t.diags@));
        let r = (m, t.diags);
        assert(items_threaded(seq![Item::Bindings] + items_start, r.0.items@, pm, ns_start, n1, d_start, r.1@));
        assert(exists|k: nat| #[trigger] items_threaded(seq![Item::Bindings] + items_start, r.0.items@, pm, ns_start, k, d_start, r.1@));
        r
    }
}

} // verus!

use robusta::classify::classify;
use robusta::model::{
    Attribute, CallType, Diagnostic, DiagnosticKind, FnArg, GenericParam, ImplBlock, Item,
    JNIBridgeModule, Marker, Method, ModItem, NativeFn, PackageEntry, Param, Projection, Role,
    Severity, StructItem, TypeExpr, TypePath,
};
use robusta::naming::{jni_method_name, Namespace};
use robusta::package::{split_java_path, JavaPath, JavaPathError};
use robusta::rewrite::{transform_generics, convert_type};
use robusta::transform::ModTransformer;

fn s(x: &str) -> String {
    x.to_string()
}

fn path(name: &str, lifetimes: &[&str]) -> TypePath {
    TypePath { name: s(name), lifetimes: lifetimes.iter().map(|l| s(l)).collect() }
}

fn named(name: &str) -> TypeExpr {
    TypeExpr::Path(path(name, &[]))
}

fn param(name: &str, ty: TypeExpr) -> FnArg {
    FnArg::Typed(Param { name: s(name), ty })
}

fn by_ref() -> FnArg {
    FnArg::Receiver { reference: true, lifetime: None, mutable: false }
}

fn method(name: &str, public: bool, marker: Marker, call_type: Option<CallType>, inputs: Vec<FnArg>, output: Option<TypeExpr>) -> Method {
    Method {
        attrs: vec![Attribute { path: s("inline"), args: s("") }],
        public,
        marker,
        call_type,
        name: s(name),
        generics: vec![],
        inputs,
        output,
        body: s("{ 0 }"),
    }
}

fn block(ty: TypePath, methods: Vec<Method>) -> ImplBlock {
    ImplBlock { attrs: vec![], generics: vec![], trait_name: None, self_ty: TypeExpr::Path(ty), methods }
}

fn transformer(items: Vec<Item>, packages: Vec<(&str, Option<&str>)>) -> ModTransformer {
    ModTransformer::new(JNIBridgeModule {
        module_decl: ModItem { attrs: vec![], name: s("jni"), items },
        package_map: packages
            .into_iter()
            .map(|(t, p)| PackageEntry { ty_name: s(t), package: p.map(s) })
            .collect(),
    })
}

fn natives(items: &[Item]) -> Vec<&NativeFn> {
    items.iter().filter_map(|i| if let Item::Native(f) = i { Some(f) } else { None }).collect()
}

fn count(diags: &[Diagnostic], kind: DiagnosticKind) -> usize {
    diags.iter().filter(|d| d.kind == kind).count()
}

#[test]
fn classification_covers_every_combination() {
    for public in [true, false] {
        for marker in [Marker::Jni, Marker::JavaCall, Marker::Plain] {
            let expected = if public && marker == Marker::Jni {
                Role::Exported
            } else if marker == Marker::JavaCall {
                Role::Imported
            } else {
                Role::Unexported
            };
            assert_eq!(classify(public, marker), expected);
        }
    }
    assert_eq!(classify(false, Marker::Jni), Role::Unexported);
    assert_eq!(classify(false, Marker::JavaCall), Role::Imported);
}

#[test]
fn symbol_name_of_exported_method() {
    assert_eq!(jni_method_name("com.example", "Foo", "bar"), "Java_com_example_Foo_bar");
    assert_eq!(jni_method_name("a.b.c", "T", "m"), "Java_a_b_c_T_m");
}

#[test]
fn exported_instance_method_becomes_native_entry_point() {
    let m = method("bar", true, Marker::Jni, None, vec![by_ref(), param("x", named("i32"))], Some(named("String")));
    let mut t = transformer(vec![Item::Impl(block(path("Foo", &[]), vec![m]))], vec![("Foo", Some("com.example"))]);
    let b = match t.module.module_decl.items.remove(0) {
        Item::Impl(b) => b,
        _ => unreachable!(),
    };
    let out = t.transform_item_impl(b);
    assert_eq!(out.len(), 2);
    match &out[0] {
        Item::Impl(b) => assert!(b.methods.is_empty()),
        _ => panic!("block expected first"),
    }
    let f = natives(&out)[0];
    assert_eq!(f.symbol, "Java_com_example_Foo_bar");
    assert_eq!(f.attrs, vec![Attribute { path: s("inline"), args: s("") }]);
    assert_eq!(f.body, "{ 0 }");
    assert_eq!(f.generics, vec![GenericParam::Lifetime(s("env"))]);
    match &f.inputs[0] {
        FnArg::Typed(p) => {
            assert_eq!(p.name, "receiver_Foo_bar_0");
            assert_eq!(
                p.ty,
                TypeExpr::Converted {
                    ty: Box::new(TypeExpr::Reference { lifetime: None, mutable: false, elem: Box::new(named("Foo")) }),
                    call_type: CallType::Safe,
                    projection: Projection::Source,
                }
            );
        }
        _ => panic!("receiver must be erased"),
    }
    assert_eq!(
        f.inputs[1],
        param("x", TypeExpr::Converted { ty: Box::new(named("i32")), call_type: CallType::Safe, projection: Projection::Source })
    );
    assert_eq!(
        f.output,
        Some(TypeExpr::Converted { ty: Box::new(named("String")), call_type: CallType::Safe, projection: Projection::Target })
    );
    assert!(t.diags.is_empty());
}

#[test]
fn receiver_names_are_unique_across_types() {
    let foo = block(path("Foo", &[]), vec![method("bar", true, Marker::Jni, None, vec![by_ref()], None)]);
    let foo2 = block(path("Foo", &[]), vec![method("bar", true, Marker::Jni, None, vec![by_ref()], None)]);
    let baz = block(path("Foo_bar", &[]), vec![method("0", false, Marker::JavaCall, None, vec![by_ref()], None)]);
    let t = transformer(
        vec![Item::Impl(foo), Item::Impl(foo2), Item::Impl(baz)],
        vec![("Foo", Some("p")), ("Foo_bar", Some("p"))],
    );
    let (m, diags) = t.transform_module();
    assert!(diags.is_empty());
    let mut names = Vec::new();
    for it in &m.items {
        match it {
            Item::Native(f) => {
                for a in &f.inputs {
                    if let FnArg::Typed(p) = a {
                        names.push(p.name.clone());
                    }
                }
            }
            Item::Impl(b) => {
                for me in &b.methods {
                    for a in &me.inputs {
                        if let FnArg::Typed(p) = a {
                            names.push(p.name.clone());
                        }
                    }
                }
            }
            _ => {}
        }
    }
    assert_eq!(names.len(), 3);
    let mut sorted = names.clone();
    sorted.sort();
    sorted.dedup();
    assert_eq!(sorted.len(), 3);
}

#[test]
fn namespace_issues_distinct_names() {
    let mut ns = Namespace::new();
    let a = ns.fresh("receiver_a_b").unwrap();
    let b = ns.fresh("receiver_a").unwrap();
    let c = ns.fresh("receiver_a_b").unwrap();
    assert_eq!(a, "receiver_a_b_0");
    assert_eq!(b, "receiver_a_1");
    assert_eq!(c, "receiver_a_b_2");
    assert_eq!(ns.next, 3);
    let mut full = Namespace { next: u64::MAX };
    assert_eq!(full.fresh("x"), None);
    let mut big = Namespace { next: 1234567 };
    assert_eq!(big.fresh("r").unwrap(), "r_1234567");
}

#[test]
fn env_generic_is_appended_once_after_struct_lifetimes() {
    let p = path("Foo", &["a", "env"]);
    let g = transform_generics(vec![GenericParam::Type(s("T"))], &p, true);
    assert_eq!(
        g,
        vec![GenericParam::Type(s("T")), GenericParam::Lifetime(s("a")), GenericParam::Lifetime(s("env"))]
    );
    let g2 = transform_generics(vec![], &p, false);
    assert_eq!(g2, vec![GenericParam::Lifetime(s("env"))]);
    assert_eq!(g.iter().filter(|x| **x == GenericParam::Lifetime(s("env"))).count(), 1);
}

#[test]
fn call_type_only_changes_the_conversion_family() {
    let make = |ct| method("bar", true, Marker::Jni, ct, vec![param("x", named("String"))], Some(named("bool")));
    let run = |m: Method| {
        let mut t = transformer(vec![], vec![("Foo", Some("p"))]);
        let out = t.transform_item_impl(block(path("Foo", &[]), vec![m]));
        match out.into_iter().nth(1) {
            Some(Item::Native(f)) => f,
            _ => panic!("native expected"),
        }
    };
    let safe = run(make(Some(CallType::Safe)));
    let defaulted = run(make(None));
    let unchecked = run(make(Some(CallType::Unchecked)));
    assert_eq!(safe, defaulted);
    assert_eq!(safe.symbol, unchecked.symbol);
    assert_eq!(safe.generics, unchecked.generics);
    assert_eq!(
        unchecked.inputs[0],
        param("x", TypeExpr::Converted { ty: Box::new(named("String")), call_type: CallType::Unchecked, projection: Projection::Source })
    );
    assert_eq!(
        unchecked.output,
        Some(TypeExpr::Converted { ty: Box::new(named("bool")), call_type: CallType::Unchecked, projection: Projection::Target })
    );
    assert_eq!(
        safe.inputs[0],
        param("x", TypeExpr::Converted { ty: Box::new(named("String")), call_type: CallType::Safe, projection: Projection::Source })
    );
}

#[test]
fn non_nominal_types_are_reported() {
    let (t, ok) = convert_type(TypeExpr::Other(s("(i32, i32)")), CallType::Safe, Projection::Target);
    assert!(!ok);
    assert_eq!(t, TypeExpr::Other(s("(i32, i32)")));
    let m = method("bar", true, Marker::Jni, None, vec![param("x", TypeExpr::Other(s("[u8]")))], Some(TypeExpr::Other(s("()"))));
    let mut tr = transformer(vec![], vec![("Foo", Some("p"))]);
    let _ = tr.transform_item_impl(block(path("Foo", &[]), vec![m]));
    assert_eq!(count(&tr.diags, DiagnosticKind::NonNominalType), 2);
    assert!(tr.diags.iter().all(|d| d.severity == Severity::Error));
}

#[test]
fn unexported_methods_stay_identical() {
    let plain = method("helper", false, Marker::Plain, None, vec![by_ref()], Some(TypeExpr::Other(s("(u8,)"))));
    let private_jni = method("hidden", false, Marker::Jni, Some(CallType::Unchecked), vec![], None);
    let exported = method("bar", true, Marker::Jni, None, vec![], None);
    let expected = vec![
        method("helper", false, Marker::Plain, None, vec![by_ref()], Some(TypeExpr::Other(s("(u8,)")))),
        method("hidden", false, Marker::Jni, Some(CallType::Unchecked), vec![], None),
    ];
    let mut t = transformer(vec![], vec![("Foo", Some("p"))]);
    let out = t.transform_item_impl(block(path("Foo", &[]), vec![plain, exported, private_jni]));
    assert_eq!(out.len(), 2);
    match &out[0] {
        Item::Impl(b) => assert_eq!(b.methods, expected),
        _ => panic!(),
    }
}

#[test]
fn imported_method_keeps_signature_but_names_receiver() {
    let m = method("call", false, Marker::JavaCall, None, vec![by_ref(), param("x", named("i32"))], Some(named("i32")));
    let mut t = transformer(vec![], vec![("Foo", Some("p"))]);
    let out = t.transform_item_impl(block(path("Foo", &["env"]), vec![m]));
    assert_eq!(out.len(), 1);
    match &out[0] {
        Item::Impl(b) => {
            let me = &b.methods[0];
            assert_eq!(me.output, Some(named("i32")));
            assert_eq!(me.inputs[1], param("x", named("i32")));
            assert_eq!(
                me.inputs[0],
                param(
                    "receiver_Foo_call_0",
                    TypeExpr::Reference { lifetime: None, mutable: false, elem: Box::new(TypeExpr::Path(path("Foo", &["env"]))) }
                )
            );
        }
        _ => panic!(),
    }
}

#[test]
fn unresolved_type_is_left_alone_with_one_warning() {
    let mk = || block(path("Bar", &[]), vec![method("bar", true, Marker::Jni, None, vec![by_ref()], None)]);
    let mut t = transformer(vec![], vec![("Bar", None)]);
    let out = t.transform_item_impl(mk());
    assert_eq!(out, vec![Item::Impl(mk())]);
    assert_eq!(t.diags.len(), 1);
    assert_eq!(t.diags[0].severity, Severity::Warning);
    assert_eq!(t.diags[0].kind, DiagnosticKind::UnresolvedPackage);
    assert_eq!(t.diags[0].ty_name, "Bar");
    assert!(natives(&out).is_empty());
    let mut t2 = transformer(vec![], vec![]);
    let out2 = t2.transform_item_impl(mk());
    assert_eq!(out2, vec![Item::Impl(mk())]);
    assert_eq!(t2.diags.len(), 1);
}

#[test]
fn missing_env_lifetime_is_one_error_and_the_pass_goes_on() {
    let bad = block(path("Foo", &["a"]), vec![method("bar", true, Marker::Jni, None, vec![by_ref()], None)]);
    let good = block(path("Baz", &[]), vec![method("qux", true, Marker::Jni, None, vec![], None)]);
    let st = StructItem { attrs: vec![Attribute { path: s("package"), args: s("com.example") }], name: s("Baz"), rest: s("{}") };
    let t = transformer(
        vec![Item::Impl(bad), Item::Struct(st), Item::Impl(good)],
        vec![("Foo", Some("p")), ("Baz", Some("com.example"))],
    );
    let (m, diags) = t.transform_module();
    assert_eq!(diags.len(), 1);
    assert_eq!(diags[0].kind, DiagnosticKind::MissingEnvLifetime);
    assert_eq!(diags[0].severity, Severity::Error);
    assert_eq!(diags[0].method, Some(s("bar")));
    let symbols: Vec<String> = natives(&m.items).iter().map(|f| f.symbol.clone()).collect();
    assert_eq!(symbols, vec![s("Java_p_Foo_bar"), s("Java_com_example_Baz_qux")]);
    let f = natives(&m.items)[0];
    assert_eq!(f.generics, vec![GenericParam::Lifetime(s("a")), GenericParam::Lifetime(s("env"))]);
}

#[test]
fn module_gets_bindings_once_and_structs_lose_package_marker() {
    let st = StructItem {
        attrs: vec![Attribute { path: s("package"), args: s("com.example") }, Attribute { path: s("derive"), args: s("Clone") }],
        name: s("Foo"),
        rest: s("{}"),
    };
    let inner = ModItem { attrs: vec![], name: s("inner"), items: vec![Item::Other(s("const X: u8 = 1;"))] };
    let t = transformer(vec![Item::Struct(st), Item::Mod(inner), Item::Other(s("fn f() {}"))], vec![]);
    let (m, diags) = t.transform_module();
    assert!(diags.is_empty());
    assert_eq!(m.name, "jni");
    assert_eq!(
        m.attrs,
        vec![Attribute { path: s("allow"), args: s("non_snake_case") }, Attribute { path: s("allow"), args: s("unused") }]
    );
    assert_eq!(m.items.len(), 4);
    assert_eq!(m.items[0], Item::Bindings);
    assert_eq!(m.items.iter().filter(|i| **i == Item::Bindings).count(), 1);
    assert_eq!(
        m.items[1],
        Item::Struct(StructItem { attrs: vec![Attribute { path: s("derive"), args: s("Clone") }], name: s("Foo"), rest: s("{}") })
    );
    match &m.items[2] {
        Item::Mod(n) => {
            assert_eq!(n.items, vec![Item::Other(s("const X: u8 = 1;"))]);
            assert_eq!(n.attrs.len(), 2);
        }
        _ => panic!(),
    }
    assert_eq!(m.items[3], Item::Other(s("fn f() {}")));
}

#[test]
fn package_lookup_takes_first_entry() {
    let t = transformer(vec![], vec![("Foo", Some("a.b")), ("Foo", Some("c"))]);
    assert_eq!(t.package_of(&s("Foo")), Some(s("a.b")));
    assert_eq!(t.package_of(&s("Bar")), None);
}

#[test]
fn java_paths_are_checked() {
    assert_eq!(JavaPath::from_value("com.example").unwrap(), JavaPath(s("com.example")));
    assert_eq!(JavaPath::from_value("com-example").unwrap_err(), JavaPathError::ContainsDash);
    assert_eq!(JavaPath::from_value("com.fn").unwrap_err(), JavaPathError::NotAPath);
    assert_eq!(JavaPath::from_value("com..x").unwrap_err(), JavaPathError::NotAPath);
    assert_eq!(JavaPath::from_value("").unwrap_err(), JavaPathError::NotAPath);
    assert_eq!(JavaPath::from_value("a.b1._c").unwrap(), JavaPath(s("a.b1._c")));
    assert_eq!(split_java_path("a.bc."), vec![s("a"), s("bc"), s("")]);
    assert_eq!(split_java_path(""), vec![s("")]);
}

#[test]
fn diagnostics_carry_readable_messages() {
    let d = Diagnostic::new(DiagnosticKind::UnresolvedPackage, s("Foo"), None);
    assert_eq!(d.severity, Severity::Warning);
    assert_eq!(d.message(), "can't find package for type `Foo`");
    let e = Diagnostic::new(DiagnosticKind::MissingEnvLifetime, s("Bar"), Some(s("m")));
    assert_eq!(e.severity, Severity::Error);
    assert_eq!(e.message(), "type `Bar` must carry exactly one environment lifetime to support instance methods");
    let n = Diagnostic::new(DiagnosticKind::NonNominalType, s("Bar"), Some(s("m")));
    assert_eq!(n.message(), "only named types or references to named types are permitted here");
}

#[test]
fn receivers_in_one_block_get_distinct_names() {
    let ms = vec![
        method("a", true, Marker::Jni, None, vec![by_ref()], None),
        method("a", false, Marker::JavaCall, None, vec![FnArg::Receiver { reference: false, lifetime: None, mutable: false }], None),
        method("b", true, Marker::Jni, None, vec![param("self", named("Foo"))], None),
    ];
    let mut t = transformer(vec![], vec![("Foo", Some("p"))]);
    let out = t.transform_item_impl(block(path("Foo", &["env"]), ms));
    let f = natives(&out);
    assert_eq!(f.len(), 2);
    assert_eq!(f[0].inputs[0], param("receiver_Foo_a_0", TypeExpr::Converted {
        ty: Box::new(TypeExpr::Reference { lifetime: None, mutable: false, elem: Box::new(TypeExpr::Path(path("Foo", &["env"]))) }),
        call_type: CallType::Safe,
        projection: Projection::Source,
    }));
    assert_eq!(f[1].inputs[0], param("receiver_Foo_b_2", TypeExpr::Converted {
        ty: Box::new(named("Foo")),
        call_type: CallType::Safe,
        projection: Projection::Source,
    }));
    match &out[0] {
        Item::Impl(b) => assert_eq!(b.methods[0].inputs[0], param("receiver_Foo_a_1", TypeExpr::Path(path("Foo", &["env"])))),
        _ => panic!(),
    }
    assert_eq!(f[0].generics, vec![GenericParam::Lifetime(s("env"))]);
    assert_eq!(t.ns.next, 3);
}

#[test]
fn method_own_env_is_not_duplicated() {
    let p = path("Foo", &["env", "a"]);
    let g = transform_generics(
        vec![GenericParam::Lifetime(s("env")), GenericParam::Type(s("T"))],
        &p,
        true,
    );
    assert_eq!(
        g,
        vec![GenericParam::Type(s("T")), GenericParam::Lifetime(s("a")), GenericParam::Lifetime(s("env"))]
    );
}

#[test]
fn exhausted_namespace_is_reported_once_per_receiver() {
    let m = method("bar", true, Marker::Jni, None, vec![by_ref()], None);
    let mut t = transformer(vec![], vec![("Foo", Some("p"))]);
    t.ns.next = u64::MAX;
    let out = t.transform_item_impl(block(path("Foo", &[]), vec![m]));
    assert_eq!(out.len(), 2);
    assert_eq!(t.diags.len(), 1);
    assert_eq!(t.diags[0].kind, DiagnosticKind::NamespaceExhausted);
    assert_eq!(t.diags[0].severity, Severity::Error);
    assert_eq!(t.ns.next, u64::MAX);
}

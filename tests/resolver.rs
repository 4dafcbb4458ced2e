use modtree::{Path, ResolveError, Resolver, Visibility};

fn path(absolute: bool, namespaces: &[&str], name: &str) -> Path {
    Path {
        absolute,
        namespaces: namespaces.iter().map(|s| s.to_string()).collect(),
        name: name.to_string(),
    }
}

struct Scenario {
    r: Resolver,
    foo: usize,
    nested: usize,
    inner: usize,
    bar: usize,
    nested_fn: usize,
    deeply_nested_fn: usize,
}

fn scenario() -> Scenario {
    let mut r = Resolver::new();
    let root = r.root();
    let foo = r.declare(root, "foo".to_string()).unwrap();
    let nested = r.declare(foo, "nested".to_string()).unwrap();
    let inner = r.declare(nested, "inner".to_string()).unwrap();
    let bar = r.declare(root, "bar".to_string()).unwrap();
    let nested_fn = r
        .define_symbol(nested, "nested_fn".to_string(), Visibility::Public, 1)
        .unwrap();
    let deeply_nested_fn = r
        .define_symbol(inner, "deeply_nested_fn".to_string(), Visibility::Private, 2)
        .unwrap();
    Scenario { r, foo, nested, inner, bar, nested_fn, deeply_nested_fn }
}

#[test]
fn nested_scenario_with_re_export() {
    let mut s = scenario();
    let alias = s.r.re_export(
        &path(false, &["inner"], "deeply_nested_fn"),
        s.nested,
        "deeply_nested_fn".to_string(),
    );
    assert_eq!(alias, Ok(s.deeply_nested_fn));
    assert_eq!(
        s.r.resolve(s.bar, &path(true, &["foo", "nested"], "nested_fn")),
        Ok(s.nested_fn)
    );
    assert_eq!(
        s.r.resolve(s.bar, &path(true, &["foo", "nested", "inner"], "deeply_nested_fn")),
        Err(ResolveError::VisibilityDenied)
    );
    assert_eq!(
        s.r.resolve(s.bar, &path(true, &["foo", "nested"], "deeply_nested_fn")),
        Ok(s.deeply_nested_fn)
    );
    assert_eq!(s.r.action_of(s.deeply_nested_fn), Some(2));
}

#[test]
fn public_symbol_resolves_from_every_namespace() {
    let s = scenario();
    let p = path(true, &["foo", "nested"], "nested_fn");
    for from in [s.r.root(), s.foo, s.nested, s.inner, s.bar] {
        assert_eq!(s.r.resolve(from, &p), Ok(s.nested_fn));
    }
}

#[test]
fn private_symbol_resolves_only_below_its_namespace() {
    let s = scenario();
    let p = path(true, &["foo", "nested", "inner"], "deeply_nested_fn");
    assert_eq!(s.r.resolve(s.inner, &p), Ok(s.deeply_nested_fn));
    for from in [s.r.root(), s.foo, s.nested, s.bar] {
        assert_eq!(s.r.resolve(from, &p), Err(ResolveError::VisibilityDenied));
    }
}

#[test]
fn private_symbol_visible_in_descendants() {
    let mut r = Resolver::new();
    let a = r.declare(r.root(), "a".to_string()).unwrap();
    let b = r.declare(a, "b".to_string()).unwrap();
    let c = r.declare(b, "c".to_string()).unwrap();
    let s = r.define_symbol(a, "secret".to_string(), Visibility::Private, 7).unwrap();
    assert_eq!(r.resolve(c, &path(true, &["a"], "secret")), Ok(s));
    assert_eq!(r.resolve(b, &path(true, &["a"], "secret")), Ok(s));
}

#[test]
fn re_export_of_private_symbol_from_unrelated_namespace_is_denied() {
    let mut s = scenario();
    let result = s.r.re_export(
        &path(true, &["foo", "nested", "inner"], "deeply_nested_fn"),
        s.bar,
        "stolen".to_string(),
    );
    assert_eq!(result, Err(ResolveError::VisibilityDenied));
    assert_eq!(
        s.r.resolve(s.bar, &path(true, &["bar"], "stolen")),
        Err(ResolveError::UnresolvedPath)
    );
}

#[test]
fn re_export_of_public_symbol_from_anywhere_is_allowed() {
    let mut s = scenario();
    let result = s.r.re_export(
        &path(true, &["foo", "nested"], "nested_fn"),
        s.bar,
        "nested_fn".to_string(),
    );
    assert_eq!(result, Ok(s.nested_fn));
    assert_eq!(s.r.resolve(s.r.root(), &path(true, &["bar"], "nested_fn")), Ok(s.nested_fn));
}

#[test]
fn re_export_resolves_to_same_symbol_as_original() {
    let mut s = scenario();
    let alias = s
        .r
        .re_export(&path(true, &["foo", "nested"], "nested_fn"), s.foo, "renamed".to_string())
        .unwrap();
    let direct = s.r.resolve(s.bar, &path(true, &["foo", "nested"], "nested_fn")).unwrap();
    let through = s.r.resolve(s.bar, &path(true, &["foo"], "renamed")).unwrap();
    assert_eq!(alias, direct);
    assert_eq!(through, direct);
    assert_eq!(s.r.action_of(through), Some(1));
}

#[test]
fn chained_re_export_is_checked_at_original_definition() {
    let mut s = scenario();
    s.r.re_export(
        &path(false, &["inner"], "deeply_nested_fn"),
        s.nested,
        "deeply_nested_fn".to_string(),
    )
    .unwrap();
    let result = s.r.re_export(
        &path(true, &["foo", "nested"], "deeply_nested_fn"),
        s.bar,
        "again".to_string(),
    );
    assert_eq!(result, Err(ResolveError::VisibilityDenied));
    let lifted = s.r.re_export(
        &path(false, &["nested"], "deeply_nested_fn"),
        s.foo,
        "lifted".to_string(),
    );
    assert_eq!(lifted, Ok(s.deeply_nested_fn));
}

#[test]
fn declare_duplicate_namespace_fails() {
    let mut s = scenario();
    assert_eq!(
        s.r.declare(s.foo, "nested".to_string()),
        Err(ResolveError::DuplicateNamespace)
    );
    let other = s.r.declare(s.bar, "nested".to_string());
    assert_eq!(other, Ok(5));
}

#[test]
fn define_duplicate_symbol_fails() {
    let mut s = scenario();
    assert_eq!(
        s.r.define_symbol(s.nested, "nested_fn".to_string(), Visibility::Private, 9),
        Err(ResolveError::DuplicateSymbol)
    );
    assert_eq!(
        s.r.define_symbol(s.bar, "nested_fn".to_string(), Visibility::Private, 9),
        Ok(2)
    );
}

#[test]
fn re_export_onto_bound_name_fails() {
    let mut s = scenario();
    let result = s.r.re_export(
        &path(false, &["inner"], "deeply_nested_fn"),
        s.nested,
        "nested_fn".to_string(),
    );
    assert_eq!(result, Err(ResolveError::DuplicateSymbol));
}

#[test]
fn unresolved_paths() {
    let mut s = scenario();
    assert_eq!(
        s.r.resolve(s.bar, &path(true, &["foo", "missing"], "nested_fn")),
        Err(ResolveError::UnresolvedPath)
    );
    assert_eq!(
        s.r.resolve(s.bar, &path(true, &["foo", "nested"], "missing")),
        Err(ResolveError::UnresolvedPath)
    );
    assert_eq!(
        s.r.resolve(99, &path(true, &["foo", "nested"], "nested_fn")),
        Err(ResolveError::UnresolvedPath)
    );
    assert_eq!(s.r.declare(99, "x".to_string()), Err(ResolveError::UnresolvedPath));
    assert_eq!(
        s.r.define_symbol(99, "x".to_string(), Visibility::Public, 0),
        Err(ResolveError::UnresolvedPath)
    );
    assert_eq!(
        s.r.re_export(&path(true, &["nope"], "x"), s.bar, "x".to_string()),
        Err(ResolveError::UnresolvedPath)
    );
}

#[test]
fn relative_paths_start_at_calling_namespace() {
    let s = scenario();
    assert_eq!(
        s.r.resolve(s.foo, &path(false, &["nested"], "nested_fn")),
        Ok(s.nested_fn)
    );
    assert_eq!(
        s.r.resolve(s.bar, &path(false, &["nested"], "nested_fn")),
        Err(ResolveError::UnresolvedPath)
    );
    assert_eq!(
        s.r.resolve(s.inner, &path(false, &[], "deeply_nested_fn")),
        Ok(s.deeply_nested_fn)
    );
}

#[test]
fn declared_ids_and_symbol_details() {
    let s = scenario();
    assert_eq!(s.r.root(), 0);
    assert_eq!((s.foo, s.nested, s.inner, s.bar), (1, 2, 3, 4));
    assert_eq!((s.nested_fn, s.deeply_nested_fn), (0, 1));
    assert_eq!(s.r.visibility_of(s.nested_fn), Some(Visibility::Public));
    assert_eq!(s.r.visibility_of(s.deeply_nested_fn), Some(Visibility::Private));
    assert_eq!(s.r.namespace_of(s.deeply_nested_fn), Some(s.inner));
    assert_eq!(s.r.action_of(s.nested_fn), Some(1));
    assert_eq!(s.r.action_of(5), None);
    assert_eq!(s.r.namespace_of(5), None);
}

#[test]
fn re_export_binding_is_no_defined_symbol() {
    let mut s = scenario();
    s.r.re_export(&path(false, &["inner"], "deeply_nested_fn"), s.nested, "alias".to_string())
        .unwrap();
    assert_eq!(s.r.visibility_of(2), None);
    assert_eq!(s.r.action_of(2), None);
    assert_eq!(s.r.namespace_of(2), Some(s.nested));
}

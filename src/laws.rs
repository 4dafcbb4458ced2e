use vstd::prelude::*;

use crate::model::{
    is_binding, is_child, lemma_push_binding, locate, re_export_outcome, related, resolution,
    symbol_of, walk, wf, within, BindingKind, BindingModel, Model, PathModel, ResolveError,
    Visibility,
};

verus! {

/// The names of the namespaces from the root down to namespace `n`.
pub open spec fn path_to(m: Model, n: nat) -> Seq<Seq<char>>
    decreases n,
{
    if 0 < n < m.namespaces.len() {
        match m.namespaces[n as int].parent {
            Some(p) => if p < n {
                path_to(m, p).push(m.namespaces[n as int].name)
            } else {
                Seq::empty()
            },
            None => Seq::empty(),
        }
    } else {
        Seq::empty()
    }
}

/// The path from the root to binding `b`.
pub open spec fn binding_path(m: Model, b: nat) -> PathModel {
    PathModel {
        absolute: true,
        namespaces: path_to(m, m.bindings[b as int].namespace),
        name: m.bindings[b as int].name,
    }
}

/// Walking the names from the root down to a namespace reaches that namespace.
pub proof fn lemma_walk_path_to(m: Model, n: nat)
    requires
        wf(m),
        n < m.namespaces.len(),
    ensures
        walk(m, 0, path_to(m, n)) == Some(n),
    decreases n,
{
    if n > 0 {
        assert(m.namespaces[n as int].parent matches Some(p) && p < n);
        let p = m.namespaces[n as int].parent->Some_0;
        lemma_walk_path_to(m, p);
        let name = m.namespaces[n as int].name;
        assert(path_to(m, n).drop_last() =~= path_to(m, p));
        assert(is_child(m, n, p, name));
        let c = choose|i: nat| is_child(m, i, p, name);
        assert(is_child(m, c, p, name));
    }
}

/// The path from the root to a binding locates that binding from anywhere.
pub proof fn lemma_locate_binding_path(m: Model, b: nat, r: nat)
    requires
        wf(m),
        b < m.bindings.len(),
    ensures
        locate(m, r, binding_path(m, b)) == Some(b),
{
    let ns = m.bindings[b as int].namespace;
    let name = m.bindings[b as int].name;
    lemma_walk_path_to(m, ns);
    assert(is_binding(m, b, ns, name));
    let c = choose|i: nat| is_binding(m, i, ns, name);
    assert(is_binding(m, c, ns, name));
}

/// A public symbol resolves, by its path from the root, from every namespace.
pub proof fn public_symbol_resolves_anywhere(m: Model, s: nat, r: nat)
    requires
        wf(m),
        s < m.bindings.len(),
        m.bindings[s as int].kind matches BindingKind::Defined {
            visibility: Visibility::Public,
            ..
        },
        r < m.namespaces.len(),
    ensures
        resolution(m, r, binding_path(m, s)) == Ok::<nat, ResolveError>(s),
{
    lemma_locate_binding_path(m, s, r);
}

/// A private symbol resolves, by its path from the root, exactly from its
/// defining namespace and the namespaces below it; from anywhere else the
/// resolution is denied.
pub proof fn private_symbol_resolves_within(m: Model, s: nat, r: nat)
    requires
        wf(m),
        s < m.bindings.len(),
        m.bindings[s as int].kind matches BindingKind::Defined {
            visibility: Visibility::Private,
            ..
        },
        r < m.namespaces.len(),
    ensures
        resolution(m, r, binding_path(m, s)) == if within(m, m.bindings[s as int].namespace, r) {
            Ok::<nat, ResolveError>(s)
        } else {
            Err(ResolveError::VisibilityDenied)
        },
{
    lemma_locate_binding_path(m, s, r);
}

/// Re-exporting a private symbol into a namespace that lies on no common
/// path from the root with its defining namespace is denied when the
/// re-export is made.
pub proof fn private_re_export_denied(m: Model, source: PathModel, t: nat, name: Seq<char>)
    requires
        wf(m),
        t < m.namespaces.len(),
        locate(m, t, source) matches Some(b) && m.bindings[symbol_of(m, b) as int].kind matches BindingKind::Defined {
            visibility: Visibility::Private,
            ..
        } && !related(m, m.bindings[symbol_of(m, b) as int].namespace, t),
    ensures
        re_export_outcome(m, source, t, name) == Err::<nat, ResolveError>(
            ResolveError::VisibilityDenied,
        ),
{
}

/// After a successful re-export, the new name resolves from every namespace
/// to the very symbol it was bound to, and wherever the symbol's own path
/// resolves, it resolves to that same symbol.
pub proof fn re_export_resolves_to_source(
    m: Model,
    source: PathModel,
    t: nat,
    name: Seq<char>,
    r: nat,
)
    requires
        wf(m),
        m.bindings.len() <= usize::MAX,
        re_export_outcome(m, source, t, name) is Ok,
        r < m.namespaces.len(),
    ensures
        ({
            let s = re_export_outcome(m, source, t, name)->Ok_0;
            let m2 = Model {
                namespaces: m.namespaces,
                bindings: m.bindings.push(
                    BindingModel {
                        namespace: t,
                        name,
                        kind: BindingKind::ReExported { target: s as usize },
                    },
                ),
            };
            &&& wf(m2)
            &&& resolution(m2, r, PathModel { absolute: true, namespaces: path_to(m2, t), name })
                == Ok::<nat, ResolveError>(s)
            &&& resolution(m2, r, binding_path(m2, s)) is Ok ==> resolution(
                m2,
                r,
                binding_path(m2, s),
            ) == Ok::<nat, ResolveError>(s)
        }),
{
    let b = locate(m, t, source)->Some_0;
    let s = re_export_outcome(m, source, t, name)->Ok_0;
    let kind = BindingKind::ReExported { target: s as usize };
    let m2 = Model {
        namespaces: m.namespaces,
        bindings: m.bindings.push(BindingModel { namespace: t, name, kind }),
    };
    assert(b < m.bindings.len());
    assert(symbol_of(m, b) < m.bindings.len() && m.bindings[symbol_of(m, b) as int].kind is Defined);
    lemma_push_binding(m, t, name, kind);
    let a = m.bindings.len();
    assert(binding_path(m2, a) == PathModel { absolute: true, namespaces: path_to(m2, t), name });
    lemma_locate_binding_path(m2, a, r);
    lemma_locate_binding_path(m2, s, r);
    assert(m2.bindings[s as int] == m.bindings[s as int]);
}

} // verus!

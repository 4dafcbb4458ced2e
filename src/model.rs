use vstd::prelude::*;

verus! {

/// Who may resolve a defined symbol.
#[derive(Debug, Clone, Copy, PartialEq, Eq, Structural)]
pub enum Visibility {
    /// Resolvable from every namespace.
    Public,
    /// Resolvable only from the defining namespace and its descendants.
    Private,
}

/// The ways in which building or querying a namespace tree can fail.
#[derive(Debug, Clone, Copy, PartialEq, Eq, Structural)]
pub enum ResolveError {
    /// The parent already has a child namespace of that name.
    DuplicateNamespace,
    /// The namespace already binds that name.
    DuplicateSymbol,
    /// A namespace or a name on the path does not exist.
    UnresolvedPath,
    /// The symbol exists but is private to a namespace the caller is not in.
    VisibilityDenied,
}

/// What a name bound in a namespace stands for.
#[derive(Debug, Clone, Copy, PartialEq, Eq, Structural)]
pub enum BindingKind {
    /// A symbol defined here, with its visibility and an opaque action handle.
    Defined { visibility: Visibility, action: u64 },
    /// Another name for the symbol defined by binding `target`.
    ReExported { target: usize },
}

/// A namespace as the contracts see it: its name and its parent (none for the root).
pub struct NamespaceModel {
    pub name: Seq<char>,
    pub parent: Option<nat>,
}

/// A binding as the contracts see it: the namespace that holds it, its name and kind.
pub struct BindingModel {
    pub namespace: nat,
    pub name: Seq<char>,
    pub kind: BindingKind,
}

/// The whole tree: namespaces by id, bindings by id. A symbol is identified
/// by the id of the binding that defined it.
pub struct Model {
    pub namespaces: Seq<NamespaceModel>,
    pub bindings: Seq<BindingModel>,
}

/// A path as the contracts see it: from the root or from the calling
/// namespace, through the namespaces named, to the binding `name`.
pub struct PathModel {
    pub absolute: bool,
    pub namespaces: Seq<Seq<char>>,
    pub name: Seq<char>,
}

/// An optional executable id, seen as a mathematical one.
pub open spec fn opt_nat(o: Option<usize>) -> Option<nat> {
    match o {
        Some(p) => Some(p as nat),
        None => None,
    }
}

/// Namespace `i` is a child of `p` named `name`.
pub open spec fn is_child(m: Model, i: nat, p: nat, name: Seq<char>) -> bool {
    &&& i < m.namespaces.len()
    &&& m.namespaces[i as int].parent == Some(p)
    &&& m.namespaces[i as int].name == name
}

/// Binding `i` binds `name` in namespace `ns`.
pub open spec fn is_binding(m: Model, i: nat, ns: nat, name: Seq<char>) -> bool {
    &&& i < m.bindings.len()
    &&& m.bindings[i as int].namespace == ns
    &&& m.bindings[i as int].name == name
}

/// Well-formedness: one root with no parent, every other namespace has an
/// earlier parent, sibling names and the names bound in one namespace are
/// unique, and a re-export stands for a defined symbol.
pub open spec fn wf(m: Model) -> bool {
    &&& m.namespaces.len() >= 1
    &&& m.namespaces[0].parent is None
    &&& forall|i: int|
        0 < i < m.namespaces.len() ==> ((#[trigger] m.namespaces[i]).parent matches Some(p)
            && p < i)
    &&& forall|i: nat, j: nat, p: nat, name: Seq<char>|
        #![trigger is_child(m, i, p, name), is_child(m, j, p, name)]
        is_child(m, i, p, name) && is_child(m, j, p, name) ==> i == j
    &&& forall|i: int|
        0 <= i < m.bindings.len() ==> (#[trigger] m.bindings[i]).namespace < m.namespaces.len()
    &&& forall|i: nat, j: nat, ns: nat, name: Seq<char>|
        #![trigger is_binding(m, i, ns, name), is_binding(m, j, ns, name)]
        is_binding(m, i, ns, name) && is_binding(m, j, ns, name) ==> i == j
    &&& forall|i: int|
        0 <= i < m.bindings.len() ==> match (#[trigger] m.bindings[i]).kind {
            BindingKind::ReExported { target } => target < m.bindings.len()
                && m.bindings[target as int].kind is Defined,
            BindingKind::Defined { .. } => true,
        }
}

/// The child of `p` named `name`, if there is one.
pub open spec fn child(m: Model, p: nat, name: Seq<char>) -> Option<nat> {
    if exists|i: nat| is_child(m, i, p, name) {
        Some(choose|i: nat| is_child(m, i, p, name))
    } else {
        None
    }
}

/// The binding of `name` in namespace `ns`, if there is one.
pub open spec fn lookup(m: Model, ns: nat, name: Seq<char>) -> Option<nat> {
    if exists|i: nat| is_binding(m, i, ns, name) {
        Some(choose|i: nat| is_binding(m, i, ns, name))
    } else {
        None
    }
}

/// The namespace reached from `start` by following the child names `segs`.
pub open spec fn walk(m: Model, start: nat, segs: Seq<Seq<char>>) -> Option<nat>
    decreases segs.len(),
{
    if segs.len() == 0 {
        if start < m.namespaces.len() {
            Some(start)
        } else {
            None
        }
    } else {
        match walk(m, start, segs.drop_last()) {
            Some(n) => child(m, n, segs.last()),
            None => None,
        }
    }
}

/// `d` lies on the path from the root to `r` (`r` itself included).
pub open spec fn within(m: Model, d: nat, r: nat) -> bool
    decreases r,
{
    if r == d {
        r < m.namespaces.len()
    } else if r < m.namespaces.len() {
        match m.namespaces[r as int].parent {
            Some(p) => p < r && within(m, d, p),
            None => false,
        }
    } else {
        false
    }
}

/// One of `a` and `b` lies on the other's path from the root.
pub open spec fn related(m: Model, a: nat, b: nat) -> bool {
    within(m, a, b) || within(m, b, a)
}

/// The symbol that binding `b` stands for.
pub open spec fn symbol_of(m: Model, b: nat) -> nat {
    match m.bindings[b as int].kind {
        BindingKind::ReExported { target } => target as nat,
        BindingKind::Defined { .. } => b,
    }
}

/// Defined symbol `s` may be resolved from namespace `r`.
pub open spec fn visible(m: Model, s: nat, r: nat) -> bool {
    match m.bindings[s as int].kind {
        BindingKind::Defined { visibility: Visibility::Private, .. } => within(
            m,
            m.bindings[s as int].namespace,
            r,
        ),
        _ => true,
    }
}

/// The binding that `path` names when read from namespace `r`, ignoring visibility.
pub open spec fn locate(m: Model, r: nat, path: PathModel) -> Option<nat> {
    let start = if path.absolute {
        0
    } else {
        r
    };
    match walk(m, start, path.namespaces) {
        Some(ns) => lookup(m, ns, path.name),
        None => None,
    }
}

/// The outcome of resolving `path` from namespace `r`: a defined symbol is
/// checked against its visibility, a re-export stands for its target.
pub open spec fn resolution(m: Model, r: nat, path: PathModel) -> Result<nat, ResolveError> {
    if r >= m.namespaces.len() {
        Err(ResolveError::UnresolvedPath)
    } else {
        match locate(m, r, path) {
            None => Err(ResolveError::UnresolvedPath),
            Some(b) => match m.bindings[b as int].kind {
                BindingKind::ReExported { target } => Ok(target as nat),
                BindingKind::Defined { .. } => if visible(m, b, r) {
                    Ok(b)
                } else {
                    Err(ResolveError::VisibilityDenied)
                },
            },
        }
    }
}


/// A result over executable ids, seen with mathematical ids.
pub open spec fn nat_result(r: Result<usize, ResolveError>) -> Result<nat, ResolveError> {
    match r {
        Ok(v) => Ok(v as nat),
        Err(e) => Err(e),
    }
}

/// The outcome of declaring a child `name` under namespace `parent`: the new
/// namespace gets the next id.
pub open spec fn declaration(m: Model, parent: nat, name: Seq<char>) -> Result<nat, ResolveError> {
    if parent >= m.namespaces.len() {
        Err(ResolveError::UnresolvedPath)
    } else if child(m, parent, name) is Some {
        Err(ResolveError::DuplicateNamespace)
    } else {
        Ok(m.namespaces.len())
    }
}

/// The outcome of defining a symbol `name` in namespace `ns`: the symbol is
/// identified by the id of its new binding.
pub open spec fn definition(m: Model, ns: nat, name: Seq<char>) -> Result<nat, ResolveError> {
    if ns >= m.namespaces.len() {
        Err(ResolveError::UnresolvedPath)
    } else if lookup(m, ns, name) is Some {
        Err(ResolveError::DuplicateSymbol)
    } else {
        Ok(m.bindings.len())
    }
}

/// Namespace `t` may re-export symbol `s`: it is public, or `t` and the
/// namespace that defined it lie on one path from the root.
pub open spec fn may_re_export(m: Model, s: nat, t: nat) -> bool {
    match m.bindings[s as int].kind {
        BindingKind::Defined { visibility: Visibility::Private, .. } => related(
            m,
            m.bindings[s as int].namespace,
            t,
        ),
        _ => true,
    }
}

/// The outcome of re-exporting what `source` names (read from `t`) under
/// `name` in namespace `t`: the symbol it stands for.
pub open spec fn re_export_outcome(m: Model, source: PathModel, t: nat, name: Seq<char>) -> Result<
    nat,
    ResolveError,
> {
    if t >= m.namespaces.len() {
        Err(ResolveError::UnresolvedPath)
    } else {
        match locate(m, t, source) {
            None => Err(ResolveError::UnresolvedPath),
            Some(b) => if !may_re_export(m, symbol_of(m, b), t) {
                Err(ResolveError::VisibilityDenied)
            } else if lookup(m, t, name) is Some {
                Err(ResolveError::DuplicateSymbol)
            } else {
                Ok(symbol_of(m, b))
            },
        }
    }
}

/// Binding a name that is fresh in `ns` keeps the tree well formed.
pub proof fn lemma_push_binding(m0: Model, ns: nat, name: Seq<char>, kind: BindingKind)
    requires
        wf(m0),
        ns < m0.namespaces.len(),
        lookup(m0, ns, name) is None,
        kind matches BindingKind::ReExported { target } ==> target < m0.bindings.len()
            && m0.bindings[target as int].kind is Defined,
    ensures
        wf(
            Model {
                namespaces: m0.namespaces,
                bindings: m0.bindings.push(BindingModel { namespace: ns, name, kind }),
            },
        ),
{
    let m1 = Model {
        namespaces: m0.namespaces,
        bindings: m0.bindings.push(BindingModel { namespace: ns, name, kind }),
    };
    let id = m0.bindings.len();
    assert forall|i: nat, j: nat, p: nat, n: Seq<char>|
        is_child(m1, i, p, n) && is_child(m1, j, p, n) implies i == j by {
        assert(is_child(m0, i, p, n) && is_child(m0, j, p, n));
    }
    assert forall|i: nat, j: nat, d: nat, n: Seq<char>|
        is_binding(m1, i, d, n) && is_binding(m1, j, d, n) implies i == j by {
        if i != j && (i == id || j == id) {
            let k = if i == id {
                j
            } else {
                i
            };
            assert(is_binding(m0, k, ns, name));
        } else if i != j {
            assert(is_binding(m0, i, d, n) && is_binding(m0, j, d, n));
        }
    }
    assert forall|i: int| 0 <= i < m1.bindings.len() implies match (
    #[trigger] m1.bindings[i]).kind {
        BindingKind::ReExported { target } => target < m1.bindings.len()
            && m1.bindings[target as int].kind is Defined,
        BindingKind::Defined { .. } => true,
    } by {
        if i < id {
            assert(m1.bindings[i] == m0.bindings[i]);
        }
    }
}

} // verus!

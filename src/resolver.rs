use vstd::prelude::*;

use crate::model::{
    child, declaration, definition, is_binding, is_child, lemma_push_binding, locate, lookup,
    nat_result, opt_nat, re_export_outcome, resolution, walk, wf, within, BindingKind,
    BindingModel, Model, NamespaceModel, PathModel, ResolveError, Visibility,
};

verus! {

struct Namespace {
    name: String,
    parent: Option<usize>,
}

impl View for Namespace {
    type V = NamespaceModel;

    closed spec fn view(&self) -> NamespaceModel {
        NamespaceModel { name: self.name@, parent: opt_nat(self.parent) }
    }
}

struct Binding {
    namespace: usize,
    name: String,
    kind: BindingKind,
}

impl View for Binding {
    type V = BindingModel;

    closed spec fn view(&self) -> BindingModel {
        BindingModel { namespace: self.namespace as nat, name: self.name@, kind: self.kind }
    }
}

/// A path to a binding: from the root when `absolute`, else from the
/// calling namespace, through `namespaces`, to the binding `name`.
pub struct Path {
    pub absolute: bool,
    pub namespaces: Vec<String>,
    pub name: String,
}

impl View for Path {
    type V = PathModel;

    open spec fn view(&self) -> PathModel {
        PathModel {
            absolute: self.absolute,
            namespaces: self.namespaces@.map_values(|s: String| s@),
            name: self.name@,
        }
    }
}

/// A namespace tree: namespaces and bindings stored by id, the root at id 0.
pub struct Resolver {
    namespaces: Vec<Namespace>,
    bindings: Vec<Binding>,
}

impl View for Resolver {
    type V = Model;

    closed spec fn view(&self) -> Model {
        Model {
            namespaces: self.namespaces@.map_values(|n: Namespace| n@),
            bindings: self.bindings@.map_values(|b: Binding| b@),
        }
    }
}

proof fn lemma_walk_step(m: Model, start: nat, segs: Seq<Seq<char>>, i: int)
    requires
        0 <= i < segs.len(),
    ensures
        walk(m, start, segs.subrange(0, i + 1)) == match walk(m, start, segs.subrange(0, i)) {
            Some(n) => child(m, n, segs[i]),
            None => None,
        },
{
    assert(segs.subrange(0, i + 1).drop_last() =~= segs.subrange(0, i));
}

proof fn lemma_walk_stuck(m: Model, start: nat, segs: Seq<Seq<char>>, i: int)
    requires
        0 <= i <= segs.len(),
        walk(m, start, segs.subrange(0, i)) is None,
    ensures
        walk(m, start, segs) is None,
    decreases segs.len() - i,
{
    if i == segs.len() {
        assert(segs.subrange(0, i) =~= segs);
    } else {
        lemma_walk_step(m, start, segs, i);
        lemma_walk_stuck(m, start, segs, i + 1);
    }
}

impl Resolver {
    /// A tree that holds the root namespace alone.
    pub fn new() -> (r: Resolver)
        ensures
            wf(r@),
            r@.namespaces.len() == 1,
            r@.bindings.len() == 0,
    {
        let mut namespaces: Vec<Namespace> = Vec::new();
        namespaces.push(Namespace { name: String::new(), parent: None });
        let r = Resolver { namespaces, bindings: Vec::new() };
        assert forall|i: nat, j: nat, p: nat, name: Seq<char>|
            is_child(r@, i, p, name) && is_child(r@, j, p, name) implies i == j by {}
        r
    }

    /// The id of the root namespace.
    pub fn root(&self) -> (r: usize)
        ensures
            r == 0,
    {
        0
    }

    /// The child of `parent` named `name`.
    fn find_child(&self, parent: usize, name: &String) -> (r: Option<usize>)
        requires
            wf(self@),
        ensures
            opt_nat(r) == child(self@, parent as nat, name@),
    {
        let mut i: usize = 0;
        while i < self.namespaces.len()
            invariant
                wf(self@),
                i <= self.namespaces.len(),
                forall|k: nat| k < i ==> !is_child(self@, k, parent as nat, name@),
            decreases self.namespaces.len() - i,
        {
            let hit = match self.namespaces[i].parent {
                Some(q) => q == parent && self.namespaces[i].name == *name,
                None => false,
            };
            if hit {
                assert(is_child(self@, i as nat, parent as nat, name@));
                return Some(i);
            }
            i += 1;
        }
        None
    }

    /// The binding of `name` in namespace `ns`.
    fn find_binding(&self, ns: usize, name: &String) -> (r: Option<usize>)
        requires
            wf(self@),
        ensures
            opt_nat(r) == lookup(self@, ns as nat, name@),
    {
        let mut i: usize = 0;
        while i < self.bindings.len()
            invariant
                wf(self@),
                i <= self.bindings.len(),
                forall|k: nat| k < i ==> !is_binding(self@, k, ns as nat, name@),
            decreases self.bindings.len() - i,
        {
            if self.bindings[i].namespace == ns && self.bindings[i].name == *name {
                assert(is_binding(self@, i as nat, ns as nat, name@));
                return Some(i);
            }
            i += 1;
        }
        None
    }

    /// The namespace reached from `start` through the child names `segs`.
    fn walk_from(&self, start: usize, segs: &Vec<String>) -> (r: Option<usize>)
        requires
            wf(self@),
            start < self@.namespaces.len(),
        ensures
            opt_nat(r) == walk(self@, start as nat, segs@.map_values(|s: String| s@)),
    {
        let ghost sv = segs@.map_values(|s: String| s@);
        let mut cur: usize = start;
        let mut i: usize = 0;
        assert(sv.subrange(0, 0).len() == 0);
        while i < segs.len()
            invariant
                wf(self@),
                i <= segs.len(),
                sv == segs@.map_values(|s: String| s@),
                cur < self@.namespaces.len(),
                walk(self@, start as nat, sv.subrange(0, i as int)) == Some(cur as nat),
            decreases segs.len() - i,
        {
            proof {
                lemma_walk_step(self@, start as nat, sv, i as int);
            }
            match self.find_child(cur, &segs[i]) {
                Some(c) => {
                    cur = c;
                },
                None => {
                    proof {
                        lemma_walk_stuck(self@, start as nat, sv, i + 1);
                    }
                    return None;
                },
            }
            i += 1;
        }
        assert(sv.subrange(0, i as int) =~= sv);
        Some(cur)
    }

    /// Whether `d` lies on the path from the root to `r`.
    fn is_within(&self, d: usize, r: usize) -> (b: bool)
        requires
            wf(self@),
            r < self@.namespaces.len(),
        ensures
            b == within(self@, d as nat, r as nat),
    {
        let mut cur: usize = r;
        while cur != d
            invariant
                wf(self@),
                cur < self@.namespaces.len(),
                within(self@, d as nat, r as nat) == within(self@, d as nat, cur as nat),
            decreases cur,
        {
            assert(cur == 0 || self@.namespaces[cur as int].parent is Some);
            match self.namespaces[cur].parent {
                Some(p) => {
                    cur = p;
                },
                None => {
                    return false;
                },
            }
        }
        true
    }

    /// The binding that `path` names when read from `calling`.
    fn locate_binding(&self, calling: usize, path: &Path) -> (r: Option<usize>)
        requires
            wf(self@),
            calling < self@.namespaces.len(),
        ensures
            opt_nat(r) == locate(self@, calling as nat, path@),
    {
        let start = if path.absolute {
            0
        } else {
            calling
        };
        match self.walk_from(start, &path.namespaces) {
            Some(ns) => self.find_binding(ns, &path.name),
            None => None,
        }
    }

    /// Resolves `path` from namespace `calling`. A defined symbol is checked
    /// against its visibility from `calling`; a re-export stands for the
    /// symbol it was bound to. The result identifies the defined symbol.
    pub fn resolve(&self, calling: usize, path: &Path) -> (r: Result<usize, ResolveError>)
        requires
            wf(self@),
        ensures
            nat_result(r) == resolution(self@, calling as nat, path@),
    {
        if calling >= self.namespaces.len() {
            return Err(ResolveError::UnresolvedPath);
        }
        let b = match self.locate_binding(calling, path) {
            Some(b) => b,
            None => {
                return Err(ResolveError::UnresolvedPath);
            },
        };
        match self.bindings[b].kind {
            BindingKind::ReExported { target } => Ok(target),
            BindingKind::Defined { visibility, .. } => match visibility {
                Visibility::Public => Ok(b),
                Visibility::Private => {
                    if self.is_within(self.bindings[b].namespace, calling) {
                        Ok(b)
                    } else {
                        Err(ResolveError::VisibilityDenied)
                    }
                },
            },
        }
    }

    /// Creates a child namespace `name` under `parent`. A sibling of the same
    /// name makes it fail with `DuplicateNamespace`.
    pub fn declare(&mut self, parent: usize, name: String) -> (r: Result<usize, ResolveError>)
        requires
            wf(old(self)@),
        ensures
            wf(final(self)@),
            nat_result(r) == declaration(old(self)@, parent as nat, name@),
            r is Ok ==> final(self)@ == (Model {
                namespaces: old(self)@.namespaces.push(
                    NamespaceModel { name: name@, parent: Some(parent as nat) },
                ),
                bindings: old(self)@.bindings,
            }),
            r is Err ==> final(self)@ == old(self)@,
    {
        if parent >= self.namespaces.len() {
            return Err(ResolveError::UnresolvedPath);
        }
        if self.find_child(parent, &name).is_some() {
            return Err(ResolveError::DuplicateNamespace);
        }
        let ghost m0 = self@;
        let id = self.namespaces.len();
        self.namespaces.push(Namespace { name, parent: Some(parent) });
        let ghost nm = NamespaceModel { name: name@, parent: Some(parent as nat) };
        assert(self@.namespaces =~= m0.namespaces.push(nm));
        assert(self@.bindings =~= m0.bindings);
        assert forall|i: nat, j: nat, p: nat, n: Seq<char>|
            is_child(self@, i, p, n) && is_child(self@, j, p, n) implies i == j by {
            if i != j && (i == id || j == id) {
                let k = if i == id {
                    j
                } else {
                    i
                };
                assert(is_child(m0, k, parent as nat, name@));
            } else if i != j {
                assert(is_child(m0, i, p, n) && is_child(m0, j, p, n));
            }
        }
        assert forall|i: nat, j: nat, ns: nat, n: Seq<char>|
            is_binding(self@, i, ns, n) && is_binding(self@, j, ns, n) implies i == j by {
            assert(is_binding(m0, i, ns, n) && is_binding(m0, j, ns, n));
        }
        Ok(id)
    }

    /// Defines symbol `name` in namespace `ns` with the given visibility and
    /// action handle. A name already bound there makes it fail with
    /// `DuplicateSymbol`.
    pub fn define_symbol(
        &mut self,
        ns: usize,
        name: String,
        visibility: Visibility,
        action: u64,
    ) -> (r: Result<usize, ResolveError>)
        requires
            wf(old(self)@),
        ensures
            wf(final(self)@),
            nat_result(r) == definition(old(self)@, ns as nat, name@),
            r is Ok ==> final(self)@ == (Model {
                namespaces: old(self)@.namespaces,
                bindings: old(self)@.bindings.push(
                    BindingModel {
                        namespace: ns as nat,
                        name: name@,
                        kind: BindingKind::Defined { visibility, action },
                    },
                ),
            }),
            r is Err ==> final(self)@ == old(self)@,
    {
        if ns >= self.namespaces.len() {
            return Err(ResolveError::UnresolvedPath);
        }
        if self.find_binding(ns, &name).is_some() {
            return Err(ResolveError::DuplicateSymbol);
        }
        let ghost m0 = self@;
        let id = self.bindings.len();
        let kind = BindingKind::Defined { visibility, action };
        self.bindings.push(Binding { namespace: ns, name, kind });
        proof {
            assert(self.bindings@.map_values(|b: Binding| b@) =~= m0.bindings.push(
                BindingModel { namespace: ns as nat, name: name@, kind },
            ));
            assert(self.namespaces@.map_values(|n: Namespace| n@) =~= m0.namespaces);
            lemma_push_binding(m0, ns as nat, name@, kind);
        }
        Ok(id)
    }

    /// Binds `name` in namespace `target` to the symbol that `source` names
    /// when read from `target`. A private symbol may be re-exported only by
    /// a namespace on the same path from the root as its defining namespace.
    pub fn re_export(&mut self, source: &Path, target: usize, name: String) -> (r: Result<
        usize,
        ResolveError,
    >)
        requires
            wf(old(self)@),
        ensures
            wf(final(self)@),
            nat_result(r) == re_export_outcome(old(self)@, source@, target as nat, name@),
            r matches Ok(s) ==> final(self)@ == (Model {
                namespaces: old(self)@.namespaces,
                bindings: old(self)@.bindings.push(
                    BindingModel {
                        namespace: target as nat,
                        name: name@,
                        kind: BindingKind::ReExported { target: s },
                    },
                ),
            }),
            r is Err ==> final(self)@ == old(self)@,
    {
        if target >= self.namespaces.len() {
            return Err(ResolveError::UnresolvedPath);
        }
        let b = match self.locate_binding(target, source) {
            Some(b) => b,
            None => {
                return Err(ResolveError::UnresolvedPath);
            },
        };
        let s = match self.bindings[b].kind {
            BindingKind::ReExported { target } => target,
            BindingKind::Defined { .. } => b,
        };
        let allowed = match self.bindings[s].kind {
            BindingKind::Defined { visibility: Visibility::Private, .. } => {
                let d = self.bindings[s].namespace;
                self.is_within(d, target) || self.is_within(target, d)
            },
            _ => true,
        };
        if !allowed {
            return Err(ResolveError::VisibilityDenied);
        }
        if self.find_binding(target, &name).is_some() {
            return Err(ResolveError::DuplicateSymbol);
        }
        let ghost m0 = self@;
        let kind = BindingKind::ReExported { target: s };
        self.bindings.push(Binding { namespace: target, name, kind });
        proof {
            assert(self.bindings@.map_values(|b: Binding| b@) =~= m0.bindings.push(
                BindingModel { namespace: target as nat, name: name@, kind },
            ));
            assert(self.namespaces@.map_values(|n: Namespace| n@) =~= m0.namespaces);
            lemma_push_binding(m0, target as nat, name@, kind);
        }
        Ok(s)
    }


    /// The action handle of defined symbol `s`; `None` where `s` is no defined symbol.
    pub fn action_of(&self, s: usize) -> (r: Option<u64>)
        ensures
            r == (if s < self@.bindings.len() {
                match self@.bindings[s as int].kind {
                    BindingKind::Defined { action, .. } => Some(action),
                    _ => None,
                }
            } else {
                None
            }),
    {
        if s >= self.bindings.len() {
            return None;
        }
        match self.bindings[s].kind {
            BindingKind::Defined { action, .. } => Some(action),
            _ => None,
        }
    }

    /// The visibility of defined symbol `s`; `None` where `s` is no defined symbol.
    pub fn visibility_of(&self, s: usize) -> (r: Option<Visibility>)
        ensures
            r == (if s < self@.bindings.len() {
                match self@.bindings[s as int].kind {
                    BindingKind::Defined { visibility, .. } => Some(visibility),
                    _ => None,
                }
            } else {
                None
            }),
    {
        if s >= self.bindings.len() {
            return None;
        }
        match self.bindings[s].kind {
            BindingKind::Defined { visibility, .. } => Some(visibility),
            _ => None,
        }
    }

    /// The namespace that holds binding `b`; `None` where there is no such binding.
    pub fn namespace_of(&self, b: usize) -> (r: Option<usize>)
        ensures
            opt_nat(r) == (if b < self@.bindings.len() {
                Some(self@.bindings[b as int].namespace)
            } else {
                None
            }),
    {
        if b >= self.bindings.len() {
            return None;
        }
        Some(self.bindings[b].namespace)
    }
}

} // verus!

//! The registry of watch specifications, keyed by the watched path, and the
//! search that leads from a changed path back to its registration.

use crate::path::{PathModel, SavePath};
use crate::save::{SaveDef, SaveModel};
use vstd::prelude::*;
use vstd::string::*;

verus! {

/// Whether `p` is a registered path.
pub open spec fn has_path(reg: Seq<SaveModel>, p: PathModel) -> bool {
    exists|i: int| 0 <= i < reg.len() && (#[trigger] reg[i]).path == p
}

/// Whether no path is registered twice.
pub open spec fn distinct_paths(reg: Seq<SaveModel>) -> bool {
    forall|i: int, j: int|
        0 <= i < reg.len() && 0 <= j < reg.len() && (#[trigger] reg[i]).path == (
        #[trigger] reg[j]).path ==> i == j
}

/// The specification registered under `p`.
pub open spec fn entry_of(reg: Seq<SaveModel>, p: PathModel) -> SaveModel
    recommends
        has_path(reg, p),
{
    reg[choose|i: int| 0 <= i < reg.len() && (#[trigger] reg[i]).path == p]
}

/// The registry after `def` was offered: unchanged where its path is
/// registered already, else with `def` behind the others.
pub open spec fn registered(reg: Seq<SaveModel>, def: SaveModel) -> Seq<SaveModel> {
    if has_path(reg, def.path) {
        reg
    } else {
        reg.push(def)
    }
}

/// The registered paths, in the order of their registration.
pub open spec fn paths_of(reg: Seq<SaveModel>) -> Seq<PathModel> {
    Seq::new(reg.len(), |i: int| reg[i].path)
}

/// The first registered path among `p`'s ancestors of at most `n` names,
/// the longest first.
pub open spec fn resolve_from(reg: Seq<SaveModel>, p: PathModel, n: int) -> Option<PathModel>
    decreases n + 1,
{
    if n < 0 {
        None
    } else if has_path(reg, p.ancestor(n)) {
        Some(p.ancestor(n))
    } else {
        resolve_from(reg, p, n - 1)
    }
}

/// The registration that governs `p`: `p` itself where it is registered,
/// else its nearest registered ancestor, if there is one.
pub open spec fn resolve(reg: Seq<SaveModel>, p: PathModel) -> Option<PathModel> {
    resolve_from(reg, p, p.names.len() as int)
}

/// What the search finds among the ancestors of at most `n` names: the
/// longest registered one, or nothing where none is registered.
pub proof fn lemma_resolve_from(reg: Seq<SaveModel>, p: PathModel, n: int)
    requires
        n <= p.names.len(),
    ensures
        match resolve_from(reg, p, n) {
            Some(k) => {
                &&& 0 <= k.names.len() <= n
                &&& k == p.ancestor(k.names.len() as int)
                &&& has_path(reg, k)
                &&& forall|j: int| k.names.len() < j <= n ==> !has_path(reg, p.ancestor(j))
            },
            None => forall|j: int| 0 <= j <= n ==> !has_path(reg, p.ancestor(j)),
        },
    decreases n + 1,
{
    if n >= 0 && !has_path(reg, p.ancestor(n)) {
        lemma_resolve_from(reg, p, n - 1);
    }
}

/// A changed path resolves to the registered root above it: where `root` is
/// registered, `p` is `root` or lies under it at any depth, and no
/// registration lies deeper on the way to `p`, resolving `p` gives `root`.
pub proof fn lemma_resolves_to_root(reg: Seq<SaveModel>, root: PathModel, p: PathModel)
    requires
        has_path(reg, root),
        root.contains_path(p),
        forall|q: PathModel| #[trigger]
            has_path(reg, q) && q.contains_path(p) ==> q.names.len() <= root.names.len(),
    ensures
        resolve(reg, p) == Some(root),
{
    lemma_resolve_from(reg, p, p.names.len() as int);
    let k = resolve_from(reg, p, p.names.len() as int).unwrap();
    assert(k.contains_path(p));
}

/// A path that no registered path lies above, and that is not registered
/// itself, does not resolve.
pub proof fn lemma_outside_fails(reg: Seq<SaveModel>, p: PathModel)
    requires
        forall|q: PathModel| #[trigger] has_path(reg, q) ==> !q.contains_path(p),
    ensures
        resolve(reg, p).is_none(),
{
    lemma_resolve_from(reg, p, p.names.len() as int);
    if resolve(reg, p).is_some() {
        let k = resolve(reg, p).unwrap();
        assert(k.contains_path(p));
    }
}

/// Of two nested registrations the inner one takes precedence: where `outer`
/// lies strictly above `inner`, both are registered and `p` is `inner` or
/// lies under it, resolving `p` gives a registration at least as deep as
/// `inner`, and so never `outer`.
pub proof fn lemma_innermost_wins(
    reg: Seq<SaveModel>,
    outer: PathModel,
    inner: PathModel,
    p: PathModel,
)
    requires
        has_path(reg, outer),
        has_path(reg, inner),
        outer.contains_path(inner),
        outer != inner,
        inner.contains_path(p),
    ensures
        resolve(reg, p).is_some(),
        inner.contains_path(resolve(reg, p).unwrap()),
        resolve(reg, p) != Some(outer),
{
    lemma_resolve_from(reg, p, p.names.len() as int);
    let n = inner.names.len() as int;
    assert(p.ancestor(n) == inner);
    let k = resolve(reg, p).unwrap();
    let m = k.names.len() as int;
    assert(p.names.take(m).take(n) =~= p.names.take(n));
    assert(k.ancestor(n) == inner);
    if outer.names.len() == inner.names.len() {
        assert(inner.names.take(n) =~= inner.names);
    }
}

/// The registry: watch specifications, no two under the same path.
pub struct Registry {
    entries: Vec<SaveDef>,
}

impl View for Registry {
    type V = Seq<SaveModel>;

    closed spec fn view(&self) -> Seq<SaveModel> {
        Seq::new(self.entries@.len(), |i: int| self.entries@[i]@)
    }
}

impl Registry {
    /// No path is registered twice.
    #[verifier::type_invariant]
    pub open spec fn inv(self) -> bool {
        distinct_paths(self@)
    }

    /// An empty registry.
    pub fn new() -> (r: Registry)
        ensures
            r@ == Seq::<SaveModel>::empty(),
            distinct_paths(r@),
    {
        let entries: Vec<SaveDef> = Vec::new();
        assert(Seq::new(entries@.len(), |i: int| entries@[i]@) =~= Seq::<SaveModel>::empty());
        Registry { entries }
    }

    /// The number of registrations.
    pub fn len(&self) -> (r: usize)
        ensures
            r == self@.len(),
    {
        self.entries.len()
    }

    /// The position of the registration under `p`.
    fn position(&self, p: &SavePath) -> (r: Option<usize>)
        ensures
            match r {
                Some(i) => i < self@.len() && self@[i as int].path == p@,
                None => !has_path(self@, p@),
            },
    {
        let mut i: usize = 0;
        while i < self.entries.len()
            invariant
                i <= self.entries.len(),
                forall|j: int| 0 <= j < i ==> self@[j].path != p@,
            decreases self.entries.len() - i,
        {
            if self.entries[i].path.same_as(p) {
                return Some(i);
            }
            i += 1;
        }
        None
    }

    /// Tells whether `p` is a registered path.
    pub fn contains_key(&self, p: &SavePath) -> (r: bool)
        ensures
            r == has_path(self@, p@),
    {
        self.position(p).is_some()
    }

    /// The specification registered under `p`.
    pub fn get(&self, p: &SavePath) -> (r: Option<&SaveDef>)
        ensures
            match r {
                Some(d) => has_path(self@, p@) && d@ == entry_of(self@, p@),
                None => !has_path(self@, p@),
            },
    {
        proof {
            use_type_invariant(self);
        }
        match self.position(p) {
            Some(i) => {
                assert(self@[i as int].path == p@);
                Some(&self.entries[i])
            },
            None => None,
        }
    }

    /// Registers `def` unless its path is registered already. Returns
    /// whether it was added.
    pub fn insert(&mut self, def: SaveDef) -> (r: bool)
        ensures
            final(self)@ == registered(old(self)@, def@),
            r == !has_path(old(self)@, def@.path),
            distinct_paths(final(self)@),
    {
        proof {
            use_type_invariant(&*self);
        }
        if self.contains_key(&def.path) {
            false
        } else {
            let ghost before = self@;
            let mut entries: Vec<SaveDef> = Vec::new();
            core::mem::swap(&mut self.entries, &mut entries);
            entries.push(def);
            let ghost after = Seq::new(entries@.len(), |i: int| entries@[i]@);
            proof {
                assert(after =~= before.push(def@));
                assert forall|i: int, j: int|
                    0 <= i < after.len() && 0 <= j < after.len() && (#[trigger] after[i]).path == (
                    #[trigger] after[j]).path implies i == j by {
                    if i < before.len() {
                        assert(before[i] == after[i]);
                    }
                    if j < before.len() {
                        assert(before[j] == after[j]);
                    }
                }
            }
            self.entries = entries;
            true
        }
    }

    /// The registered paths, in the order of their registration.
    pub fn paths(&self) -> (r: Vec<SavePath>)
        ensures
            r@.len() == self@.len(),
            forall|i: int| 0 <= i < r@.len() ==> (#[trigger] r@[i])@ == self@[i].path,
    {
        let mut out: Vec<SavePath> = Vec::new();
        let mut i: usize = 0;
        while i < self.entries.len()
            invariant
                i <= self.entries.len(),
                out@.len() == i,
                forall|j: int| 0 <= j < i ==> (#[trigger] out@[j])@ == self@[j].path,
            decreases self.entries.len() - i,
        {
            out.push(self.entries[i].path.clone());
            i += 1;
        }
        out
    }
}

/// Finds the path under which the file at `p` is registered. Both files and
/// directories can be registered, so the search tries `p` itself and then
/// one ancestor after the other, up to the root or the empty path; it fails
/// where none of them is registered.
pub fn find_appropriate_savedef_path(p: &SavePath, save_map: &Registry) -> (r: Result<
    SavePath,
    String,
>)
    ensures
        match r {
            Ok(k) => resolve(save_map@, p@) == Some(k@),
            Err(e) => resolve(save_map@, p@).is_none() && e@ == "Path not in save map"@,
        },
{
    let mut c = p.clone();
    assert(p@.names.take(p@.names.len() as int) =~= p@.names);
    while !save_map.contains_key(&c) && c.names.len() > 0
        invariant
            c.names.len() <= p.names.len(),
            c@ == p@.ancestor(c.names.len() as int),
            resolve(save_map@, p@) == resolve_from(save_map@, p@, c.names.len() as int),
        decreases c.names.len(),
    {
        let ghost n = c.names.len() as int;
        c.names.pop();
        assert(c@.names =~= p@.names.take(n - 1));
    }
    if save_map.contains_key(&c) {
        Ok(c)
    } else {
        assert(resolve_from(save_map@, p@, -1).is_none());
        Err(String::from_str("Path not in save map"))
    }
}

} // verus!

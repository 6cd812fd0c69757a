//! Imports: binding a local name to what a path resolves to.

use vstd::prelude::*;
use crate::model::{
    child_named, declares, imported, imported_all, imported_name, imports_sound,
    lemma_child_named, linked, public_members, resolve, siblings, well_formed, with_imports,
    Binding, DeclView, ResolveError, Visibility,
};
use crate::path::{Path, Segment};
use crate::resolve::find_import;
use crate::tree::{bindings, binds, distinct_names, Import, Tree};

verus! {

/// Adding an import under a name that the list does not bind yet binds that
/// name and leaves the others.
pub(crate) proof fn lemma_bindings_push(imports: Seq<Import>, import: Import)
    requires
        distinct_names(imports),
        !bindings(imports).dom().contains(import.name@),
    ensures
        distinct_names(imports.push(import)),
        bindings(imports.push(import)) == bindings(imports).insert(import.name@, import.binding),
{
    let after = imports.push(import);
    assert forall|i: int, j: int| 0 <= i < j < after.len() implies (#[trigger] after[i]).name@ != (
    #[trigger] after[j]).name@ by {
        if j == imports.len() {
            assert(binds(imports, after[i].name@, i));
        }
    }
    assert forall|name: Seq<char>| #[trigger]
        bindings(after).dom().contains(name) <==> bindings(imports).insert(
            import.name@,
            import.binding,
        ).dom().contains(name) by {
        if bindings(after).dom().contains(name) {
            let k = choose|k: int| binds(after, name, k);
            if k < imports.len() {
                assert(binds(imports, name, k));
            }
        }
        if bindings(imports).dom().contains(name) {
            let k = choose|k: int| binds(imports, name, k);
            assert(binds(after, name, k));
        }
        if name == import.name@ {
            assert(binds(after, name, imports.len() as int));
        }
    }
    assert forall|name: Seq<char>| #[trigger]
        bindings(after).dom().contains(name) implies bindings(after)[name] == bindings(
        imports,
    ).insert(import.name@, import.binding)[name] by {
        let k = choose|k: int| binds(after, name, k);
        if k < imports.len() {
            assert(binds(imports, name, k));
            let j = choose|j: int| binds(imports, name, j);
            if j != k {
                assert(imports[j].name@ == imports[k].name@);
            }
        }
    }
    assert(bindings(after) =~= bindings(imports).insert(import.name@, import.binding));
}

/// Putting an import in the place of one that binds the same name binds
/// that name anew and leaves the others.
pub(crate) proof fn lemma_bindings_update(imports: Seq<Import>, k: int, import: Import)
    requires
        distinct_names(imports),
        binds(imports, import.name@, k),
    ensures
        distinct_names(imports.update(k, import)),
        bindings(imports.update(k, import)) == bindings(imports).insert(
            import.name@,
            import.binding,
        ),
{
    let after = imports.update(k, import);
    assert forall|i: int, j: int| 0 <= i < j < after.len() implies (#[trigger] after[i]).name@ != (
    #[trigger] after[j]).name@ by {
        assert(after[i].name@ == imports[i].name@);
        assert(after[j].name@ == imports[j].name@);
    }
    assert forall|name: Seq<char>| #[trigger]
        bindings(after).dom().contains(name) <==> bindings(imports).insert(
            import.name@,
            import.binding,
        ).dom().contains(name) by {
        if bindings(after).dom().contains(name) {
            let j = choose|j: int| binds(after, name, j);
            assert(binds(imports, name, j));
        }
        if bindings(imports).dom().contains(name) {
            let j = choose|j: int| binds(imports, name, j);
            assert(binds(after, name, j));
        }
        if name == import.name@ {
            assert(binds(after, name, k));
        }
    }
    assert forall|name: Seq<char>| #[trigger]
        bindings(after).dom().contains(name) implies bindings(after)[name] == bindings(
        imports,
    ).insert(import.name@, import.binding)[name] by {
        let i = choose|i: int| binds(after, name, i);
        assert(binds(imports, name, i));
        let j = choose|j: int| binds(imports, name, j);
        if j != i {
            assert(imports[j].name@ == imports[i].name@);
        }
        if i != k && name == import.name@ {
            assert(imports[i].name@ == imports[k].name@);
        }
    }
    assert(bindings(after) =~= bindings(imports).insert(import.name@, import.binding));
}

/// The `j`-th of the listed declarations is public and has the given name.
pub(crate) open spec fn offers(
    t: Seq<DeclView>,
    listed: Seq<usize>,
    name: Seq<char>,
    j: int,
) -> bool {
    &&& 0 <= j < listed.len()
    &&& t[listed[j] as int].name == name
    &&& t[listed[j] as int].visibility is Public
}

/// What the first `k` of the declarations listed for `d` offer to a glob
/// import.
pub(crate) open spec fn offered(t: Seq<DeclView>, d: usize, listed: Seq<usize>, k: int) -> Map<
    Seq<char>,
    Binding,
> {
    Map::new(
        |name: Seq<char>| exists|j: int| j < k && offers(t, listed, name, j),
        |name: Seq<char>| Binding { target: child_named(t, d, name)->Some_0, reexported: false },
    )
}

/// What one more of the listed declarations adds to what is offered: its
/// own name, where it is public, and nothing where it is private.
proof fn lemma_offered_next(t: Seq<DeclView>, d: usize, listed: Seq<usize>, k: int)
    requires
        well_formed(t),
        0 <= k < listed.len(),
        0 < listed[k] < t.len(),
        t[listed[k] as int].parent == Some(d),
    ensures
        offered(t, d, listed, k + 1) == if t[listed[k] as int].visibility is Public {
            offered(t, d, listed, k).insert(
                t[listed[k] as int].name,
                Binding { target: listed[k], reexported: false },
            )
        } else {
            offered(t, d, listed, k)
        },
{
    let c = listed[k];
    let name = t[c as int].name;
    let before = offered(t, d, listed, k);
    let after = offered(t, d, listed, k + 1);
    assert(declares(t, d, name, c));
    lemma_child_named(t, d, name, c);
    assert forall|other: Seq<char>| before.dom().contains(other) implies after.dom().contains(
        other,
    ) by {
        let j = choose|j: int| j < k && offers(t, listed, other, j);
        assert(j < k + 1 && offers(t, listed, other, j));
    }
    assert forall|other: Seq<char>|
        after.dom().contains(other) && !before.dom().contains(other) implies other == name
        && t[c as int].visibility is Public by {
        let j = choose|j: int| j < k + 1 && offers(t, listed, other, j);
        if j < k {
            assert(j < k && offers(t, listed, other, j));
        }
    }
    if t[c as int].visibility is Public {
        assert(k < k + 1 && offers(t, listed, name, k));
        assert(after =~= before.insert(name, Binding { target: c, reexported: false }));
    } else {
        assert(after =~= before);
    }
}

impl Tree {
    /// Imports `path` into the namespace `site`, under the name of the
    /// path's last segment.
    ///
    /// The path is resolved as a reference made in `site`. Where it
    /// resolves, that name is bound in `site` to the declaration found, in
    /// place of what it was bound to there; a re-exported name can then be
    /// used by every namespace, another by `site` alone. Where the path does
    /// not resolve, the error is the one that the reference gives, and
    /// nothing is bound.
    pub fn import(&mut self, site: usize, path: &Path, reexported: bool) -> (bound: Result<
        usize,
        ResolveError,
    >)
        requires
            old(self).wf(),
            site < old(self)@.len(),
            old(self)@[site as int].kind is Namespace,
        ensures
            final(self).wf(),
            bound == resolve(old(self)@, site, path@),
            bound matches Ok(d) ==> final(self)@ == imported(
                old(self)@,
                site,
                imported_name(old(self)@, path@, d),
                bound,
                reexported,
            ),
            bound is Err ==> final(self)@ == old(self)@,
    {
        proof {
            self.lemma_open();
        }
        let found = self.resolve(site, path);
        match found {
            Ok(d) => {
                let n = path.segments.len();
                let name = if n > 0 {
                    match &path.segments[n - 1] {
                        Segment::Name(last) => last.clone(),
                        Segment::Parent => self.nodes[d].name.clone(),
                    }
                } else {
                    self.nodes[d].name.clone()
                };
                self.bind(site, name, Binding { target: d, reexported });
                proof {
                    self.lemma_open();
                }
            },
            Err(_) => {},
        }
        found
    }

    /// Imports `path` into the namespace `site` under the name `name`.
    ///
    /// As `import`, but for the name: the one given is bound, whatever the
    /// path's last segment is.
    pub fn import_as(&mut self, site: usize, path: &Path, name: &str, reexported: bool) -> (bound:
        Result<usize, ResolveError>)
        requires
            old(self).wf(),
            site < old(self)@.len(),
            old(self)@[site as int].kind is Namespace,
        ensures
            final(self).wf(),
            bound == resolve(old(self)@, site, path@),
            final(self)@ == imported(old(self)@, site, name@, bound, reexported),
    {
        proof {
            self.lemma_open();
        }
        let found = self.resolve(site, path);
        match found {
            Ok(d) => {
                self.bind(site, name.to_owned(), Binding { target: d, reexported });
                proof {
                    self.lemma_open();
                }
            },
            Err(_) => {},
        }
        found
    }

    /// Imports into the namespace `site` all that `path` offers.
    ///
    /// The path is resolved as a reference made in `site`. Where it
    /// resolves, every public declaration that the target owns is bound in
    /// `site` under its own name, for `site` alone, in place of what that
    /// name was bound to there. Private declarations are left out, and so
    /// is all that stands deeper. Where the path does not resolve, the error
    /// is the one that the reference gives, and nothing is bound.
    pub fn import_all(&mut self, site: usize, path: &Path) -> (bound: Result<usize, ResolveError>)
        requires
            old(self).wf(),
            site < old(self)@.len(),
            old(self)@[site as int].kind is Namespace,
        ensures
            final(self).wf(),
            bound == resolve(old(self)@, site, path@),
            final(self)@ == imported_all(old(self)@, site, bound),
    {
        proof {
            self.lemma_open();
        }
        let found = self.resolve(site, path);
        match found {
            Ok(d) => {
                let ghost before = *self;
                let ghost t = self.model();
                let ghost had = t[site as int].imports;
                let ghost listed = self.nodes@[d as int].children@;
                let count = self.nodes[d].children.len();
                let mut k: usize = 0;
                proof {
                    assert(had.union_prefer_right(offered(t, d, listed, 0)) =~= had);
                    assert(t =~= with_imports(t, site, had));
                }
                while k < count
                    invariant
                        before.inv(),
                        self.inv(),
                        self.same_shape(before),
                        t == before.model(),
                        had == t[site as int].imports,
                        site < t.len(),
                        d < t.len(),
                        t[site as int].kind is Namespace,
                        listed == before.nodes@[d as int].children@,
                        count == listed.len(),
                        k <= count,
                        self.model() == with_imports(
                            t,
                            site,
                            had.union_prefer_right(offered(t, d, listed, k as int)),
                        ),
                    decreases count - k,
                {
                    let ghost now = had.union_prefer_right(offered(t, d, listed, k as int));
                    let ghost next = had.union_prefer_right(offered(t, d, listed, k + 1));
                    let c = self.nodes[d].children[k];
                    proof {
                        assert(before.indexed(d));
                        assert(before.owns(d, listed[k as int]));
                        lemma_offered_next(t, d, listed, k as int);
                    }
                    match self.nodes[c].visibility {
                        Visibility::Public => {
                            let name = self.nodes[c].name.clone();
                            self.bind(site, name, Binding { target: c, reexported: false });
                            proof {
                                assert(next =~= now.insert(
                                    t[c as int].name,
                                    Binding { target: c, reexported: false },
                                ));
                                assert(self.model() =~= with_imports(t, site, next));
                            }
                        },
                        Visibility::Private => {
                            proof {
                                assert(next =~= now);
                            }
                        },
                    }
                    k += 1;
                }
                proof {
                    before.lemma_offered_all(d);
                    self.lemma_open();
                }
            },
            Err(_) => {},
        }
        found
    }

    /// What all the declarations listed for `d` offer is what `d` offers.
    proof fn lemma_offered_all(self, d: usize)
        requires
            self.inv(),
            d < self.nodes@.len(),
        ensures
            offered(
                self.model(),
                d,
                self.nodes@[d as int].children@,
                self.nodes@[d as int].children@.len() as int,
            ) == public_members(self.model(), d),
    {
        let t = self.model();
        let listed = self.nodes@[d as int].children@;
        let all = offered(t, d, listed, listed.len() as int);
        assert(self.indexed(d));
        assert forall|name: Seq<char>| all.dom().contains(name) <==> public_members(
            t,
            d,
        ).dom().contains(name) by {
            if all.dom().contains(name) {
                let j = choose|j: int| j < listed.len() && offers(t, listed, name, j);
                assert(self.owns(d, listed[j]));
                lemma_child_named(t, d, name, listed[j]);
            }
            if public_members(t, d).dom().contains(name) {
                let c = child_named(t, d, name)->Some_0;
                assert(declares(t, d, name, c));
                assert(self.owns(d, c));
                let j = choose|j: int| 0 <= j < listed.len() && listed[j] == c;
                assert(j < listed.len() && offers(t, listed, name, j));
            }
        }
        assert(all =~= public_members(t, d));
    }

    /// Binds `name` in the namespace `site`, in place of what it was bound
    /// to there, if anything.
    pub(crate) fn bind(&mut self, site: usize, name: String, binding: Binding)
        requires
            old(self).inv(),
            site < old(self).nodes@.len(),
            old(self).nodes@[site as int].kind is Namespace,
            binding.target < old(self).nodes@.len(),
        ensures
            final(self).inv(),
            final(self).model() == with_imports(
                old(self).model(),
                site,
                old(self).model()[site as int].imports.insert(name@, binding),
            ),
            final(self).same_shape(*old(self)),
    {
        let ghost before = *self;
        assert(self.indexed(site));
        match find_import(&self.nodes[site].imports, &name) {
            Some(k) => {
                proof {
                    lemma_bindings_update(
                        self.nodes@[site as int].imports@,
                        k as int,
                        Import { name, binding },
                    );
                }
                self.nodes[site].imports[k] = Import { name, binding };
            },
            None => {
                proof {
                    lemma_bindings_push(
                        self.nodes@[site as int].imports@,
                        Import { name, binding },
                    );
                }
                self.nodes[site].imports.push(Import { name, binding });
            },
        }
        proof {
            before.lemma_bound(*self, site, name@, binding);
        }
    }

    /// The two trees hold the same declarations under the same owners, and
    /// list them alike.
    pub(crate) open spec fn same_shape(&self, other: Tree) -> bool {
        &&& self.nodes@.len() == other.nodes@.len()
        &&& forall|x: int|
            0 <= x < self.nodes@.len() ==> {
                &&& (#[trigger] self.nodes@[x]).name == other.nodes@[x].name
                &&& self.nodes@[x].kind == other.nodes@[x].kind
                &&& self.nodes@[x].visibility == other.nodes@[x].visibility
                &&& self.nodes@[x].parent == other.nodes@[x].parent
                &&& self.nodes@[x].children == other.nodes@[x].children
            }
    }

    /// A change to the imports of one namespace keeps the tree valid.
    proof fn lemma_bound(self, after: Tree, site: usize, name: Seq<char>, binding: Binding)
        requires
            self.inv(),
            site < self.nodes@.len(),
            self.nodes@[site as int].kind is Namespace,
            binding.target < self.nodes@.len(),
            after.nodes@.len() == self.nodes@.len(),
            forall|x: int|
                0 <= x < self.nodes@.len() && x != site ==> after.nodes@[x] == self.nodes@[x],
            after.nodes@[site as int].name == self.nodes@[site as int].name,
            after.nodes@[site as int].kind == self.nodes@[site as int].kind,
            after.nodes@[site as int].visibility == self.nodes@[site as int].visibility,
            after.nodes@[site as int].parent == self.nodes@[site as int].parent,
            after.nodes@[site as int].children == self.nodes@[site as int].children,
            distinct_names(after.nodes@[site as int].imports@),
            bindings(after.nodes@[site as int].imports@) == bindings(
                self.nodes@[site as int].imports@,
            ).insert(name, binding),
        ensures
            after.inv(),
            after.model() == with_imports(
                self.model(),
                site,
                self.model()[site as int].imports.insert(name, binding),
            ),
            after.same_shape(self),
    {
        let t = self.model();
        let u = after.model();
        assert(u =~= with_imports(t, site, t[site as int].imports.insert(name, binding)));
        assert forall|e: usize| 0 < e < u.len() implies #[trigger] linked(u, e) by {
            assert(linked(t, e));
        }
        assert forall|e: usize, f: usize| #[trigger] siblings(u, e, f) implies u[e as int].name
            != u[f as int].name by {
            assert(siblings(t, e, f));
        }
        assert forall|x: usize| x < u.len() implies #[trigger] imports_sound(u, x) by {
            assert(imports_sound(t, x));
        }
        assert forall|x: usize| x < after.nodes@.len() implies #[trigger] after.indexed(x) by {
            assert(self.indexed(x));
            let listed = self.nodes@[x as int].children@;
            assert forall|k: int| 0 <= k < listed.len() implies after.owns(
                x,
                #[trigger] listed[k],
            ) by {
                assert(self.owns(x, listed[k]));
            }
            assert forall|e: usize| #[trigger] after.owns(x, e) implies listed.contains(e) by {
                assert(self.owns(x, e));
            }
        }
    }
}

} // verus!

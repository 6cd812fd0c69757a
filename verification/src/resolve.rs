//! Resolving a path in a tree.

use vstd::prelude::*;
use crate::laws::{full_path_outcome, law_full_path};
use crate::model::{
    declares, full_path, home, imports_sound, linked, lookup, names_to, reachable, resolve,
    visible, walk, well_formed, within, Kind, Lookup, ResolveError, Visibility,
};
use crate::path::{segment_views, Path, Segment};
use crate::tree::{bindings, binds, distinct_names, Import, Tree};

verus! {

/// Finds what a list of imports binds `name` to.
pub(crate) fn find_import(imports: &Vec<Import>, name: &String) -> (found: Option<usize>)
    requires
        distinct_names(imports@),
    ensures
        match found {
            Some(k) => binds(imports@, name@, k as int) && bindings(imports@).dom().contains(name@)
                && bindings(imports@)[name@] == imports@[k as int].binding,
            None => !bindings(imports@).dom().contains(name@),
        },
{
    let mut k: usize = 0;
    while k < imports.len()
        invariant
            k <= imports@.len(),
            distinct_names(imports@),
            forall|j: int| 0 <= j < k ==> !binds(imports@, name@, j),
        decreases imports@.len() - k,
    {
        if imports[k].name == *name {
            proof {
                assert(binds(imports@, name@, k as int));
                let j = choose|j: int| binds(imports@, name@, j);
                if j != k {
                    assert(imports@[j].name@ == imports@[k as int].name@);
                }
            }
            return Some(k);
        }
        k += 1;
    }
    None
}

impl Tree {
    /// Whether `n` is `m` or stands somewhere below it.
    pub(crate) fn is_within(&self, n: usize, m: usize) -> (inside: bool)
        requires
            self.inv(),
            n < self.nodes@.len(),
        ensures
            inside == within(self.model(), n, m),
    {
        let ghost t = self.model();
        let mut at: usize = n;
        loop
            invariant
                self.inv(),
                t == self.model(),
                at < self.nodes@.len(),
                within(t, n, m) == within(t, at, m),
            decreases at,
        {
            if at == m {
                return true;
            }
            match self.nodes[at].parent {
                Some(p) => {
                    proof {
                        if at > 0 {
                            assert(linked(t, at));
                        }
                    }
                    at = p;
                },
                None => {
                    return false;
                },
            }
        }
    }

    /// The namespace that owns `d`.
    pub(crate) fn home_of(&self, d: usize) -> (owner: usize)
        requires
            self.inv(),
            d < self.nodes@.len(),
        ensures
            owner == home(self.model(), d),
            owner < self.nodes@.len(),
    {
        let ghost t = self.model();
        match self.nodes[d].parent {
            None => d,
            Some(p) => {
                proof {
                    if d > 0 {
                        assert(linked(t, d));
                    }
                }
                match self.nodes[p].kind {
                    Kind::Namespace => p,
                    _ => match self.nodes[p].parent {
                        Some(g) => {
                            proof {
                                if p > 0 {
                                    assert(linked(t, p));
                                }
                            }
                            g
                        },
                        None => p,
                    },
                }
            },
        }
    }

    /// Whether a reference made in the namespace `site` may use the
    /// declaration `d`: `d` is public, or `site` is the namespace that owns
    /// `d` or stands below it.
    pub fn is_visible(&self, site: usize, d: usize) -> (allowed: bool)
        requires
            self.wf(),
            site < self@.len(),
            self@[site as int].kind is Namespace,
            d < self@.len(),
        ensures
            allowed == visible(self@, site, d),
    {
        proof {
            self.lemma_open();
        }
        match self.nodes[d].visibility {
            Visibility::Public => true,
            Visibility::Private => {
                let owner = self.home_of(d);
                self.is_within(site, owner)
            },
        }
    }

    /// Whether a reference made in the namespace `site` may use `d` and
    /// all that `d` stands within, the root apart. That is so exactly when
    /// a reference made in `site` to `d` by its full path resolves.
    pub fn may_access(&self, site: usize, d: usize) -> (allowed: bool)
        requires
            self.wf(),
            site < self@.len(),
            self@[site as int].kind is Namespace,
            d < self@.len(),
        ensures
            allowed == reachable(self@, site, d),
            allowed == (resolve(self@, site, full_path(self@, d)) == Ok::<usize, ResolveError>(d)),
    {
        proof {
            self.lemma_open();
            law_full_path(self@, site, d);
        }
        let ghost t = self.model();
        let mut at: usize = d;
        loop
            invariant
                self.wf(),
                t == self@,
                t == self.model(),
                well_formed(t),
                site < t.len(),
                t[site as int].kind is Namespace,
                at < t.len(),
                reachable(t, site, d) == reachable(t, site, at),
                resolve(t, site, full_path(t, d)) == full_path_outcome(t, site, d),
            decreases at,
        {
            match self.nodes[at].parent {
                Some(p) => {
                    proof {
                        if at > 0 {
                            assert(linked(t, at));
                        }
                    }
                    if !self.is_visible(site, at) {
                        return false;
                    }
                    at = p;
                },
                None => {
                    return true;
                },
            }
        }
    }

    /// The absolute path that names `d` by the declarations above it.
    pub fn path_of(&self, d: usize) -> (path: Path)
        requires
            self.wf(),
            d < self@.len(),
        ensures
            path@ == full_path(self@, d),
    {
        proof {
            self.lemma_open();
        }
        let ghost t = self.model();
        let mut segments: Vec<Segment> = Vec::new();
        let mut at: usize = d;
        proof {
            assert(names_to(t, d) + segment_views(segments@) =~= names_to(t, d));
        }
        loop
            invariant
                self.inv(),
                t == self.model(),
                t == self@,
                at < t.len(),
                names_to(t, d) == names_to(t, at) + segment_views(segments@),
            decreases at,
        {
            match self.nodes[at].parent {
                Some(p) => {
                    let segment = Segment::Name(self.nodes[at].name.clone());
                    proof {
                        if at > 0 {
                            assert(linked(t, at));
                        }
                        assert(segment_views(segments@.insert(0, segment)) =~= seq![segment@]
                            + segment_views(segments@));
                        assert(names_to(t, p).push(segment@) + segment_views(segments@)
                            =~= names_to(t, p) + (seq![segment@] + segment_views(segments@)));
                    }
                    segments.insert(0, segment);
                    at = p;
                },
                None => {
                    proof {
                        assert(names_to(t, at) + segment_views(segments@) =~= segment_views(
                            segments@,
                        ));
                    }
                    return Path { absolute: true, segments };
                },
            }
        }
    }

    /// Looks `name` up in the scope of `scope`, for a reference made in
    /// `site`.
    pub(crate) fn look_up(&self, site: usize, scope: usize, name: &String) -> (found: Lookup)
        requires
            self.wf(),
            site < self@.len(),
            self@[site as int].kind is Namespace,
            scope < self@.len(),
        ensures
            found == lookup(self@, site, scope, name@),
            found matches Lookup::Found(d) ==> d < self@.len(),
    {
        proof {
            self.lemma_open();
        }
        let ghost t = self.model();
        match self.find_child(scope, name) {
            Some(d) => {
                assert(declares(t, scope, name@, d));
                if self.is_visible(site, d) {
                    Lookup::Found(d)
                } else {
                    Lookup::Denied
                }
            },
            None => {
                assert(self.indexed(scope));
                assert(imports_sound(t, scope));
                match find_import(&self.nodes[scope].imports, name) {
                    Some(k) => {
                        let binding = self.nodes[scope].imports[k].binding;
                        if binding.reexported || site == scope {
                            Lookup::Found(binding.target)
                        } else {
                            Lookup::Missing
                        }
                    },
                    None => Lookup::Missing,
                }
            },
        }
    }

    /// Resolves `path` for a reference made in the namespace `site`: the
    /// declaration that the path names, or the first segment that names
    /// nothing or names what `site` may not use.
    pub fn resolve(&self, site: usize, path: &Path) -> (found: Result<usize, ResolveError>)
        requires
            self.wf(),
            site < self@.len(),
            self@[site as int].kind is Namespace,
        ensures
            found == resolve(self@, site, path@),
            found matches Ok(d) ==> d < self@.len(),
    {
        proof {
            self.lemma_open();
        }
        let ghost t = self.model();
        let ghost segments = path@.segments;
        let n = path.segments.len();
        let mut scope: usize = site;
        let mut i: usize = 0;
        if path.absolute {
            scope = 0;
        } else if n > 0 && is_parent(&path.segments[0]) {
            match self.nodes[site].parent {
                Some(p) => {
                    proof {
                        if site > 0 {
                            assert(linked(t, site));
                        }
                    }
                    scope = p;
                    i = 1;
                },
                None => {
                    return Err(ResolveError::PathNotFound { segment: 0 });
                },
            }
        }
        assert(segments.skip(0) =~= segments);
        assert(segments.skip(1) =~= segments.drop_first());
        while i < n
            invariant
                self.wf(),
                t == self@,
                segments == path@.segments,
                n == path.segments@.len(),
                site < t.len(),
                t[site as int].kind is Namespace,
                scope < t.len(),
                i <= n,
                resolve(t, site, path@) == walk(t, site, scope, segments.skip(i as int), i as nat),
            decreases n - i,
        {
            assert(segments.skip(i as int).drop_first() =~= segments.skip(i + 1));
            assert(segments.skip(i as int)[0] == path.segments@[i as int]@);
            match &path.segments[i] {
                Segment::Parent => {
                    return Err(ResolveError::PathNotFound { segment: i });
                },
                Segment::Name(name) => {
                    match self.look_up(site, scope, name) {
                        Lookup::Missing => {
                            return Err(ResolveError::PathNotFound { segment: i });
                        },
                        Lookup::Denied => {
                            return Err(ResolveError::AccessDenied { segment: i });
                        },
                        Lookup::Found(d) => {
                            scope = d;
                        },
                    }
                },
            }
            i += 1;
        }
        Ok(scope)
    }
}

/// Whether a segment is a step to the parent.
pub(crate) fn is_parent(segment: &Segment) -> (parent: bool)
    ensures
        parent == (segment@ is Parent),
{
    match segment {
        Segment::Parent => true,
        Segment::Name(_) => false,
    }
}

} // verus!

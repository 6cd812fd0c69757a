//! The mathematical model: a tree of declarations, the paths that name them,
//! and what it means for a path to resolve.
//!
//! A tree is a sequence of declarations. A declaration is known by its place
//! in the sequence; place 0 is the root namespace, and every other
//! declaration names an owner that stands before it.

use vstd::prelude::*;

verus! {

/// Who may use a declaration: everyone, or only the namespace that owns it
/// and the namespaces below that one.
#[derive(Clone, Copy, Debug, PartialEq, Eq, Structural)]
pub enum Visibility {
    Public,
    Private,
}

/// What a declaration is.
#[derive(Clone, Copy, Debug, PartialEq, Eq, Structural)]
pub enum Kind {
    Namespace,
    Function,
    Structure,
    Enumeration,
    Field,
    Variant,
}

/// What a local name is bound to by an import.
#[derive(Clone, Copy, Debug, PartialEq, Eq, Structural)]
pub struct Binding {
    /// The declaration that the name stands for.
    pub target: usize,
    /// Whether namespaces other than the importing one may use the name.
    pub reexported: bool,
}

/// One declaration of a tree.
pub struct DeclView {
    pub name: Seq<char>,
    pub kind: Kind,
    pub visibility: Visibility,
    /// The owner; only the root has none.
    pub parent: Option<usize>,
    /// The names that imports have bound in this namespace.
    pub imports: Map<Seq<char>, Binding>,
}

/// One segment of a path.
pub enum SegmentView {
    /// A step to the parent of the referencing namespace.
    Parent,
    /// The name of something in the scope reached so far.
    Name(Seq<char>),
}

/// A path: where it starts, and the segments to consume from there.
pub struct PathView {
    /// Whether resolution starts at the root rather than at the referencing
    /// namespace.
    pub absolute: bool,
    pub segments: Seq<SegmentView>,
}

/// Why a path did not resolve. `segment` is the place of the offending
/// segment among the path's segments, counted from 0.
#[derive(Clone, Copy, Debug, PartialEq, Eq, Structural)]
pub enum ResolveError {
    /// The segment names nothing in the scope that resolution had reached.
    PathNotFound { segment: usize },
    /// The segment names a private declaration that the referencing
    /// namespace may not use.
    AccessDenied { segment: usize },
}

/// Whether a declaration of kind `owner` can own one of kind `kind`.
pub open spec fn kind_allows(owner: Kind, kind: Kind) -> bool {
    match owner {
        Kind::Namespace => kind is Namespace || kind is Function || kind is Structure
            || kind is Enumeration,
        Kind::Structure => kind is Field || kind is Function,
        Kind::Enumeration => kind is Variant,
        _ => false,
    }
}

/// The declaration `d` has an owner that stands before it and can own it; a
/// variant is as visible as its enumeration.
pub open spec fn linked(t: Seq<DeclView>, d: usize) -> bool {
    match t[d as int].parent {
        Some(p) => {
            &&& p < d
            &&& kind_allows(t[p as int].kind, t[d as int].kind)
            &&& (t[d as int].kind is Variant ==> t[d as int].visibility
                == t[p as int].visibility)
        },
        None => false,
    }
}

/// `d` and `e` are two declarations with the same owner.
pub open spec fn siblings(t: Seq<DeclView>, d: usize, e: usize) -> bool {
    &&& 0 < d < t.len()
    &&& 0 < e < t.len()
    &&& d != e
    &&& t[d as int].parent == t[e as int].parent
}

/// The imports of `x` are finitely many, bind declarations of the tree, and
/// stand in a namespace.
pub open spec fn imports_sound(t: Seq<DeclView>, x: usize) -> bool {
    &&& t[x as int].imports.dom().finite()
    &&& t[x as int].kind is Namespace || t[x as int].imports.dom().is_empty()
    &&& forall|name: Seq<char>| #[trigger]
        t[x as int].imports.dom().contains(name) ==> t[x as int].imports[name].target < t.len()
}

/// The tree is one tree: a root namespace, every other declaration under an
/// owner that stands before it, no name declared twice in one owner.
pub open spec fn well_formed(t: Seq<DeclView>) -> bool {
    &&& 0 < t.len() <= usize::MAX
    &&& t[0].parent is None
    &&& t[0].kind is Namespace
    &&& forall|d: usize| 0 < d < t.len() ==> #[trigger] linked(t, d)
    &&& forall|d: usize, e: usize|
        #[trigger] siblings(t, d, e) ==> t[d as int].name != t[e as int].name
    &&& forall|x: usize| x < t.len() ==> #[trigger] imports_sound(t, x)
}

/// `n` is `m`, or stands somewhere below `m`.
pub open spec fn within(t: Seq<DeclView>, n: usize, m: usize) -> bool
    decreases n,
{
    n == m || (n < t.len() && match t[n as int].parent {
        Some(p) => p < n && within(t, p, m),
        None => false,
    })
}

/// The namespace that owns `d`: its owner, or, for what a structure or an
/// enumeration owns, the owner of that. The root is its own.
pub open spec fn home(t: Seq<DeclView>, d: usize) -> usize {
    match t[d as int].parent {
        None => d,
        Some(p) => if t[p as int].kind is Namespace {
            p
        } else {
            match t[p as int].parent {
                Some(g) => g,
                None => p,
            }
        },
    }
}

/// Whether the namespace `site` may use the declaration `d`: `d` is public,
/// or `site` is the namespace that owns `d` or stands below it.
pub open spec fn visible(t: Seq<DeclView>, site: usize, d: usize) -> bool {
    t[d as int].visibility is Public || within(t, site, home(t, d))
}

/// Whether the namespace `site` may use `d` and every declaration that `d`
/// stands within, the root apart: whether nothing on the way from the root
/// down to `d` is closed to `site`.
pub open spec fn reachable(t: Seq<DeclView>, site: usize, d: usize) -> bool
    decreases d,
{
    match t[d as int].parent {
        Some(p) => p < d && reachable(t, site, p) && visible(t, site, d),
        None => true,
    }
}

/// `d` is declared in `owner` under `name`.
pub open spec fn declares(t: Seq<DeclView>, owner: usize, name: Seq<char>, d: usize) -> bool {
    &&& 0 < d < t.len()
    &&& t[d as int].parent == Some(owner)
    &&& t[d as int].name == name
}

/// The declaration that `owner` declares under `name`, if there is one.
pub open spec fn child_named(t: Seq<DeclView>, owner: usize, name: Seq<char>) -> Option<usize> {
    if exists|d: usize| declares(t, owner, name, d) {
        Some(choose|d: usize| declares(t, owner, name, d))
    } else {
        None
    }
}

/// In a well-formed tree an owner declares at most one thing under a name.
pub proof fn lemma_child_named(t: Seq<DeclView>, owner: usize, name: Seq<char>, d: usize)
    requires
        well_formed(t),
        declares(t, owner, name, d),
    ensures
        child_named(t, owner, name) == Some(d),
{
    let e = choose|e: usize| declares(t, owner, name, e);
    if e != d {
        assert(siblings(t, d, e));
    }
}

/// What one name gives in one scope.
pub enum Lookup {
    /// The scope holds nothing under the name.
    Missing,
    /// The name is that of a private declaration that the referencing
    /// namespace may not use.
    Denied,
    /// The name stands for this declaration.
    Found(usize),
}

/// Looks `name` up in the scope of `scope`, for a reference made in `site`.
///
/// What `scope` declares comes first, and is subject to visibility. Then
/// come the names that `scope` has imported: they exist for `scope` itself,
/// and for every other namespace only where they are re-exported.
pub open spec fn lookup(t: Seq<DeclView>, site: usize, scope: usize, name: Seq<char>) -> Lookup {
    match child_named(t, scope, name) {
        Some(d) => if visible(t, site, d) {
            Lookup::Found(d)
        } else {
            Lookup::Denied
        },
        None => if t[scope as int].imports.dom().contains(name) && (site == scope
            || t[scope as int].imports[name].reexported) {
            Lookup::Found(t[scope as int].imports[name].target)
        } else {
            Lookup::Missing
        },
    }
}

/// Consumes `segments` from left to right, starting in `scope`, for a
/// reference made in `site`. `at` is the place of the first of them in the
/// whole path. Stops at the first segment that fails.
pub open spec fn walk(
    t: Seq<DeclView>,
    site: usize,
    scope: usize,
    segments: Seq<SegmentView>,
    at: nat,
) -> Result<usize, ResolveError>
    decreases segments.len(),
{
    if segments.len() == 0 {
        Ok(scope)
    } else {
        match segments[0] {
            SegmentView::Parent => Err(ResolveError::PathNotFound { segment: at as usize }),
            SegmentView::Name(name) => match lookup(t, site, scope, name) {
                Lookup::Missing => Err(ResolveError::PathNotFound { segment: at as usize }),
                Lookup::Denied => Err(ResolveError::AccessDenied { segment: at as usize }),
                Lookup::Found(d) => walk(t, site, d, segments.drop_first(), at + 1),
            },
        }
    }
}

/// Resolves `path` for a reference made in the namespace `site`.
///
/// An absolute path starts at the root. A relative path starts at `site`,
/// or, where its first segment is a step to the parent, at the parent of
/// `site`; the root has no parent.
pub open spec fn resolve(t: Seq<DeclView>, site: usize, path: PathView) -> Result<
    usize,
    ResolveError,
> {
    if path.absolute {
        walk(t, site, 0, path.segments, 0)
    } else if path.segments.len() > 0 && path.segments[0] is Parent {
        match t[site as int].parent {
            Some(p) => walk(t, site, p, path.segments.drop_first(), 1),
            None => Err(ResolveError::PathNotFound { segment: 0 }),
        }
    } else {
        walk(t, site, site, path.segments, 0)
    }
}

/// The names from the root down to `d`, `d`'s own last.
pub open spec fn names_to(t: Seq<DeclView>, d: usize) -> Seq<SegmentView>
    decreases d,
{
    match t[d as int].parent {
        Some(p) => if p < d {
            names_to(t, p).push(SegmentView::Name(t[d as int].name))
        } else {
            Seq::empty()
        },
        None => Seq::empty(),
    }
}

/// The absolute path that names `d` by the declarations above it.
pub open spec fn full_path(t: Seq<DeclView>, d: usize) -> PathView {
    PathView { absolute: true, segments: names_to(t, d) }
}

/// The path with one more name at its end.
pub open spec fn child_path(path: PathView, name: Seq<char>) -> PathView {
    PathView { absolute: path.absolute, segments: path.segments.push(SegmentView::Name(name)) }
}

/// The path with more segments at its end.
pub open spec fn longer_path(path: PathView, rest: Seq<SegmentView>) -> PathView {
    PathView { absolute: path.absolute, segments: path.segments + rest }
}

/// Whether `owner` can take a new declaration of the given name and kind:
/// it is a declaration of the tree that can own one of that kind, and it
/// declares nothing under the name yet.
pub open spec fn can_declare(t: Seq<DeclView>, owner: usize, name: Seq<char>, kind: Kind) -> bool {
    &&& owner < t.len()
    &&& kind_allows(t[owner as int].kind, kind)
    &&& child_named(t, owner, name) is None
}

/// A new declaration of `owner`: it has imported nothing yet.
pub open spec fn new_decl(
    owner: usize,
    name: Seq<char>,
    kind: Kind,
    visibility: Visibility,
) -> DeclView {
    DeclView { name, kind, visibility, parent: Some(owner), imports: Map::empty() }
}

/// What adding a declaration to `owner` does to a tree: where `owner` can
/// take it, it becomes the last declaration of the tree; where not, nothing
/// is made and the tree stays as it was.
pub open spec fn declared(
    before: Seq<DeclView>,
    after: Seq<DeclView>,
    made: Option<usize>,
    owner: usize,
    name: Seq<char>,
    kind: Kind,
    visibility: Visibility,
) -> bool {
    match made {
        Some(d) => {
            &&& can_declare(before, owner, name, kind)
            &&& d == before.len()
            &&& after == before.push(new_decl(owner, name, kind, visibility))
        },
        None => !can_declare(before, owner, name, kind) && after == before,
    }
}

/// The tree in which the namespace `site` has the given imports, and all
/// else is as in `t`.
pub open spec fn with_imports(
    t: Seq<DeclView>,
    site: usize,
    imports: Map<Seq<char>, Binding>,
) -> Seq<DeclView> {
    t.update(site as int, DeclView { imports, ..t[site as int] })
}

/// The name under which an import of `path`, which resolved to `d`, is
/// bound where no other name is asked for: that of the last segment, or,
/// where the path does not end in a name, the name that `d` was declared
/// with.
pub open spec fn imported_name(t: Seq<DeclView>, path: PathView, d: usize) -> Seq<char> {
    if path.segments.len() > 0 && path.segments.last() is Name {
        path.segments.last()->Name_0
    } else {
        t[d as int].name
    }
}

/// What an import does to a tree: where the path resolved, `name` is bound
/// in `site` to what it resolved to, in place of what `name` was bound to
/// there; where it did not, the tree stays as it was.
pub open spec fn imported(
    t: Seq<DeclView>,
    site: usize,
    name: Seq<char>,
    found: Result<usize, ResolveError>,
    reexported: bool,
) -> Seq<DeclView> {
    match found {
        Ok(d) => with_imports(
            t,
            site,
            t[site as int].imports.insert(name, Binding { target: d, reexported }),
        ),
        Err(_) => t,
    }
}

/// What a glob import of `d` offers: every public declaration that `d`
/// owns, under its own name, for the importing namespace alone.
pub open spec fn public_members(t: Seq<DeclView>, d: usize) -> Map<Seq<char>, Binding> {
    Map::new(
        |name: Seq<char>|
            child_named(t, d, name) matches Some(c) && t[c as int].visibility is Public,
        |name: Seq<char>| Binding { target: child_named(t, d, name)->Some_0, reexported: false },
    )
}

/// What a glob import does to a tree: where the path resolved, every name
/// that the target offers is bound in `site` to what the target offers
/// under it, in place of what the name was bound to there; where it did
/// not, the tree stays as it was.
pub open spec fn imported_all(
    t: Seq<DeclView>,
    site: usize,
    found: Result<usize, ResolveError>,
) -> Seq<DeclView> {
    match found {
        Ok(d) => with_imports(
            t,
            site,
            t[site as int].imports.union_prefer_right(public_members(t, d)),
        ),
        Err(_) => t,
    }
}

} // verus!

//! What holds of resolution in every well-formed tree.

use vstd::prelude::*;
use crate::ancestry::{
    lemma_home_of_owner, lemma_meet_above, lemma_meet_nearest, lemma_within_chain,
    lemma_within_home, lemma_within_same, lemma_within_step,
    lemma_within_trans, meet,
};
use crate::model::{
    child_named, child_path, declares, full_path, home, lemma_child_named, linked, longer_path,
    lookup, names_to, reachable, resolve, visible, walk, well_formed, within, DeclView, Lookup,
    PathView, ResolveError, SegmentView,
};

verus! {

/// The first declaration on the way from the root down to `d` that `site`
/// may not use, where there is one.
pub open spec fn first_hidden(t: Seq<DeclView>, site: usize, d: usize) -> usize
    decreases d,
{
    match t[d as int].parent {
        Some(p) => if p < d && !reachable(t, site, p) {
            first_hidden(t, site, p)
        } else {
            d
        },
        None => d,
    }
}

/// What a reference to `d` by its full path gives: `d`, or the denial of
/// access at the name of the first declaration that `site` may not use.
pub open spec fn full_path_outcome(t: Seq<DeclView>, site: usize, d: usize) -> Result<
    usize,
    ResolveError,
> {
    if reachable(t, site, d) {
        Ok(d)
    } else {
        Err(
            ResolveError::AccessDenied {
                segment: (names_to(t, first_hidden(t, site, d)).len() - 1) as usize,
            },
        )
    }
}

/// `x` lies on the way from `top` down to `bottom`, the two ends counted.
pub open spec fn on_way(t: Seq<DeclView>, top: usize, x: usize, bottom: usize) -> bool {
    within(t, bottom, x) && within(t, x, top)
}

/// Every declaration on the way from the nearest common ancestor of `site`
/// and the owner of `d` down to that owner is public or the root.
pub open spec fn way_public(t: Seq<DeclView>, site: usize, d: usize) -> bool {
    let owner = t[d as int].parent->Some_0;
    forall|x: usize| #[trigger]
        on_way(t, meet(t, site, owner), x, owner) ==> x == 0 || t[x as int].visibility is Public
}

/// As `way_public`, but for the nearest common ancestor itself and what it
/// owns: every declaration farther down the way is public.
pub open spec fn lower_way_public(t: Seq<DeclView>, site: usize, d: usize) -> bool {
    let owner = t[d as int].parent->Some_0;
    let top = meet(t, site, owner);
    forall|x: usize|
        #[trigger] on_way(t, top, x, owner) && x != top && t[x as int].parent != Some(top)
            ==> t[x as int].visibility is Public
}

/// Two results are the same but for the place that an error names.
pub open spec fn same_outcome(
    a: Result<usize, ResolveError>,
    b: Result<usize, ResolveError>,
) -> bool {
    match a {
        Ok(d) => b == Ok::<usize, ResolveError>(d),
        Err(ResolveError::PathNotFound { .. }) => b matches Err(ResolveError::PathNotFound { .. }),
        Err(ResolveError::AccessDenied { .. }) => b matches Err(ResolveError::AccessDenied { .. }),
    }
}

/// Walking two runs of segments, one after the other, is walking them as
/// one: the second walk starts where the first one ended.
pub proof fn lemma_walk_append(
    t: Seq<DeclView>,
    site: usize,
    scope: usize,
    first: Seq<SegmentView>,
    second: Seq<SegmentView>,
    at: nat,
)
    ensures
        walk(t, site, scope, first + second, at) == match walk(t, site, scope, first, at) {
            Ok(d) => walk(t, site, d, second, at + first.len()),
            Err(e) => Err(e),
        },
    decreases first.len(),
{
    if first.len() == 0 {
        assert(first + second =~= second);
    } else {
        assert((first + second).drop_first() =~= first.drop_first() + second);
        if let SegmentView::Name(name) = first[0] {
            if let Lookup::Found(d) = lookup(t, site, scope, name) {
                lemma_walk_append(t, site, d, first.drop_first(), second, at + 1);
            }
        }
    }
}

/// A walk of one name is one lookup.
pub proof fn lemma_walk_one(t: Seq<DeclView>, site: usize, scope: usize, name: Seq<char>, at: nat)
    ensures
        walk(t, site, scope, seq![SegmentView::Name(name)], at) == match lookup(
            t,
            site,
            scope,
            name,
        ) {
            Lookup::Missing => Err::<usize, ResolveError>(
                ResolveError::PathNotFound { segment: at as usize },
            ),
            Lookup::Denied => Err(ResolveError::AccessDenied { segment: at as usize }),
            Lookup::Found(d) => Ok(d),
        },
{
    let one = seq![SegmentView::Name(name)];
    assert(one.len() == 1);
    assert(one[0] == SegmentView::Name(name));
    if let Lookup::Found(d) = lookup(t, site, scope, name) {
        assert(one.drop_first().len() == 0);
        assert(walk(t, site, d, one.drop_first(), at + 1) == Ok::<usize, ResolveError>(d));
    }
}

/// Where in the path a walk starts changes nothing but the place that an
/// error names.
pub proof fn lemma_walk_shift(
    t: Seq<DeclView>,
    site: usize,
    scope: usize,
    segments: Seq<SegmentView>,
    at: nat,
    other: nat,
)
    ensures
        same_outcome(walk(t, site, scope, segments, at), walk(t, site, scope, segments, other)),
    decreases segments.len(),
{
    if segments.len() > 0 {
        if let SegmentView::Name(name) = segments[0] {
            if let Lookup::Found(d) = lookup(t, site, scope, name) {
                lemma_walk_shift(t, site, d, segments.drop_first(), at + 1, other + 1);
            }
        }
    }
}

/// A path with more segments at its end resolves as the path itself, and
/// then goes on from what the path resolved to. The segments added must not
/// turn an empty path into one that starts with a step to the parent.
pub proof fn lemma_resolve_longer(
    t: Seq<DeclView>,
    site: usize,
    path: PathView,
    rest: Seq<SegmentView>,
)
    requires
        path.absolute || path.segments.len() > 0 || rest.len() == 0 || !(rest[0] is Parent),
    ensures
        resolve(t, site, longer_path(path, rest)) == match resolve(t, site, path) {
            Ok(d) => walk(t, site, d, rest, path.segments.len()),
            Err(e) => Err(e),
        },
{
    let segments = path.segments;
    if path.absolute {
        lemma_walk_append(t, site, 0, segments, rest, 0);
    } else if segments.len() > 0 && segments[0] is Parent {
        assert((segments + rest).drop_first() =~= segments.drop_first() + rest);
        if let Some(p) = t[site as int].parent {
            lemma_walk_append(t, site, p, segments.drop_first(), rest, 1);
        }
    } else {
        lemma_walk_append(t, site, site, segments, rest, 0);
    }
}

/// The names down to a declaration resolve, from the root, to that
/// declaration, when `site` may use every declaration on the way; when not,
/// access is denied at the first one that it may not use.
pub proof fn lemma_full_path(t: Seq<DeclView>, site: usize, d: usize)
    requires
        well_formed(t),
        d < t.len(),
    ensures
        walk(t, site, 0, names_to(t, d), 0) == full_path_outcome(t, site, d),
    decreases d,
{
    if d != 0 {
        assert(linked(t, d));
        let p = t[d as int].parent->Some_0;
        let name = t[d as int].name;
        let above = names_to(t, p);
        let last = seq![SegmentView::Name(name)];
        assert(names_to(t, d) =~= above + last);
        lemma_full_path(t, site, p);
        lemma_walk_append(t, site, 0, above, last, 0);
        if reachable(t, site, p) {
            assert(declares(t, p, name, d));
            lemma_child_named(t, p, name, d);
            lemma_walk_one(t, site, p, name, above.len());
        }
    }
}

/// A namespace may use every declaration that it stands within, and every
/// declaration on the way down to one.
pub proof fn lemma_reachable_from_within(t: Seq<DeclView>, site: usize, x: usize)
    requires
        well_formed(t),
        x < t.len(),
        within(t, site, x),
    ensures
        reachable(t, site, x),
    decreases x,
{
    if x != 0 {
        assert(linked(t, x));
        let p = t[x as int].parent->Some_0;
        assert(within(t, p, p));
        assert(within(t, x, p));
        lemma_within_trans(t, site, x, p);
        lemma_reachable_from_within(t, site, p);
        lemma_within_home(t, x);
        lemma_within_trans(t, site, x, home(t, x));
    }
}

/// Where a declaration can be reached, so can every declaration that it
/// stands within, and `site` may use each of them but the root.
pub proof fn lemma_reachable_above(t: Seq<DeclView>, site: usize, d: usize, x: usize)
    requires
        reachable(t, site, d),
        within(t, d, x),
    ensures
        reachable(t, site, x),
        t[x as int].parent is Some ==> visible(t, site, x),
    decreases d,
{
    if d != x {
        lemma_reachable_above(t, site, t[d as int].parent->Some_0, x);
    }
}

/// What a reference to a declaration by its full path gives.
///
/// In a well-formed tree, the absolute path made of the names from the
/// root down to `d` resolves, for a reference made in `site`, to `d` when
/// `site` may use every declaration on the way. When not, access is denied
/// at the name of the first declaration on the way that `site` may not use:
/// such a path never fails for a name that is not found.
pub proof fn law_full_path(t: Seq<DeclView>, site: usize, d: usize)
    requires
        well_formed(t),
        d < t.len(),
    ensures
        resolve(t, site, full_path(t, d)) == full_path_outcome(t, site, d),
{
    lemma_full_path(t, site, d);
}

/// References to private declarations.
///
/// A reference to a private declaration by its full path resolves if and
/// only if it is made in the namespace that owns the declaration or in a
/// namespace below that one; it then resolves to the declaration. Made
/// anywhere else, it is denied access.
pub proof fn law_private_reference(t: Seq<DeclView>, site: usize, d: usize)
    requires
        well_formed(t),
        site < t.len(),
        0 < d < t.len(),
        t[d as int].visibility is Private,
    ensures
        resolve(t, site, full_path(t, d)) is Ok <==> within(t, site, home(t, d)),
        resolve(t, site, full_path(t, d)) is Ok ==> resolve(t, site, full_path(t, d)) == Ok::<
            usize,
            ResolveError,
        >(d),
        resolve(t, site, full_path(t, d)) is Err ==> resolve(t, site, full_path(t, d)) matches Err(
            ResolveError::AccessDenied { .. },
        ),
{
    lemma_full_path(t, site, d);
    assert(linked(t, d));
    let p = t[d as int].parent->Some_0;
    if within(t, site, home(t, d)) {
        if t[p as int].kind is Namespace {
            lemma_reachable_from_within(t, site, p);
        } else {
            assert(linked(t, p));
            let g = t[p as int].parent->Some_0;
            lemma_reachable_from_within(t, site, g);
            assert(home(t, p) == g);
            assert(visible(t, site, p));
            assert(reachable(t, site, p));
        }
        assert(visible(t, site, d));
        assert(reachable(t, site, d));
    } else {
        assert(!visible(t, site, d));
        assert(!reachable(t, site, d));
    }
}

/// References to public declarations.
///
/// Take the way from the nearest common ancestor of `site` and the owner of
/// a public declaration down to that owner. A reference made in `site` to
/// the declaration by its full path resolves if and only if every
/// declaration on that way is public or the root.
///
/// Left out are the references that meet something private on that way
/// only at its upper end, in the common ancestor itself or in what it owns:
/// these two are open to `site` whatever their visibility, since `site`
/// stands within their owners, and such a reference resolves.
pub proof fn law_public_reference(t: Seq<DeclView>, site: usize, d: usize)
    requires
        well_formed(t),
        site < t.len(),
        0 < d < t.len(),
        t[d as int].visibility is Public,
        lower_way_public(t, site, d) ==> way_public(t, site, d),
    ensures
        resolve(t, site, full_path(t, d)) is Ok <==> way_public(t, site, d),
        resolve(t, site, full_path(t, d)) is Ok ==> resolve(t, site, full_path(t, d)) == Ok::<
            usize,
            ResolveError,
        >(d),
{
    law_public_reference_exact(t, site, d);
}

/// References to public declarations, with nothing left out.
///
/// Take the way from the nearest common ancestor of `site` and the owner of
/// a public declaration down to that owner. A reference made in `site` to
/// the declaration by its full path resolves if and only if the
/// declarations on that way are public from the second step down: the
/// common ancestor and what it owns are open to `site` whatever their
/// visibility. So where every declaration on the way is public or the
/// root, the reference resolves.
pub proof fn law_public_reference_exact(t: Seq<DeclView>, site: usize, d: usize)
    requires
        well_formed(t),
        site < t.len(),
        0 < d < t.len(),
        t[d as int].visibility is Public,
    ensures
        resolve(t, site, full_path(t, d)) is Ok <==> lower_way_public(t, site, d),
        way_public(t, site, d) ==> lower_way_public(t, site, d),
        resolve(t, site, full_path(t, d)) is Ok ==> resolve(t, site, full_path(t, d)) == Ok::<
            usize,
            ResolveError,
        >(d),
{
    assert(linked(t, d));
    let owner = t[d as int].parent->Some_0;
    let top = meet(t, site, owner);
    lemma_full_path(t, site, d);
    lemma_meet_above(t, site, owner);
    assert(within(t, owner, owner));
    if lower_way_public(t, site, d) {
        lemma_lower_way_reaches(t, site, d, owner);
    }
    if reachable(t, site, d) {
        assert forall|x: usize| #[trigger]
            on_way(t, top, x, owner) && x != top && t[x as int].parent != Some(
                top,
            ) implies t[x as int].visibility is Public by {
            lemma_within_step(t, x, top);
            let p = t[x as int].parent->Some_0;
            lemma_reachable_above(t, site, owner, x);
            lemma_owner_of_way(t, d, x);
            if within(t, site, p) {
                assert(within(t, p, p));
                assert(within(t, x, p));
                lemma_within_trans(t, owner, x, p);
                lemma_meet_nearest(t, site, owner, p);
                lemma_within_same(t, p, top);
            }
        }
    }
    if way_public(t, site, d) {
        assert forall|x: usize| #[trigger]
            on_way(t, top, x, owner) && x != top && t[x as int].parent != Some(
                top,
            ) implies t[x as int].visibility is Public by {
            lemma_within_step(t, x, top);
        }
    }
}

/// What the owner of `d` stands within has, unless it is the root, a
/// namespace for its owner, and that namespace is the one that owns it.
proof fn lemma_owner_of_way(t: Seq<DeclView>, d: usize, x: usize)
    requires
        well_formed(t),
        0 < d < t.len(),
        t[d as int].parent is Some,
        within(t, t[d as int].parent->Some_0, x),
        x != 0,
    ensures
        t[x as int].parent is Some,
        home(t, x) == t[x as int].parent->Some_0,
    decreases d,
{
    assert(linked(t, d));
    let owner = t[d as int].parent->Some_0;
    if owner == x {
        lemma_home_of_owner(t, x, d);
    } else {
        lemma_within_step(t, owner, x);
        lemma_owner_of_way(t, owner, x);
    }
}

/// Where the way to the owner of `d` is public from the second step down,
/// `site` can reach every declaration that the owner stands within.
proof fn lemma_lower_way_reaches(t: Seq<DeclView>, site: usize, d: usize, y: usize)
    requires
        well_formed(t),
        site < t.len(),
        0 < d < t.len(),
        t[d as int].parent is Some,
        lower_way_public(t, site, d),
        within(t, t[d as int].parent->Some_0, y),
        y < t.len(),
    ensures
        reachable(t, site, y),
    decreases y,
{
    assert(linked(t, d));
    let owner = t[d as int].parent->Some_0;
    let top = meet(t, site, owner);
    if y != 0 {
        assert(linked(t, y));
        let p = t[y as int].parent->Some_0;
        assert(within(t, p, p));
        assert(within(t, y, p));
        lemma_within_trans(t, owner, y, p);
        lemma_lower_way_reaches(t, site, d, p);
        lemma_owner_of_way(t, d, y);
        lemma_meet_above(t, site, owner);
        lemma_within_chain(t, owner, y, top);
        if within(t, top, y) {
            lemma_within_trans(t, site, top, y);
            lemma_within_trans(t, site, y, p);
        } else if p == top {
        } else {
            assert(on_way(t, top, y, owner));
        }
    }
}

/// What a path gives with the name of a member at its end.
///
/// Where a path resolves to a declaration, the path with the name of
/// something that the declaration owns at its end resolves to that member
/// if `site` may use it; if not, access is denied at the added name.
pub proof fn law_member(t: Seq<DeclView>, site: usize, path: PathView, owner: usize, member: usize)
    requires
        well_formed(t),
        resolve(t, site, path) == Ok::<usize, ResolveError>(owner),
        0 < member < t.len(),
        t[member as int].parent == Some(owner),
    ensures
        resolve(t, site, child_path(path, t[member as int].name)) == if visible(t, site, member) {
            Ok::<usize, ResolveError>(member)
        } else {
            Err(ResolveError::AccessDenied { segment: path.segments.len() as usize })
        },
{
    let name = t[member as int].name;
    let last = seq![SegmentView::Name(name)];
    assert(child_path(path, name).segments =~= path.segments + last);
    assert(child_path(path, name) == longer_path(path, last));
    lemma_resolve_longer(t, site, path, last);
    assert(declares(t, owner, name, member));
    lemma_child_named(t, owner, name, member);
    lemma_walk_one(t, site, owner, name, path.segments.len());
}

/// Variants of a public enumeration.
///
/// A variant is as visible as its enumeration. So from wherever a path
/// resolves to a public enumeration, the path with the name of one of its
/// variants at its end resolves to that variant.
pub proof fn law_variant(
    t: Seq<DeclView>,
    site: usize,
    path: PathView,
    enumeration: usize,
    variant: usize,
)
    requires
        well_formed(t),
        resolve(t, site, path) == Ok::<usize, ResolveError>(enumeration),
        enumeration < t.len(),
        t[enumeration as int].kind is Enumeration,
        t[enumeration as int].visibility is Public,
        0 < variant < t.len(),
        t[variant as int].parent == Some(enumeration),
    ensures
        t[variant as int].kind is Variant,
        t[variant as int].visibility is Public,
        resolve(t, site, child_path(path, t[variant as int].name)) == Ok::<usize, ResolveError>(
            variant,
        ),
{
    assert(linked(t, variant));
    law_member(t, site, path, enumeration, variant);
}

/// Public functions of a structure.
///
/// From wherever a path resolves to a structure, the path with the name of
/// one of the structure's public functions at its end resolves to that
/// function, whatever the visibility of the structure's fields.
pub proof fn law_constructor(
    t: Seq<DeclView>,
    site: usize,
    path: PathView,
    structure: usize,
    function: usize,
)
    requires
        well_formed(t),
        resolve(t, site, path) == Ok::<usize, ResolveError>(structure),
        structure < t.len(),
        t[structure as int].kind is Structure,
        0 < function < t.len(),
        t[function as int].parent == Some(structure),
        t[function as int].kind is Function,
        t[function as int].visibility is Public,
    ensures
        resolve(t, site, child_path(path, t[function as int].name)) == Ok::<usize, ResolveError>(
            function,
        ),
{
    law_member(t, site, path, structure, function);
}

/// Fields of a structure, from outside.
///
/// Take a namespace that neither owns a structure nor stands below the
/// namespace that does. From wherever a path resolves to the structure for
/// a reference made there, the path with the name of a field at its end
/// resolves, to the field, if and only if the field is public; for a
/// private field access is denied at the field's name.
pub proof fn law_field(
    t: Seq<DeclView>,
    site: usize,
    path: PathView,
    structure: usize,
    field: usize,
)
    requires
        well_formed(t),
        resolve(t, site, path) == Ok::<usize, ResolveError>(structure),
        structure < t.len(),
        t[structure as int].kind is Structure,
        0 < field < t.len(),
        t[field as int].parent == Some(structure),
        t[field as int].kind is Field,
        !within(t, site, home(t, structure)),
    ensures
        resolve(t, site, child_path(path, t[field as int].name)) == if t[field as int].visibility
            is Public {
            Ok::<usize, ResolveError>(field)
        } else {
            Err(ResolveError::AccessDenied { segment: path.segments.len() as usize })
        },
{
    law_member(t, site, path, structure, field);
    if structure != 0 {
        assert(linked(t, structure));
    }
}

/// References through an imported name.
///
/// Let `site` have imported a name that it does not declare itself, and
/// let `path` resolve, for a reference made in `site`, to what the name is
/// bound to. Then whatever is written behind the name resolves as it does
/// behind `path`: to the same declaration, or to an error of the same kind.
pub proof fn law_alias(
    t: Seq<DeclView>,
    site: usize,
    name: Seq<char>,
    path: PathView,
    rest: Seq<SegmentView>,
)
    requires
        child_named(t, site, name) is None,
        t[site as int].imports.dom().contains(name),
        resolve(t, site, path) == Ok::<usize, ResolveError>(t[site as int].imports[name].target),
        path.absolute || path.segments.len() > 0 || rest.len() == 0 || !(rest[0] is Parent),
    ensures
        same_outcome(
            resolve(
                t,
                site,
                PathView { absolute: false, segments: seq![SegmentView::Name(name)] + rest },
            ),
            resolve(t, site, longer_path(path, rest)),
        ),
{
    let target = t[site as int].imports[name].target;
    let alias = seq![SegmentView::Name(name)];
    assert((alias + rest).drop_first() =~= rest);
    lemma_resolve_longer(t, site, path, rest);
    lemma_walk_shift(t, site, target, rest, 1, path.segments.len());
}

} // verus!

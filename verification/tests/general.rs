use restaurant::model::{Kind, ResolveError, Visibility};
use restaurant::path::Path;
use restaurant::tree::Tree;

/// A tree with namespaces three deep on two sides, and a private and a
/// public function in each.
fn town() -> (Tree, Vec<usize>) {
    let mut tree = Tree::new();
    let mut namespaces = vec![0];
    for (owner, name, visibility) in [
        (0, "north", Visibility::Public),
        (1, "mill", Visibility::Private),
        (2, "loft", Visibility::Public),
        (0, "south", Visibility::Private),
        (4, "quay", Visibility::Public),
        (5, "shed", Visibility::Public),
    ] {
        namespaces.push(tree.add_namespace(owner, name, visibility).unwrap());
    }
    for &n in &namespaces {
        tree.add_function(n, "hidden", Visibility::Private).unwrap();
        tree.add_function(n, "shown", Visibility::Public).unwrap();
    }
    (tree, namespaces)
}

fn stands_within(tree: &Tree, n: usize, m: usize) -> bool {
    let mut at = n;
    loop {
        if at == m {
            return true;
        }
        match tree.parent(at) {
            Some(p) => at = p,
            None => return false,
        }
    }
}

#[test]
fn private_declaration_resolves_from_its_owner_and_below_only() {
    let (tree, namespaces) = town();
    for d in 0..tree.len() {
        if tree.visibility(d) != Visibility::Private {
            continue;
        }
        let owner = tree.parent(d).unwrap();
        for &site in &namespaces {
            let found = tree.resolve(site, &tree.path_of(d));
            if stands_within(&tree, site, owner) {
                assert_eq!(found, Ok(d));
            } else {
                assert!(matches!(found, Err(ResolveError::AccessDenied { .. })));
            }
        }
    }
}

#[test]
fn public_declaration_resolves_where_the_way_to_it_is_open() {
    let (tree, namespaces) = town();
    for d in 1..tree.len() {
        if tree.visibility(d) != Visibility::Public {
            continue;
        }
        for &site in &namespaces {
            // Every declaration above `d` must be public, unless `site`
            // stands within its owner.
            let mut open = true;
            let mut at = tree.parent(d).unwrap();
            while let Some(p) = tree.parent(at) {
                if tree.visibility(at) == Visibility::Private && !stands_within(&tree, site, p) {
                    open = false;
                }
                at = p;
            }
            assert_eq!(tree.resolve(site, &tree.path_of(d)).is_ok(), open);
            if open {
                assert_eq!(tree.resolve(site, &tree.path_of(d)), Ok(d));
            }
        }
    }
}

#[test]
fn public_way_from_the_common_ancestor_is_enough() {
    let (tree, namespaces) = town();
    // From `loft`, the way to `north::shown` starts at `north`, which is
    // public.
    let shown = tree.resolve(0, &Path::parse("north::shown")).unwrap();
    assert_eq!(tree.resolve(namespaces[3], &tree.path_of(shown)), Ok(shown));
}

#[test]
fn private_first_step_below_the_common_ancestor_is_no_obstacle() {
    let (tree, namespaces) = town();
    // `mill` is private and owned by `north`; `north` and the root meet in
    // the root, `north` is public, `mill` is the second step down.
    let in_mill = tree.resolve(namespaces[2], &Path::parse("shown")).unwrap();
    assert_eq!(
        tree.resolve(0, &tree.path_of(in_mill)),
        Err(ResolveError::AccessDenied { segment: 1 })
    );
    // From `north` itself `mill` is the first step down, and open.
    assert_eq!(tree.resolve(namespaces[1], &tree.path_of(in_mill)), Ok(in_mill));
    // `south` is private and owned by the root: the first step down from
    // the root, open to all that stands in the tree.
    let in_shed = tree.resolve(namespaces[6], &Path::parse("shown")).unwrap();
    assert_eq!(tree.resolve(namespaces[3], &tree.path_of(in_shed)), Ok(in_shed));
}

#[test]
fn every_variant_resolves_where_a_public_enumeration_does() {
    let mut tree = Tree::new();
    let a = tree.add_namespace(0, "a", Visibility::Public).unwrap();
    let b = tree.add_namespace(0, "b", Visibility::Public).unwrap();
    let e = tree.add_enumeration(a, "E", Visibility::Public).unwrap();
    let variants = [tree.add_variant(e, "X").unwrap(), tree.add_variant(e, "Y").unwrap()];
    tree.import_as(b, &Path::parse("crate::a::E"), "F", false).unwrap();
    for (site, text) in [(0, "a::E"), (a, "E"), (b, "super::a::E"), (b, "F"), (b, "crate::a::E")] {
        let path = Path::parse(text);
        assert_eq!(tree.resolve(site, &path), Ok(e));
        for v in variants {
            assert_eq!(tree.kind(v), Kind::Variant);
            assert_eq!(tree.resolve(site, &path.child(&tree.name(v))), Ok(v));
        }
    }
}

#[test]
fn public_constructor_resolves_whatever_the_fields_are() {
    let mut tree = Tree::new();
    let a = tree.add_namespace(0, "a", Visibility::Public).unwrap();
    let b = tree.add_namespace(0, "b", Visibility::Public).unwrap();
    let s = tree.add_structure(a, "S", Visibility::Public).unwrap();
    tree.add_field(s, "x", Visibility::Private).unwrap();
    tree.add_field(s, "y", Visibility::Private).unwrap();
    let make = tree.add_function(s, "make", Visibility::Public).unwrap();
    for (site, text) in [(0, "a::S"), (a, "S"), (b, "crate::a::S")] {
        let path = Path::parse(text);
        assert_eq!(tree.resolve(site, &path), Ok(s));
        assert_eq!(tree.resolve(site, &path.child("make")), Ok(make));
    }
}

#[test]
fn fields_resolve_from_outside_only_where_public() {
    let mut tree = Tree::new();
    let a = tree.add_namespace(0, "a", Visibility::Public).unwrap();
    let inner = tree.add_namespace(a, "inner", Visibility::Public).unwrap();
    let b = tree.add_namespace(0, "b", Visibility::Public).unwrap();
    let s = tree.add_structure(a, "S", Visibility::Public).unwrap();
    let x = tree.add_field(s, "x", Visibility::Public).unwrap();
    let y = tree.add_field(s, "y", Visibility::Private).unwrap();
    let path = Path::parse("crate::a::S");
    for site in [0, b] {
        assert_eq!(tree.resolve(site, &path.child("x")), Ok(x));
        assert_eq!(tree.resolve(site, &path.child("y")), Err(ResolveError::AccessDenied { segment: 2 }));
    }
    for site in [a, inner] {
        assert_eq!(tree.resolve(site, &path.child("x")), Ok(x));
        assert_eq!(tree.resolve(site, &path.child("y")), Ok(y));
    }
}

#[test]
fn what_stands_behind_an_imported_name_resolves_as_behind_the_path() {
    let (mut tree, namespaces) = town();
    let site = namespaces[3];
    tree.import_as(site, &Path::parse("crate::south::quay"), "harbour", false).unwrap();
    for rest in ["shown", "hidden", "shed", "shed::shown", "shed::hidden", "nothing", "shed::nothing"] {
        let short = tree.resolve(site, &Path::parse(&format!("harbour::{}", rest)));
        let full = tree.resolve(site, &Path::parse(&format!("crate::south::quay::{}", rest)));
        match (short, full) {
            (Ok(a), Ok(b)) => assert_eq!(a, b),
            (Err(ResolveError::PathNotFound { segment: a }), Err(ResolveError::PathNotFound { segment: b })) => {
                assert_eq!(a + 1, b)
            },
            (Err(ResolveError::AccessDenied { segment: a }), Err(ResolveError::AccessDenied { segment: b })) => {
                assert_eq!(a + 1, b)
            },
            _ => panic!("the two references differ"),
        }
    }
}

#[test]
fn access_is_allowed_exactly_where_the_full_path_resolves() {
    let (tree, namespaces) = town();
    for &site in &namespaces {
        for d in 0..tree.len() {
            let found = tree.resolve(site, &tree.path_of(d));
            assert_eq!(tree.may_access(site, d), found == Ok(d));
            assert!(found == Ok(d) || matches!(found, Err(ResolveError::AccessDenied { .. })));
        }
    }
}

#[test]
fn resolution_is_the_same_every_time() {
    let (tree, namespaces) = town();
    for &site in &namespaces {
        for d in 0..tree.len() {
            let path = tree.path_of(d);
            assert_eq!(tree.resolve(site, &path), tree.resolve(site, &path));
        }
    }
}

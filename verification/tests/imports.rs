use restaurant::model::{ResolveError, Visibility};
use restaurant::path::Path;
use restaurant::tree::Tree;

struct House {
    tree: Tree,
    front: usize,
    hosting: usize,
    add_to_waitlist: usize,
    seat_at_table: usize,
    serving: usize,
    take_order: usize,
}

fn house() -> House {
    let mut tree = Tree::new();
    let front = tree.add_namespace(0, "front_of_house", Visibility::Private).unwrap();
    let hosting = tree.add_namespace(front, "hosting", Visibility::Public).unwrap();
    let add_to_waitlist = tree.add_function(hosting, "add_to_waitlist", Visibility::Public).unwrap();
    let seat_at_table = tree.add_function(hosting, "seat_at_table", Visibility::Private).unwrap();
    let serving = tree.add_namespace(front, "serving", Visibility::Public).unwrap();
    let take_order = tree.add_function(serving, "take_order", Visibility::Public).unwrap();
    tree.add_function(serving, "serve_order", Visibility::Private).unwrap();
    House { tree, front, hosting, add_to_waitlist, seat_at_table, serving, take_order }
}

#[test]
fn imported_name_resolves_as_the_full_path_does() {
    let mut h = house();
    let root = h.tree.root();
    let bound = h.tree.import(root, &Path::parse("crate::front_of_house::hosting"), false);
    assert_eq!(bound, Ok(h.hosting));
    let short = h.tree.resolve(root, &Path::parse("hosting::add_to_waitlist"));
    let full = h.tree.resolve(root, &Path::parse("crate::front_of_house::hosting::add_to_waitlist"));
    assert_eq!(short, Ok(h.add_to_waitlist));
    assert_eq!(short, full);
}

#[test]
fn import_through_a_relative_path() {
    let mut h = house();
    let root = h.tree.root();
    assert_eq!(h.tree.import(root, &Path::parse("self::front_of_house::serving"), false), Ok(h.serving));
    assert_eq!(h.tree.resolve(root, &Path::parse("serving::take_order")), Ok(h.take_order));
    assert_eq!(h.tree.resolve(root, &Path::parse("serving")), Ok(h.serving));
}

#[test]
fn errors_behind_an_imported_name_are_those_of_the_full_path() {
    let mut h = house();
    let root = h.tree.root();
    h.tree.import(root, &Path::parse("crate::front_of_house::hosting"), false).unwrap();
    assert_eq!(
        h.tree.resolve(root, &Path::parse("hosting::seat_at_table")),
        Err(ResolveError::AccessDenied { segment: 1 })
    );
    assert_eq!(
        h.tree.resolve(root, &Path::parse("crate::front_of_house::hosting::seat_at_table")),
        Err(ResolveError::AccessDenied { segment: 2 })
    );
    assert_eq!(
        h.tree.resolve(root, &Path::parse("hosting::nothing")),
        Err(ResolveError::PathNotFound { segment: 1 })
    );
}

#[test]
fn import_is_rejected_as_the_reference_would_be() {
    let mut h = house();
    let root = h.tree.root();
    assert_eq!(
        h.tree.import(root, &Path::parse("crate::front_of_house::hosting::seat_at_table"), false),
        Err(ResolveError::AccessDenied { segment: 2 })
    );
    assert_eq!(
        h.tree.import(root, &Path::parse("crate::front_of_house::kitchen"), true),
        Err(ResolveError::PathNotFound { segment: 1 })
    );
    // Nothing was bound.
    assert_eq!(
        h.tree.resolve(root, &Path::parse("seat_at_table")),
        Err(ResolveError::PathNotFound { segment: 0 })
    );
    assert_eq!(
        h.tree.resolve(root, &Path::parse("kitchen")),
        Err(ResolveError::PathNotFound { segment: 0 })
    );
}

#[test]
fn import_is_not_handed_down_to_children() {
    let mut h = house();
    let root = h.tree.root();
    h.tree.import(root, &Path::parse("crate::front_of_house::hosting"), false).unwrap();
    // The name exists in the root alone: below it, it is neither a bare
    // name nor one that the root offers.
    assert_eq!(
        h.tree.resolve(h.front, &Path::parse("hosting::add_to_waitlist")),
        Ok(h.add_to_waitlist)
    );
    assert_eq!(
        h.tree.resolve(h.serving, &Path::parse("hosting::add_to_waitlist")),
        Err(ResolveError::PathNotFound { segment: 0 })
    );
    assert_eq!(
        h.tree.resolve(h.serving, &Path::parse("crate::hosting::add_to_waitlist")),
        Err(ResolveError::PathNotFound { segment: 0 })
    );
    assert_eq!(
        h.tree.resolve(h.serving, &Path::parse("super::super::hosting")),
        Err(ResolveError::PathNotFound { segment: 1 })
    );
}

#[test]
fn renamed_import_is_found_under_the_new_name_only() {
    let mut h = house();
    let root = h.tree.root();
    let bound = h.tree.import_as(
        root,
        &Path::parse("crate::front_of_house::hosting::add_to_waitlist"),
        "queue",
        false,
    );
    assert_eq!(bound, Ok(h.add_to_waitlist));
    assert_eq!(h.tree.resolve(root, &Path::parse("queue")), Ok(h.add_to_waitlist));
    assert_eq!(
        h.tree.resolve(root, &Path::parse("add_to_waitlist")),
        Err(ResolveError::PathNotFound { segment: 0 })
    );
}

#[test]
fn reexported_import_is_open_to_everyone() {
    // `hosting` stands in the private `front_of_house`; the public
    // `restaurant` re-exports it, and so the street can reach it.
    let mut tree = Tree::new();
    let restaurant = tree.add_namespace(0, "restaurant", Visibility::Public).unwrap();
    let front = tree.add_namespace(restaurant, "front_of_house", Visibility::Private).unwrap();
    let hosting = tree.add_namespace(front, "hosting", Visibility::Public).unwrap();
    let add = tree.add_function(hosting, "add_to_waitlist", Visibility::Public).unwrap();
    let street = tree.add_namespace(0, "street", Visibility::Public).unwrap();
    let through = Path::parse("crate::restaurant::hosting::add_to_waitlist");
    assert_eq!(tree.resolve(street, &through), Err(ResolveError::PathNotFound { segment: 1 }));
    assert_eq!(tree.import(restaurant, &Path::parse("self::front_of_house::hosting"), true), Ok(hosting));
    assert_eq!(tree.resolve(street, &through), Ok(add));
    assert_eq!(tree.resolve(street, &Path::parse("crate::restaurant::hosting")), Ok(hosting));
    // The way through the private namespace stays closed.
    assert_eq!(
        tree.resolve(street, &Path::parse("crate::restaurant::front_of_house::hosting")),
        Err(ResolveError::AccessDenied { segment: 1 })
    );
}

#[test]
fn later_import_takes_the_name_from_an_earlier_one() {
    let mut h = house();
    let root = h.tree.root();
    h.tree.import_as(root, &Path::parse("front_of_house::hosting"), "room", false).unwrap();
    assert_eq!(h.tree.resolve(root, &Path::parse("room")), Ok(h.hosting));
    h.tree.import_as(root, &Path::parse("front_of_house::serving"), "room", false).unwrap();
    assert_eq!(h.tree.resolve(root, &Path::parse("room")), Ok(h.serving));
}

#[test]
fn declared_name_comes_before_an_imported_one() {
    let mut h = house();
    let root = h.tree.root();
    let bound = h.tree.import_as(root, &Path::parse("front_of_house::hosting"), "front_of_house", false);
    assert_eq!(bound, Ok(h.hosting));
    assert_eq!(h.tree.resolve(root, &Path::parse("front_of_house")), Ok(h.front));
}

#[test]
fn import_of_an_empty_path_takes_the_declared_name() {
    let mut h = house();
    assert_eq!(h.tree.import(h.hosting, &Path::parse("super"), false), Ok(h.front));
    assert_eq!(
        h.tree.resolve(h.hosting, &Path::parse("front_of_house::serving::take_order")),
        Ok(h.take_order)
    );
}

#[test]
fn import_through_an_imported_name_takes_the_last_segment() {
    let mut h = house();
    let root = h.tree.root();
    h.tree.import_as(root, &Path::parse("front_of_house::hosting"), "room", false).unwrap();
    assert_eq!(h.tree.import(root, &Path::parse("room::add_to_waitlist"), false), Ok(h.add_to_waitlist));
    assert_eq!(h.tree.resolve(root, &Path::parse("add_to_waitlist")), Ok(h.add_to_waitlist));
}

#[test]
fn glob_import_takes_the_public_declarations_only() {
    let mut h = house();
    let root = h.tree.root();
    assert_eq!(h.tree.import_all(root, &Path::parse("crate::front_of_house::hosting")), Ok(h.hosting));
    assert_eq!(h.tree.resolve(root, &Path::parse("add_to_waitlist")), Ok(h.add_to_waitlist));
    assert_eq!(
        h.tree.resolve(root, &Path::parse("seat_at_table")),
        Err(ResolveError::PathNotFound { segment: 0 })
    );
}

#[test]
fn glob_import_leaves_private_declarations_out_even_for_the_owner() {
    let mut h = house();
    // `hosting` may use its own private function, but a glob import of
    // `hosting` does not bind it.
    let kitchen = h.tree.add_namespace(h.hosting, "kitchen", Visibility::Public).unwrap();
    assert_eq!(h.tree.import_all(kitchen, &Path::parse("super")), Ok(h.hosting));
    assert_eq!(h.tree.resolve(kitchen, &Path::parse("add_to_waitlist")), Ok(h.add_to_waitlist));
    assert_eq!(
        h.tree.resolve(kitchen, &Path::parse("seat_at_table")),
        Err(ResolveError::PathNotFound { segment: 0 })
    );
    assert_eq!(h.tree.resolve(kitchen, &Path::parse("super::seat_at_table")), Ok(h.seat_at_table));
}

#[test]
fn glob_import_does_not_go_deeper() {
    let mut h = house();
    let root = h.tree.root();
    assert_eq!(h.tree.import_all(root, &Path::parse("front_of_house")), Ok(h.front));
    assert_eq!(h.tree.resolve(root, &Path::parse("hosting")), Ok(h.hosting));
    assert_eq!(h.tree.resolve(root, &Path::parse("serving")), Ok(h.serving));
    assert_eq!(h.tree.resolve(root, &Path::parse("serving::take_order")), Ok(h.take_order));
    assert_eq!(
        h.tree.resolve(root, &Path::parse("take_order")),
        Err(ResolveError::PathNotFound { segment: 0 })
    );
}

#[test]
fn glob_import_takes_what_is_public_at_the_time() {
    let mut h = house();
    let root = h.tree.root();
    h.tree.import_all(root, &Path::parse("front_of_house::serving")).unwrap();
    let later = h.tree.add_function(h.serving, "clear_table", Visibility::Public).unwrap();
    assert_eq!(
        h.tree.resolve(root, &Path::parse("clear_table")),
        Err(ResolveError::PathNotFound { segment: 0 })
    );
    h.tree.import_all(root, &Path::parse("front_of_house::serving")).unwrap();
    assert_eq!(h.tree.resolve(root, &Path::parse("clear_table")), Ok(later));
}

#[test]
fn glob_import_takes_the_name_from_an_earlier_import() {
    let mut h = house();
    let root = h.tree.root();
    h.tree.import_as(root, &Path::parse("front_of_house::serving::take_order"), "add_to_waitlist", false)
        .unwrap();
    h.tree.import_as(root, &Path::parse("front_of_house::serving"), "room", false).unwrap();
    assert_eq!(h.tree.resolve(root, &Path::parse("add_to_waitlist")), Ok(h.take_order));
    h.tree.import_all(root, &Path::parse("front_of_house::hosting")).unwrap();
    assert_eq!(h.tree.resolve(root, &Path::parse("add_to_waitlist")), Ok(h.add_to_waitlist));
    // A name that the target does not offer stays as it was.
    assert_eq!(h.tree.resolve(root, &Path::parse("room")), Ok(h.serving));
}

#[test]
fn glob_import_makes_a_reexported_name_private_again() {
    let mut tree = Tree::new();
    let a = tree.add_namespace(0, "a", Visibility::Public).unwrap();
    let f = tree.add_function(a, "f", Visibility::Public).unwrap();
    let b = tree.add_namespace(0, "b", Visibility::Public).unwrap();
    let c = tree.add_namespace(0, "c", Visibility::Public).unwrap();
    tree.import(b, &Path::parse("crate::a::f"), true).unwrap();
    assert_eq!(tree.resolve(c, &Path::parse("crate::b::f")), Ok(f));
    tree.import_all(b, &Path::parse("crate::a")).unwrap();
    assert_eq!(tree.resolve(b, &Path::parse("f")), Ok(f));
    assert_eq!(
        tree.resolve(c, &Path::parse("crate::b::f")),
        Err(ResolveError::PathNotFound { segment: 1 })
    );
}

#[test]
fn glob_import_is_for_the_importing_namespace_alone() {
    let mut h = house();
    h.tree.import_all(h.front, &Path::parse("hosting")).unwrap();
    assert_eq!(h.tree.resolve(h.front, &Path::parse("add_to_waitlist")), Ok(h.add_to_waitlist));
    assert_eq!(
        h.tree.resolve(h.tree.root(), &Path::parse("front_of_house::add_to_waitlist")),
        Err(ResolveError::PathNotFound { segment: 1 })
    );
}

#[test]
fn glob_import_is_rejected_as_the_reference_would_be() {
    let mut tree = Tree::new();
    let bank = tree.add_namespace(0, "bank", Visibility::Public).unwrap();
    let vault = tree.add_namespace(bank, "vault", Visibility::Private).unwrap();
    tree.add_function(vault, "gold", Visibility::Public).unwrap();
    let street = tree.add_namespace(0, "street", Visibility::Public).unwrap();
    assert_eq!(
        tree.import_all(street, &Path::parse("crate::bank::vault")),
        Err(ResolveError::AccessDenied { segment: 1 })
    );
    assert_eq!(
        tree.import_all(street, &Path::parse("crate::mint")),
        Err(ResolveError::PathNotFound { segment: 0 })
    );
    assert_eq!(
        tree.resolve(street, &Path::parse("gold")),
        Err(ResolveError::PathNotFound { segment: 0 })
    );
}

#[test]
fn glob_import_of_an_enumeration_takes_its_variants() {
    let mut tree = Tree::new();
    let back = tree.add_namespace(0, "back_of_house", Visibility::Private).unwrap();
    let appetizer = tree.add_enumeration(back, "Appetizer", Visibility::Public).unwrap();
    let soup = tree.add_variant(appetizer, "Soup").unwrap();
    let salad = tree.add_variant(appetizer, "Salad").unwrap();
    assert_eq!(tree.import_all(0, &Path::parse("back_of_house::Appetizer")), Ok(appetizer));
    assert_eq!(tree.resolve(0, &Path::parse("Soup")), Ok(soup));
    assert_eq!(tree.resolve(0, &Path::parse("Salad")), Ok(salad));
}

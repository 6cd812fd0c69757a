use restaurant::model::Visibility;
use restaurant::path::{Path, Segment};
use restaurant::tree::Tree;

fn name(text: &str) -> Segment {
    Segment::Name(String::from(text))
}

#[test]
fn crate_starts_at_the_root() {
    let path = Path::parse("crate::front_of_house::hosting");
    assert_eq!(path, Path { absolute: true, segments: vec![name("front_of_house"), name("hosting")] });
}

#[test]
fn self_starts_where_the_reference_is_made() {
    let path = Path::parse("self::front_of_house::serving");
    assert_eq!(
        path,
        Path { absolute: false, segments: vec![name("front_of_house"), name("serving")] }
    );
}

#[test]
fn super_is_a_step_to_the_parent() {
    let path = Path::parse("super::customer_order");
    assert_eq!(
        path,
        Path { absolute: false, segments: vec![Segment::Parent, name("customer_order")] }
    );
}

#[test]
fn any_other_first_part_is_a_name() {
    let path = Path::parse("hosting::add_to_waitlist");
    assert_eq!(
        path,
        Path { absolute: false, segments: vec![name("hosting"), name("add_to_waitlist")] }
    );
    assert_eq!(Path::parse("cook_order"), Path { absolute: false, segments: vec![name("cook_order")] });
}

#[test]
fn start_words_alone_are_empty_paths() {
    assert_eq!(Path::parse("crate"), Path { absolute: true, segments: vec![] });
    assert_eq!(Path::parse("self"), Path { absolute: false, segments: vec![] });
    assert_eq!(Path::parse("super"), Path { absolute: false, segments: vec![Segment::Parent] });
}

#[test]
fn start_words_are_names_anywhere_but_first() {
    assert_eq!(
        Path::parse("a::super::crate::self"),
        Path {
            absolute: false,
            segments: vec![name("a"), name("super"), name("crate"), name("self")],
        }
    );
    assert_eq!(
        Path::parse("super::super"),
        Path { absolute: false, segments: vec![Segment::Parent, name("super")] }
    );
}

#[test]
fn empty_text_is_one_empty_name() {
    assert_eq!(Path::parse(""), Path { absolute: false, segments: vec![name("")] });
}

#[test]
fn separators_at_the_ends_leave_empty_names() {
    assert_eq!(Path::parse("::a"), Path { absolute: false, segments: vec![name(""), name("a")] });
    assert_eq!(Path::parse("a::"), Path { absolute: false, segments: vec![name("a"), name("")] });
    assert_eq!(
        Path::parse("a::::b"),
        Path { absolute: false, segments: vec![name("a"), name(""), name("b")] }
    );
    assert_eq!(Path::parse("::"), Path { absolute: false, segments: vec![name(""), name("")] });
}

#[test]
fn separator_is_taken_at_its_first_place() {
    assert_eq!(Path::parse("a:::b"), Path { absolute: false, segments: vec![name("a"), name(":b")] });
    assert_eq!(Path::parse("a:b"), Path { absolute: false, segments: vec![name("a:b")] });
    assert_eq!(Path::parse(":"), Path { absolute: false, segments: vec![name(":")] });
    assert_eq!(
        Path::parse(":::::"),
        Path { absolute: false, segments: vec![name(""), name(""), name(":")] }
    );
}

#[test]
fn names_may_hold_any_characters() {
    assert_eq!(
        Path::parse("crate::küche::日本"),
        Path { absolute: true, segments: vec![name("küche"), name("日本")] }
    );
}

#[test]
fn child_adds_a_name_at_the_end() {
    let path = Path::parse("super::Breakfast").child("toast");
    assert_eq!(path, Path::parse("super::Breakfast::toast"));
    assert_eq!(Path::parse("crate").child("a"), Path::parse("crate::a"));
    assert_eq!(Path::parse("self").child("a"), Path::parse("a"));
}

#[test]
fn path_of_names_the_declarations_from_the_root_down() {
    let mut tree = Tree::new();
    let a = tree.add_namespace(0, "a", Visibility::Public).unwrap();
    let b = tree.add_namespace(a, "b", Visibility::Private).unwrap();
    let s = tree.add_structure(b, "S", Visibility::Public).unwrap();
    let x = tree.add_field(s, "x", Visibility::Private).unwrap();
    assert_eq!(tree.path_of(x), Path::parse("crate::a::b::S::x"));
    assert_eq!(tree.path_of(a), Path::parse("crate::a"));
    assert_eq!(tree.path_of(0), Path::parse("crate"));
}

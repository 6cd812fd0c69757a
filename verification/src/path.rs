//! Paths as values.

use vstd::prelude::*;
use vstd::string::StrSliceExecFns;
use crate::model::{child_path, PathView, SegmentView};

verus! {

/// One segment of a path.
#[derive(Clone, Debug, PartialEq, Eq)]
pub enum Segment {
    /// A step to the parent of the referencing namespace.
    Parent,
    /// The name of something in the scope reached so far.
    Name(String),
}

/// A path: where it starts, and the segments to consume from there.
#[derive(Clone, Debug, PartialEq, Eq)]
pub struct Path {
    /// Whether resolution starts at the root rather than at the referencing
    /// namespace.
    pub absolute: bool,
    pub segments: Vec<Segment>,
}

impl View for Segment {
    type V = SegmentView;

    open spec fn view(&self) -> SegmentView {
        match self {
            Segment::Parent => SegmentView::Parent,
            Segment::Name(name) => SegmentView::Name(name@),
        }
    }
}

/// A list of segments as the model sees it.
pub open spec fn segment_views(segments: Seq<Segment>) -> Seq<SegmentView> {
    Seq::new(segments.len(), |i: int| segments[i]@)
}

impl View for Path {
    type V = PathView;

    open spec fn view(&self) -> PathView {
        PathView { absolute: self.absolute, segments: segment_views(self.segments@) }
    }
}

/// The text holds the separator `::` at place `i`.
pub open spec fn separator_at(text: Seq<char>, i: int) -> bool {
    0 <= i && i + 1 < text.len() && text[i] == ':' && text[i + 1] == ':'
}

/// The place of the first separator in the text, if it holds one.
pub open spec fn first_separator(text: Seq<char>) -> Option<int> {
    if exists|i: int| separator_at(text, i) {
        Some(
            choose|i: int|
                separator_at(text, i) && forall|j: int| separator_at(text, j) ==> i <= j,
        )
    } else {
        None
    }
}

/// The parts of a text that separators stand between: what stands before
/// the first separator, then the parts of what stands behind it. A text
/// without a separator is one part.
#[verifier::opaque]
pub open spec fn split(text: Seq<char>) -> Seq<Seq<char>>
    decreases text.len(),
{
    match first_separator(text) {
        Some(i) => if 0 <= i && i + 2 <= text.len() {
            seq![text.take(i)] + split(text.skip(i + 2))
        } else {
            seq![text]
        },
        None => seq![text],
    }
}

/// Each part as the name of a segment.
pub open spec fn named(parts: Seq<Seq<char>>) -> Seq<SegmentView> {
    Seq::new(parts.len(), |i: int| SegmentView::Name(parts[i]))
}

/// Where a path starts that is written with the given first part: whether
/// at the root, what segments come before the names, and how many parts,
/// one or none, have said so and are no names.
pub open spec fn start_of(first: Seq<char>) -> (bool, Seq<SegmentView>, int) {
    if first == "crate"@ {
        (true, Seq::empty(), 1)
    } else if first == "self"@ {
        (false, Seq::empty(), 1)
    } else if first == "super"@ {
        (false, seq![SegmentView::Parent], 1)
    } else {
        (false, Seq::empty(), 0)
    }
}

/// The path that a text stands for.
///
/// The text is split at each `::`. The first part says where the path
/// starts: `crate` at the root; `self` at the referencing namespace;
/// `super` at its parent. Any other first part is a name, looked up in the
/// referencing namespace, and so is every later part.
pub open spec fn parsed(text: Seq<char>) -> PathView {
    let parts = split(text);
    let start = start_of(parts[0]);
    PathView { absolute: start.0, segments: start.1 + named(parts.skip(start.2)) }
}

/// The text holds no separator from place `from` up to, not counting, place
/// `to`.
pub open spec fn none_between(text: Seq<char>, from: int, to: int) -> bool {
    forall|j: int| from <= j < to ==> !#[trigger] separator_at(text, j)
}

/// A text with a separator that no other stands before splits there.
pub proof fn lemma_split_at(text: Seq<char>, i: int)
    requires
        separator_at(text, i),
        none_between(text, 0, i),
    ensures
        split(text) == seq![text.take(i)] + split(text.skip(i + 2)),
{
    let k = choose|k: int| separator_at(text, k) && forall|j: int| separator_at(text, j) ==> k <= j;
    assert(separator_at(text, i) && forall|j: int| separator_at(text, j) ==> i <= j);
    assert(k == i);
    assert(first_separator(text) == Some(i));
    reveal(split);
}

/// A text without a separator is one part.
pub proof fn lemma_split_whole(text: Seq<char>)
    requires
        none_between(text, 0, text.len() as int),
    ensures
        split(text) == seq![text],
{
    assert forall|i: int| !separator_at(text, i) by {
        if 0 <= i < text.len() {
            assert(!separator_at(text, i));
        }
    }
    assert(first_separator(text) is None);
    reveal(split);
}

/// What stands behind place `start` holds a separator where the text does.
pub proof fn lemma_separator_behind(text: Seq<char>, start: int, i: int)
    requires
        0 <= start <= i,
        start <= text.len(),
    ensures
        separator_at(text.skip(start), i - start) == separator_at(text, i),
{
}

/// A list of parts as texts.
pub open spec fn part_views(parts: Seq<String>) -> Seq<Seq<char>> {
    Seq::new(parts.len(), |i: int| parts[i]@)
}

/// Taking one part off the front of what is left to split.
proof fn lemma_split_step(
    text: Seq<char>,
    done: Seq<Seq<char>>,
    start: int,
    i: int,
    part: Seq<char>,
)
    requires
        0 <= start <= i,
        separator_at(text, i),
        none_between(text, start, i),
        split(text) == done + split(text.skip(start)),
        part == text.subrange(start, i),
    ensures
        split(text) == done.push(part) + split(text.skip(i + 2)),
{
    let rest = text.skip(start);
    lemma_separator_behind(text, start, i);
    assert forall|j: int| 0 <= j < i - start implies !#[trigger] separator_at(rest, j) by {
        lemma_separator_behind(text, start, j + start);
    }
    lemma_split_at(rest, i - start);
    assert(rest.take(i - start) =~= part);
    assert(rest.skip(i - start + 2) =~= text.skip(i + 2));
    assert(done + (seq![part] + split(text.skip(i + 2))) =~= done.push(part) + split(
        text.skip(i + 2),
    ));
}

/// Taking the last part.
proof fn lemma_split_end(text: Seq<char>, done: Seq<Seq<char>>, start: int, i: int, part: Seq<char>)
    requires
        0 <= start <= i <= text.len(),
        i + 1 >= text.len(),
        none_between(text, start, i),
        split(text) == done + split(text.skip(start)),
        part == text.subrange(start, text.len() as int),
    ensures
        split(text) == done.push(part),
{
    let rest = text.skip(start);
    assert forall|j: int| 0 <= j < rest.len() implies !#[trigger] separator_at(rest, j) by {
        lemma_separator_behind(text, start, j + start);
    }
    lemma_split_whole(rest);
    assert(rest =~= part);
    assert(done + seq![part] =~= done.push(part));
}

/// Splits a text at each `::`.
pub(crate) fn split_text(text: &str) -> (parts: Vec<String>)
    ensures
        part_views(parts@) == split(text@),
        parts@.len() > 0,
{
    let n = text.unicode_len();
    let mut parts: Vec<String> = Vec::new();
    let mut start: usize = 0;
    let mut i: usize = 0;
    proof {
        assert(text@.skip(0) =~= text@);
        assert(part_views(parts@) + split(text@) =~= split(text@));
    }
    while i < n && i + 1 < n
        invariant
            n == text@.len(),
            start <= i <= n,
            none_between(text@, start as int, i as int),
            split(text@) == part_views(parts@) + split(text@.skip(start as int)),
        decreases n - i,
    {
        if text.get_char(i) == ':' && text.get_char(i + 1) == ':' {
            let part = text.substring_char(start, i).to_owned();
            proof {
                lemma_split_step(text@, part_views(parts@), start as int, i as int, part@);
                assert(part_views(parts@.push(part)) =~= part_views(parts@).push(part@));
            }
            parts.push(part);
            i = i + 2;
            start = i;
        } else {
            i = i + 1;
        }
    }
    let part = text.substring_char(start, n).to_owned();
    proof {
        lemma_split_end(text@, part_views(parts@), start as int, i as int, part@);
        assert(part_views(parts@.push(part)) =~= part_views(parts@).push(part@));
    }
    parts.push(part);
    parts
}

/// The views of a list of segments with one more at its end.
proof fn lemma_views_push(segments: Seq<Segment>, segment: Segment)
    ensures
        segment_views(segments.push(segment)) == segment_views(segments).push(segment@),
{
    assert(segment_views(segments.push(segment)) =~= segment_views(segments).push(segment@));
}

impl Path {
    /// Reads a path from a text such as `crate::front_of_house::hosting`.
    ///
    /// The text is split at each `::`. The first part says where the path
    /// starts: `crate` at the root; `self` at the referencing namespace;
    /// `super` at its parent. Any other first part is a name, looked up in
    /// the referencing namespace, and so is every later part.
    pub fn parse(text: &str) -> (path: Path)
        ensures
            path@ == parsed(text@),
    {
        let parts = split_text(text);
        let ghost texts = part_views(parts@);
        let ghost start = start_of(texts[0]);
        assert(texts[0] == parts@[0]@);
        let mut absolute = false;
        let mut segments: Vec<Segment> = Vec::new();
        let mut i: usize = 1;
        if parts[0] == "crate".to_owned() {
            absolute = true;
        } else if parts[0] == "self".to_owned() {
        } else if parts[0] == "super".to_owned() {
            segments.push(Segment::Parent);
        } else {
            i = 0;
        }
        proof {
            assert(segment_views(segments@) =~= start.1);
            assert(start.1 + named(texts.subrange(start.2, i as int)) =~= start.1);
        }
        while i < parts.len()
            invariant
                0 <= start.2 <= i <= parts@.len(),
                texts == part_views(parts@),
                segment_views(segments@) == start.1 + named(texts.subrange(start.2, i as int)),
            decreases parts@.len() - i,
        {
            let segment = Segment::Name(parts[i].clone());
            proof {
                lemma_views_push(segments@, segment);
                assert(texts[i as int] == parts@[i as int]@);
                assert(named(texts.subrange(start.2, i + 1)) =~= named(
                    texts.subrange(start.2, i as int),
                ).push(segment@));
                assert(start.1 + named(texts.subrange(start.2, i as int)).push(segment@) =~= (
                start.1 + named(texts.subrange(start.2, i as int))).push(segment@));
            }
            segments.push(segment);
            i = i + 1;
        }
        proof {
            assert(texts.subrange(start.2, parts@.len() as int) =~= texts.skip(start.2));
        }
        Path { absolute, segments }
    }

    /// The path with one more name at its end.
    pub fn child(&self, name: &str) -> (path: Path)
        ensures
            path@ == child_path(self@, name@),
    {
        let mut segments: Vec<Segment> = Vec::new();
        let mut i: usize = 0;
        proof {
            assert(segment_views(segments@) =~= segment_views(self.segments@).take(0));
        }
        while i < self.segments.len()
            invariant
                i <= self.segments@.len(),
                segment_views(segments@) == segment_views(self.segments@).take(i as int),
            decreases self.segments@.len() - i,
        {
            let segment = match &self.segments[i] {
                Segment::Parent => Segment::Parent,
                Segment::Name(name) => Segment::Name(name.clone()),
            };
            proof {
                lemma_views_push(segments@, segment);
                assert(segment@ == segment_views(self.segments@)[i as int]);
                assert(segment_views(self.segments@).take(i as int).push(segment@)
                    =~= segment_views(self.segments@).take(i + 1));
            }
            segments.push(segment);
            i = i + 1;
        }
        let last = Segment::Name(name.to_owned());
        proof {
            assert(segment_views(self.segments@).take(self.segments@.len() as int)
                =~= segment_views(self.segments@));
            lemma_views_push(segments@, last);
        }
        segments.push(last);
        Path { absolute: self.absolute, segments }
    }
}

} // verus!

//! The syntax tree of a JSONPath query.
use vstd::prelude::*;

verus! {

/// One step of a JSONPath query.
#[derive(Debug)]
pub enum PathSegment {
    /// `$`: the document root.
    Root,
    /// `@`: the node the step is applied to.
    Current,
    /// `.name` or `['name']`: the object member with that key.
    Child(String),
    /// `[n]`: the array element at `n`; negative indices count from the end.
    Index(isize),
    /// `.*` or `[*]`: every child.
    Wildcard,
    /// `..name` (or `..*`): descendants, only object members with that key
    /// when a name is given.
    RecursiveDescent(Option<String>),
    /// `[start:end]`: a range of array elements.
    Slice(Option<isize>, Option<isize>),
    /// `['a', 'b']`: several object members.
    MultiProperty(Vec<String>),
}

/// The mathematical model of a path segment.
pub enum SegmentModel {
    Root,
    Current,
    Child(Seq<char>),
    Index(int),
    Wildcard,
    RecursiveDescent(Option<Seq<char>>),
    Slice(Option<int>, Option<int>),
    MultiProperty(Seq<Seq<char>>),
}

/// The models of a sequence of strings.
pub open spec fn strings_model(v: Seq<String>) -> Seq<Seq<char>> {
    v.map_values(|s: String| s@)
}

impl View for PathSegment {
    type V = SegmentModel;

    open spec fn view(&self) -> SegmentModel {
        match self {
            PathSegment::Root => SegmentModel::Root,
            PathSegment::Current => SegmentModel::Current,
            PathSegment::Child(s) => SegmentModel::Child(s@),
            PathSegment::Index(i) => SegmentModel::Index(*i as int),
            PathSegment::Wildcard => SegmentModel::Wildcard,
            PathSegment::RecursiveDescent(o) => SegmentModel::RecursiveDescent(
                match o {
                    Some(s) => Some(s@),
                    None => None,
                },
            ),
            PathSegment::Slice(a, b) => SegmentModel::Slice(
                match a {
                    Some(x) => Some(*x as int),
                    None => None,
                },
                match b {
                    Some(x) => Some(*x as int),
                    None => None,
                },
            ),
            PathSegment::MultiProperty(v) => SegmentModel::MultiProperty(strings_model(v@)),
        }
    }
}

/// The models of a sequence of segments.
pub open spec fn segments_model(v: Seq<PathSegment>) -> Seq<SegmentModel> {
    v.map_values(|s: PathSegment| s@)
}

fn strings_equal(a: &Vec<String>, b: &Vec<String>) -> (res: bool)
    ensures
        res == (strings_model(a@) == strings_model(b@)),
{
    if a.len() != b.len() {
        assert(strings_model(a@).len() != strings_model(b@).len());
        return false;
    }
    let n = a.len();
    for i in 0..n
        invariant
            n == a@.len(),
            n == b@.len(),
            forall|j: int| 0 <= j < i ==> (#[trigger] a@[j])@ == b@[j]@,
    {
        if a[i] != b[i] {
            assert(strings_model(a@)[i as int] != strings_model(b@)[i as int]);
            return false;
        }
    }
    assert(strings_model(a@) =~= strings_model(b@));
    true
}

impl PathSegment {
    /// Structural equality of two segments.
    pub fn equals(&self, other: &PathSegment) -> (res: bool)
        ensures
            res == (self@ == other@),
    {
        match (self, other) {
            (PathSegment::Root, PathSegment::Root) => true,
            (PathSegment::Current, PathSegment::Current) => true,
            (PathSegment::Child(a), PathSegment::Child(b)) => *a == *b,
            (PathSegment::Index(a), PathSegment::Index(b)) => *a == *b,
            (PathSegment::Wildcard, PathSegment::Wildcard) => true,
            (PathSegment::RecursiveDescent(a), PathSegment::RecursiveDescent(b)) => match (a, b) {
                (Some(x), Some(y)) => *x == *y,
                (None, None) => true,
                _ => false,
            },
            (PathSegment::Slice(a1, b1), PathSegment::Slice(a2, b2)) => {
                let first = match (a1, a2) {
                    (Some(x), Some(y)) => *x == *y,
                    (None, None) => true,
                    _ => false,
                };
                let second = match (b1, b2) {
                    (Some(x), Some(y)) => *x == *y,
                    (None, None) => true,
                    _ => false,
                };
                first && second
            },
            (PathSegment::MultiProperty(a), PathSegment::MultiProperty(b)) => strings_equal(a, b),
            _ => false,
        }
    }
}

impl PartialEq for PathSegment {
    fn eq(&self, other: &Self) -> (res: bool) {
        self.equals(other)
    }
}

impl vstd::std_specs::cmp::PartialEqSpecImpl for PathSegment {
    open spec fn obeys_eq_spec() -> bool {
        true
    }

    open spec fn eq_spec(&self, other: &Self) -> bool {
        self@ == other@
    }
}

/// A parsed JSONPath query: its segments in order.
#[derive(Debug)]
pub struct JsonPath {
    pub segments: Vec<PathSegment>,
}

impl JsonPath {
    /// A path made of `segments`.
    pub fn new(segments: Vec<PathSegment>) -> (res: Self)
        ensures
            res.segments@ == segments@,
    {
        JsonPath { segments }
    }
}

} // verus!

use vstd::prelude::*;

use crate::text::{copy_texts, texts};

verus! {

/// A place in a JSON document: the names and indices that lead to it from the
/// root, one segment each.
#[derive(Debug, PartialEq)]
pub struct Location {
    pub segments: Vec<String>,
}

impl View for Location {
    type V = Seq<Seq<char>>;

    open spec fn view(&self) -> Seq<Seq<char>> {
        texts(self.segments@)
    }
}

impl Location {
    /// The root of a document.
    pub fn new() -> (r: Location)
        ensures
            r@ == Seq::<Seq<char>>::empty(),
    {
        let r = Location { segments: Vec::new() };
        assert(r@ =~= Seq::<Seq<char>>::empty());
        r
    }

    /// The place one segment below this one.
    pub fn join(&self, segment: &str) -> (r: Location)
        ensures
            r@ == self@.push(segment@),
    {
        let mut segments = copy_texts(&self.segments);
        segments.push(segment.to_owned());
        let r = Location { segments };
        assert(r@ =~= self@.push(segment@));
        r
    }

    /// The same place, in a new value.
    pub fn duplicate(&self) -> (r: Location)
        ensures
            r@ == self@,
    {
        Location { segments: copy_texts(&self.segments) }
    }
}

} // verus!

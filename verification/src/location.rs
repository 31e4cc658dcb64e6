//! Source locations for diagnostics: a filename plus line number, the end of
//! a file, or an unknown place.

use vstd::prelude::*;

verus! {

/// A point in source text that an error or a token can be attributed to.
#[derive(Debug)]
pub enum Location {
    Unknown,
    Eof(String),
    Line(String, usize),
}

/// The mathematical model of a `Location`: filenames as character sequences.
pub enum LocationModel {
    Unknown,
    Eof(Seq<char>),
    Line(Seq<char>, nat),
}

impl Location {
    /// The model of this location, with strings taken to their views.
    pub open spec fn model(self) -> LocationModel {
        match self {
            Location::Unknown => LocationModel::Unknown,
            Location::Eof(f) => LocationModel::Eof(f@),
            Location::Line(f, n) => LocationModel::Line(f@, n as nat),
        }
    }

    pub fn new_line(filename: String, line: usize) -> (r: Location)
        ensures
            r == Location::Line(filename, line),
    {
        Location::Line(filename, line)
    }

    pub fn new_eof(filename: String) -> (r: Location)
        ensures
            r == Location::Eof(filename),
    {
        Location::Eof(filename)
    }
}

impl Clone for Location {
    fn clone(&self) -> (r: Self)
        ensures
            r == *self,
    {
        match self {
            Location::Unknown => Location::Unknown,
            Location::Eof(f) => Location::Eof(f.clone()),
            Location::Line(f, n) => Location::Line(f.clone(), *n),
        }
    }
}

impl PartialEq for Location {
    fn eq(&self, other: &Self) -> (r: bool) {
        match (self, other) {
            (Location::Unknown, Location::Unknown) => true,
            (Location::Eof(a), Location::Eof(b)) => *a == *b,
            (Location::Line(a, la), Location::Line(b, lb)) => *a == *b && *la == *lb,
            _ => false,
        }
    }
}

impl Eq for Location {}

impl vstd::std_specs::cmp::PartialEqSpecImpl for Location {
    open spec fn obeys_eq_spec() -> bool {
        true
    }

    open spec fn eq_spec(&self, other: &Self) -> bool {
        self.model() == other.model()
    }
}

} // verus!

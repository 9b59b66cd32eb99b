//! Records of a machine-motion program. Numbers are held as the bit patterns
//! of single-precision values: the records are overlaid and handed on here,
//! never computed with.
use vstd::prelude::*;

verus! {

/// A motion record: the major code and the words that the line carries.
/// Each word is the bit pattern of a single-precision number; a missing
/// word means "unchanged".
#[derive(Clone, Copy, Debug, PartialEq, Eq, Structural)]
pub struct GCode1Coord {
    pub major: u32,
    pub x: Option<u32>,
    pub y: Option<u32>,
    pub z: Option<u32>,
    pub e: Option<u32>,
    pub f: Option<u32>,
}

/// One record of the program.
pub enum GCode1 {
    /// The start of the layer with the given index.
    Layer(usize),
    /// A comment of the form `KEY:VALUE`.
    TypedComment(String, String),
    /// A motion record.
    Coord(GCode1Coord),
}

/// `b` where it holds a word, else `a`.
pub open spec fn overlay(a: Option<u32>, b: Option<u32>) -> Option<u32> {
    if b is Some {
        b
    } else {
        a
    }
}

/// What a record asks of the runner, by its major code.
#[derive(Clone, Copy, Debug, PartialEq, Eq, Structural)]
pub enum MajorKind {
    /// Codes 0 and 1: move, and extrude on the way.
    Move,
    /// Code 92: set the position without moving.
    SetPosition,
    /// Any other code: not supported, passed over.
    Unsupported,
}

/// What the major code `major` asks of the runner.
pub open spec fn major_kind(major: u32) -> MajorKind {
    if major == 92 {
        MajorKind::SetPosition
    } else if major == 0 || major == 1 {
        MajorKind::Move
    } else {
        MajorKind::Unsupported
    }
}

impl GCode1Coord {
    /// The record `self` with every word that `other` carries taken from
    /// `other`. The major code stays that of `self`.
    pub open spec fn spec_apply(self, other: GCode1Coord) -> GCode1Coord {
        GCode1Coord {
            major: self.major,
            x: overlay(self.x, other.x),
            y: overlay(self.y, other.y),
            z: overlay(self.z, other.z),
            e: overlay(self.e, other.e),
            f: overlay(self.f, other.f),
        }
    }

    /// A record with the given major code and no words.
    pub fn new(major: u32) -> (r: GCode1Coord)
        ensures
            r == (GCode1Coord { major: major, x: None, y: None, z: None, e: None, f: None }),
    {
        GCode1Coord { major, x: None, y: None, z: None, e: None, f: None }
    }

    /// Overlays the words of `other` onto `self`.
    pub fn apply(&self, other: &GCode1Coord) -> (out: GCode1Coord)
        ensures
            out == self.spec_apply(*other),
    {
        let mut out = *self;
        if other.x.is_some() {
            out.x = other.x;
        }
        if other.y.is_some() {
            out.y = other.y;
        }
        if other.z.is_some() {
            out.z = other.z;
        }
        if other.e.is_some() {
            out.e = other.e;
        }
        if other.f.is_some() {
            out.f = other.f;
        }
        out
    }

    /// What the record asks of the runner.
    pub fn kind(&self) -> (r: MajorKind)
        ensures
            r == major_kind(self.major),
    {
        if self.major == 92 {
            MajorKind::SetPosition
        } else if self.major == 0 || self.major == 1 {
            MajorKind::Move
        } else {
            MajorKind::Unsupported
        }
    }
}

/// Overlaying nothing changes nothing, and overlaying twice is overlaying
/// once.
pub proof fn lemma_apply_laws(a: GCode1Coord, b: GCode1Coord)
    ensures
        a.spec_apply(GCode1Coord { major: b.major, x: None, y: None, z: None, e: None, f: None })
            == a,
        a.spec_apply(b).spec_apply(b) == a.spec_apply(b),
{
}

} // verus!

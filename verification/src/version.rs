//! A parser for simple `major.minor.patch[-snapshot]` version strings,
//! built from the engine's combinators.

use vstd::prelude::*;

use crate::charlike::lemma_vec_deep_view_id;
use crate::combinators::{LeftP, Mapped, OrElse, PairP, RightP, Trans};
use crate::engine::Parser;
use crate::number::IntegerParser;
use crate::parsers::{Empty, Rest, Take};
use crate::prefix::Ignore;
use crate::text::chars_to_string;

verus! {

/// A parsed version with an optional snapshot tag.
pub struct AnpaVersion {
    /// The major version.
    pub major: u32,
    /// The minor version.
    pub minor: u32,
    /// The patch version.
    pub patch: u32,
    /// The snapshot tag, when the version ends in `-tag`.
    pub snapshot: Option<String>,
}

/// The ghost image of a parsed version.
pub ghost struct AnpaVersionView {
    /// The major version.
    pub major: u32,
    /// The minor version.
    pub minor: u32,
    /// The patch version.
    pub patch: u32,
    /// The snapshot tag.
    pub snapshot: Option<Seq<char>>,
}

impl DeepView for AnpaVersion {
    type V = AnpaVersionView;

    open spec fn deep_view(&self) -> AnpaVersionView {
        AnpaVersionView {
            major: self.major,
            minor: self.minor,
            patch: self.patch,
            snapshot: (match self.snapshot {
                Some(ref s) => Some(s@),
                None => None,
            }),
        }
    }
}

/// Reading the rest of the input as a snapshot tag.
#[derive(Clone, Copy)]
pub struct SnapshotTag;

impl Trans<Vec<char>> for SnapshotTag {
    type Out = Option<String>;

    open spec fn spec_trans(&self, x: Seq<char>) -> Option<Seq<char>> {
        Some(x)
    }

    fn trans(&self, x: Vec<char>) -> (r: Option<String>) {
        proof {
            lemma_vec_deep_view_id(&x);
        }
        let s = chars_to_string(x.as_slice(), 0, x.len());
        proof {
            assert(s@ =~= x@);
        }
        Some(s)
    }
}

/// No snapshot tag: the input ended without one.
#[derive(Clone, Copy)]
pub struct NoSnapshot;

impl Trans<Vec<char>> for NoSnapshot {
    type Out = Option<String>;

    open spec fn spec_trans(&self, x: Seq<char>) -> Option<Seq<char>> {
        None
    }

    fn trans(&self, x: Vec<char>) -> (r: Option<String>) {
        None
    }
}

/// Assembling a version from three components and the optional snapshot.
#[derive(Clone, Copy)]
pub struct MakeVersion;

impl Trans<(((u32, u32), u32), Option<String>)> for MakeVersion {
    type Out = AnpaVersion;

    open spec fn spec_trans(&self, x: (((u32, u32), u32), Option<Seq<char>>)) -> AnpaVersionView {
        AnpaVersionView { major: x.0.0.0, minor: x.0.0.1, patch: x.0.1, snapshot: x.1 }
    }

    fn trans(&self, x: (((u32, u32), u32), Option<String>)) -> (r: AnpaVersion) {
        let (core, snapshot) = x;
        let ((major, minor), patch) = core;
        AnpaVersion { major, minor, patch, snapshot }
    }
}

/// A `u32` version component followed by a dot.
pub type VComponent = LeftP<IntegerParser<u32>, Take<Ignore<char>>>;

/// The snapshot part: `-` and the rest of the input, or nothing at the end
/// of the input.
pub type Snapshot = OrElse<
    Mapped<RightP<Take<Ignore<char>>, Rest>, SnapshotTag>,
    Mapped<Empty, NoSnapshot>,
>;

/// The whole version grammar.
pub type VersionParser = Mapped<PairP<PairP<PairP<VComponent, VComponent>, IntegerParser<u32>>, Snapshot>, MakeVersion>;

/// The version grammar: `major.minor.patch`, then either `-` and a snapshot
/// tag taking the rest of the input, or the end of the input.
pub open spec fn spec_version_parser() -> VersionParser {
    let number: IntegerParser<u32> = IntegerParser {
        checked: false,
        allow_neg: false,
        marker: core::marker::PhantomData,
    };
    let component: VComponent = LeftP { p1: number, p2: Take { prefix: Ignore('.') } };
    let snapshot: Snapshot = OrElse {
        p1: Mapped { p: RightP { p1: Take { prefix: Ignore('-') }, p2: Rest }, f: SnapshotTag },
        p2: Mapped { p: Empty, f: NoSnapshot },
        allow_partial: true,
    };
    Mapped {
        p: PairP { p1: PairP { p1: PairP { p1: component, p2: component }, p2: number }, p2: snapshot },
        f: MakeVersion,
    }
}

/// Create a parser for a `major.minor.patch[-snapshot]` version string.
pub fn version_parser() -> (r: VersionParser)
    ensures
        r == spec_version_parser(),
{
    let number: IntegerParser<u32> = IntegerParser {
        checked: false,
        allow_neg: false,
        marker: core::marker::PhantomData,
    };
    let component: VComponent = LeftP { p1: number, p2: Take { prefix: Ignore('.') } };
    let snapshot: Snapshot = OrElse {
        p1: Mapped { p: RightP { p1: Take { prefix: Ignore('-') }, p2: Rest }, f: SnapshotTag },
        p2: Mapped { p: Empty, f: NoSnapshot },
        allow_partial: true,
    };
    Mapped {
        p: PairP { p1: PairP { p1: PairP { p1: component, p2: component }, p2: number }, p2: snapshot },
        f: MakeVersion,
    }
}

} // verus!

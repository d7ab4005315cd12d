//! A parser for semantic version strings, built from the engine's
//! combinators: `major.minor.patch`, an optional `-` pre-release of
//! dot-separated identifiers, and an optional `+` build of dot-separated
//! identifier runs, with nothing left over.

use vstd::prelude::*;

use crate::charlike::lemma_vec_deep_view_id;
use crate::combinators::{
    AndParsed, Attempt, Filtered, GetParsed, LeftP, Many, MapIf, Mapped, NonEmptySeq, OrElse,
    PairP, RightP, Succeed, Trans, TransOpt,
};
use crate::engine::Parser;
use crate::number::IntegerParser;
use crate::parsers::{spec_is_ascii_digit, Empty, IsAsciiDigit, ItemPred, ItemWhile, Take};
use crate::prefix::Ignore;
use crate::text::chars_to_string;

verus! {

/// A parsed semantic version. An absent pre-release or build is the empty
/// string.
pub struct AnpaVersion {
    /// The major version.
    pub major: u64,
    /// The minor version.
    pub minor: u64,
    /// The patch version.
    pub patch: u64,
    /// The pre-release identifiers, with their separating dots.
    pub pre_release: String,
    /// The build identifiers, with their separating dots.
    pub build: String,
}

/// The ghost image of a parsed semantic version.
pub ghost struct AnpaVersionView {
    /// The major version.
    pub major: u64,
    /// The minor version.
    pub minor: u64,
    /// The patch version.
    pub patch: u64,
    /// The pre-release identifiers.
    pub pre_release: Seq<char>,
    /// The build identifiers.
    pub build: Seq<char>,
}

impl DeepView for AnpaVersion {
    type V = AnpaVersionView;

    open spec fn deep_view(&self) -> AnpaVersionView {
        AnpaVersionView {
            major: self.major,
            minor: self.minor,
            patch: self.patch,
            pre_release: self.pre_release@,
            build: self.build@,
        }
    }
}

impl AnpaVersion {
    /// Put a version together from its parts.
    pub fn new(major: u64, minor: u64, patch: u64, pre_release: String, build: String) -> (r:
        AnpaVersion)
        ensures
            r.major == major && r.minor == minor && r.patch == patch,
            r.pre_release@ == pre_release@ && r.build@ == build@,
    {
        AnpaVersion { major, minor, patch, pre_release, build }
    }
}

/// Whether `c` is a decimal digit.
pub open spec fn spec_digit(c: char) -> bool {
    spec_is_ascii_digit(c)
}

/// Whether `c` is a decimal digit.
pub fn digit(c: char) -> (r: bool)
    ensures
        r == spec_digit(c),
{
    '0' <= c && c <= '9'
}

/// Whether `c` is an identifier character that is not a digit: an ASCII
/// letter or `-`.
pub open spec fn spec_non_digit(c: char) -> bool {
    ('a' <= c && c <= 'z') || ('A' <= c && c <= 'Z') || c == '-'
}

/// Whether `c` is an identifier character that is not a digit.
pub fn non_digit(c: char) -> (r: bool)
    ensures
        r == spec_non_digit(c),
{
    ('a' <= c && c <= 'z') || ('A' <= c && c <= 'Z') || c == '-'
}

/// Whether `c` may appear in an identifier.
pub open spec fn spec_identifier_character(c: char) -> bool {
    spec_digit(c) || spec_non_digit(c)
}

/// Whether `c` may appear in an identifier.
pub fn identifier_character(c: char) -> (r: bool)
    ensures
        r == spec_identifier_character(c),
{
    digit(c) || non_digit(c)
}

/// The predicate that accepts identifier characters.
#[derive(Clone, Copy)]
pub struct IdentChar;

impl ItemPred<char> for IdentChar {
    open spec fn spec_pred(&self, x: char) -> bool {
        spec_identifier_character(x)
    }

    fn pred(&self, x: char) -> (r: bool) {
        identifier_character(x)
    }
}

/// The check that a run of digits other than `0` itself does not start with
/// a zero.
#[derive(Clone, Copy)]
pub struct NoLeadingZero;

impl crate::combinators::OutPred<Vec<char>> for NoLeadingZero {
    open spec fn spec_accept(&self, x: Seq<char>) -> bool {
        x.len() == 1 || x.len() == 0 || x[0] != '0'
    }

    fn accept(&self, x: &Vec<char>) -> (r: bool) {
        if x.len() == 1 || x.len() == 0 {
            true
        } else {
            let c = *vstd::slice::slice_index_get(x.as_slice(), 0);
            c != '0'
        }
    }
}

/// The check that a numeric version component has no leading zero: the
/// parsed span may start with `0` only if the value is zero.
#[derive(Clone, Copy)]
pub struct ComponentCheck;

impl TransOpt<(Vec<char>, u64)> for ComponentCheck {
    type Out = u64;

    open spec fn spec_trans_opt(&self, x: (Seq<char>, u64)) -> Option<u64> {
        if x.0.len() > 0 && x.0[0] == '0' && x.1 != 0 {
            None
        } else {
            Some(x.1)
        }
    }

    fn trans_opt(&self, x: (Vec<char>, u64)) -> (r: Option<u64>) {
        let (s, v) = x;
        proof {
            lemma_vec_deep_view_id(&s);
        }
        if s.len() > 0 && v != 0 {
            let c = *vstd::slice::slice_index_get(s.as_slice(), 0);
            if c == '0' {
                return None;
            }
        }
        Some(v)
    }
}

/// A parser for one `major`/`minor`/`patch` component: a decimal number
/// without leading zeros.
pub type Component = MapIf<AndParsed<IntegerParser<u64>>, ComponentCheck>;

/// A component followed by a dot.
pub type MajorMinor = LeftP<Component, Take<Ignore<char>>>;

/// The `major.minor.patch` core of a version.
pub type VersionCore = PairP<PairP<MajorMinor, MajorMinor>, Component>;

/// A non-empty run of identifier characters.
pub type IdentChars = Filtered<ItemWhile<IdentChar>, NonEmptySeq>;

/// A numeric identifier: digits without leading zeros.
pub type NumericIdentifier = Filtered<Filtered<ItemWhile<IsAsciiDigit>, NonEmptySeq>, NoLeadingZero>;

/// An identifier that holds at least one non-digit.
pub type AlphanumericIdentifier = GetParsed<RightP<ItemWhile<IsAsciiDigit>, IdentChars>>;

/// A prefix item followed by one or more dot-separated `P`.
pub type DotSeparated<P> = Attempt<RightP<Take<Ignore<char>>, Many<P, Take<Ignore<char>>>>>;

/// The pre-release part: `-` then dot-separated pre-release identifiers.
pub type PreRelease = DotSeparated<OrElse<AlphanumericIdentifier, NumericIdentifier>>;

/// The build part: `+` then dot-separated identifier runs.
pub type Build = DotSeparated<IdentChars>;

/// The whole version grammar.
pub type SemverParser = LeftP<
    Mapped<PairP<PairP<VersionCore, Succeed<PreRelease>>, Succeed<Build>>, BuildVersion>,
    Empty,
>;

/// A parser for the digits of an identifier.
pub open spec fn spec_digits() -> ItemWhile<IsAsciiDigit> {
    ItemWhile { pred: IsAsciiDigit }
}

/// Create a parser that consumes a possibly empty run of digits.
pub fn digits() -> (r: ItemWhile<IsAsciiDigit>)
    ensures
        r == spec_digits(),
{
    ItemWhile { pred: IsAsciiDigit }
}

/// A parser for a non-empty run of identifier characters.
pub open spec fn spec_identifier_characters() -> IdentChars {
    Filtered { p: ItemWhile { pred: IdentChar }, f: NonEmptySeq }
}

/// Create a parser for a non-empty run of identifier characters.
pub fn identifier_characters() -> (r: IdentChars)
    ensures
        r == spec_identifier_characters(),
{
    Filtered { p: ItemWhile { pred: IdentChar }, f: NonEmptySeq }
}

/// A parser for a numeric identifier: digits, no leading zero.
pub open spec fn spec_numeric_identifier() -> NumericIdentifier {
    Filtered {
        p: Filtered { p: ItemWhile { pred: IsAsciiDigit }, f: NonEmptySeq },
        f: NoLeadingZero,
    }
}

/// Create a parser for a numeric identifier.
pub fn numeric_identifier() -> (r: NumericIdentifier)
    ensures
        r == spec_numeric_identifier(),
{
    Filtered {
        p: Filtered { p: ItemWhile { pred: IsAsciiDigit }, f: NonEmptySeq },
        f: NoLeadingZero,
    }
}

/// A parser for an identifier with at least one non-digit.
pub open spec fn spec_alphanumeric_identifier() -> AlphanumericIdentifier {
    GetParsed {
        p: RightP { p1: ItemWhile { pred: IsAsciiDigit }, p2: spec_identifier_characters() },
    }
}

/// Create a parser for an identifier with at least one non-digit.
pub fn alphanumeric_identifier() -> (r: AlphanumericIdentifier)
    ensures
        r == spec_alphanumeric_identifier(),
{
    GetParsed { p: RightP { p1: digits(), p2: identifier_characters() } }
}

/// A parser for one pre-release identifier.
pub open spec fn spec_pre_release_identifier() -> OrElse<
    AlphanumericIdentifier,
    NumericIdentifier,
> {
    OrElse {
        p1: spec_alphanumeric_identifier(),
        p2: spec_numeric_identifier(),
        allow_partial: true,
    }
}

/// Create a parser for one pre-release identifier.
pub fn pre_release_identifier() -> (r: OrElse<AlphanumericIdentifier, NumericIdentifier>)
    ensures
        r == spec_pre_release_identifier(),
{
    OrElse { p1: alphanumeric_identifier(), p2: numeric_identifier(), allow_partial: true }
}

/// A parser for one build identifier.
pub open spec fn spec_build_identifier() -> IdentChars {
    spec_identifier_characters()
}

/// Create a parser for one build identifier.
pub fn build_identifier() -> (r: IdentChars)
    ensures
        r == spec_build_identifier(),
{
    identifier_characters()
}

/// A parser for `prefix` followed by one or more dot-separated `p`, which
/// consumes nothing if that does not parse.
pub open spec fn spec_dot_separated<P>(prefix: char, p: P) -> DotSeparated<P> {
    Attempt {
        p: RightP {
            p1: Take { prefix: Ignore(prefix) },
            p2: Many {
                p,
                allow_empty: false,
                separator: Some((false, Take { prefix: Ignore('.') })),
            },
        },
    }
}

/// Create a parser for `prefix` followed by one or more dot-separated `p`.
pub fn dot_separated<P>(prefix: char, p: P) -> (r: DotSeparated<P>)
    ensures
        r == spec_dot_separated(prefix, p),
{
    Attempt {
        p: RightP {
            p1: Take { prefix: Ignore(prefix) },
            p2: Many {
                p,
                allow_empty: false,
                separator: Some((false, Take { prefix: Ignore('.') })),
            },
        },
    }
}

/// The pre-release part of the grammar.
pub open spec fn spec_pre_release() -> PreRelease {
    spec_dot_separated('-', spec_pre_release_identifier())
}

/// Create a parser for the pre-release part.
pub fn pre_release() -> (r: PreRelease)
    ensures
        r == spec_pre_release(),
{
    dot_separated('-', pre_release_identifier())
}

/// The build part of the grammar.
pub open spec fn spec_build() -> Build {
    spec_dot_separated('+', spec_build_identifier())
}

/// Create a parser for the build part.
pub fn build() -> (r: Build)
    ensures
        r == spec_build(),
{
    dot_separated('+', build_identifier())
}

/// One version component: a decimal `u64` without leading zeros.
pub open spec fn spec_component() -> Component {
    MapIf {
        p: AndParsed {
            p: IntegerParser {
                checked: false,
                allow_neg: false,
                marker: core::marker::PhantomData,
            },
        },
        f: ComponentCheck,
    }
}

/// The `major.minor.patch` core of the grammar.
pub open spec fn spec_version_core() -> VersionCore {
    let mm = LeftP { p1: spec_component(), p2: Take { prefix: Ignore('.') } };
    PairP { p1: PairP { p1: mm, p2: mm }, p2: spec_component() }
}

/// Create a parser for the `major.minor.patch` core.
pub fn version_core() -> (r: VersionCore)
    ensures
        r == spec_version_core(),
{
    let component: Component = MapIf {
        p: AndParsed {
            p: IntegerParser {
                checked: false,
                allow_neg: false,
                marker: core::marker::PhantomData,
            },
        },
        f: ComponentCheck,
    };
    let mm: MajorMinor = LeftP { p1: component, p2: Take { prefix: Ignore('.') } };
    let mm2: MajorMinor = LeftP { p1: component, p2: Take { prefix: Ignore('.') } };
    PairP { p1: PairP { p1: mm, p2: mm2 }, p2: component }
}

/// Assembling a version from the parsed core and the optional pre-release
/// and build parts; an absent part becomes the empty string.
#[derive(Clone, Copy)]
pub struct BuildVersion;

impl Trans<((((u64, u64), u64), Option<Vec<char>>), Option<Vec<char>>)> for BuildVersion {
    type Out = AnpaVersion;

    open spec fn spec_trans(&self, x: ((((u64, u64), u64), Option<Seq<char>>), Option<Seq<char>>))
        -> AnpaVersionView {
        AnpaVersionView {
            major: x.0.0.0.0,
            minor: x.0.0.0.1,
            patch: x.0.0.1,
            pre_release: (match x.0.1 {
                Some(s) => s,
                None => Seq::empty(),
            }),
            build: (match x.1 {
                Some(s) => s,
                None => Seq::empty(),
            }),
        }
    }

    fn trans(&self, x: ((((u64, u64), u64), Option<Vec<char>>), Option<Vec<char>>)) -> (r:
        AnpaVersion) {
        let (core_pre, build_part) = x;
        let (core, pre_part) = core_pre;
        let ((major, minor), patch) = core;
        let pre_release = match pre_part {
            Some(v) => {
                proof {
                    lemma_vec_deep_view_id(&v);
                }
                let s = chars_to_string(v.as_slice(), 0, v.len());
                proof {
                    assert(s@ =~= v@);
                }
                s
            },
            None => String::new(),
        };
        let build = match build_part {
            Some(v) => {
                proof {
                    lemma_vec_deep_view_id(&v);
                }
                let s = chars_to_string(v.as_slice(), 0, v.len());
                proof {
                    assert(s@ =~= v@);
                }
                s
            },
            None => String::new(),
        };
        AnpaVersion { major, minor, patch, pre_release, build }
    }
}

/// The whole version grammar: the core, the optional parts, and nothing
/// left over.
pub open spec fn spec_semver() -> SemverParser {
    LeftP {
        p1: Mapped {
            p: PairP {
                p1: PairP { p1: spec_version_core(), p2: Succeed { p: spec_pre_release() } },
                p2: Succeed { p: spec_build() },
            },
            f: BuildVersion,
        },
        p2: Empty,
    }
}

/// Create a parser for a whole semantic version string.
pub fn semver() -> (r: SemverParser)
    ensures
        r == spec_semver(),
{
    LeftP {
        p1: Mapped {
            p: PairP {
                p1: PairP { p1: version_core(), p2: Succeed { p: pre_release() } },
                p2: Succeed { p: build() },
            },
            f: BuildVersion,
        },
        p2: Empty,
    }
}

/// Parse a semantic version from `text`: the whole of `text` must be one
/// version. Absent pre-release and build parts come back as empty strings.
pub fn parse_general(text: &str) -> (r: Option<AnpaVersion>)
    ensures
        (match r {
            Some(v) => spec_semver().spec_run(text@, 0).1 == Some(v.deep_view()),
            None => spec_semver().spec_run(text@, 0).1 is None,
        }),
{
    crate::engine::parse_str(&semver(), text).result
}

/// Parse a semantic version from `text`. See [`parse_general`].
pub fn parse_inline(text: &str) -> (r: Option<AnpaVersion>)
    ensures
        (match r {
            Some(v) => spec_semver().spec_run(text@, 0).1 == Some(v.deep_view()),
            None => spec_semver().spec_run(text@, 0).1 is None,
        }),
{
    parse_general(text)
}

/// Parse a semantic version from `text`. See [`parse_general`].
pub fn parse(text: &str) -> (r: Option<AnpaVersion>)
    ensures
        (match r {
            Some(v) => spec_semver().spec_run(text@, 0).1 == Some(v.deep_view()),
            None => spec_semver().spec_run(text@, 0).1 is None,
        }),
{
    parse_general(text)
}

} // verus!

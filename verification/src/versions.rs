use vstd::prelude::*;

use crate::text::{append_char, append_decimal, append_text, decimal};

verus! {

#[verifier::external_type_specification]
#[verifier::external_body]
pub struct ExSemverVersion(semver::Version);

#[verifier::external_type_specification]
#[verifier::external_body]
pub struct ExSemverVersionReq(semver::VersionReq);

/// A semantic version: its numbers, its pre-release and build texts, and the value that
/// `semver` read them into.
#[derive(Debug)]
pub struct SemVer {
    major: u64,
    minor: u64,
    patch: u64,
    pre: String,
    build: String,
    read: semver::Version,
}

/// The model of a version.
pub struct VersionView {
    pub major: u64,
    pub minor: u64,
    pub patch: u64,
    pub pre: Seq<char>,
    pub build: Seq<char>,
}

impl SemVer {
    /// A version is one that `semver` read from some text.
    #[verifier::type_invariant]
    closed spec fn read_from_text(self) -> bool {
        is_version(self@)
    }
}

impl View for SemVer {
    type V = VersionView;

    closed spec fn view(&self) -> VersionView {
        VersionView {
            major: self.major,
            minor: self.minor,
            patch: self.patch,
            pre: self.pre@,
            build: self.build@,
        }
    }
}

/// The version that `semver::Version::parse` reads from a text, if it reads one.
pub uninterp spec fn parsed_version(text: Seq<char>) -> Option<VersionView>;

/// `semver`'s order of versions (`<` of `semver::Version`).
pub uninterp spec fn version_less(a: VersionView, b: VersionView) -> bool;

/// Some text reads as this version.
pub open spec fn is_version(v: VersionView) -> bool {
    exists|t: Seq<char>| parsed_version(t) == Some(v)
}

/// `semver::Version::parse`, keeping the numbers and texts of the result beside it.
///
/// Trusted: the result is `parsed_version` of the text; nothing more is claimed about
/// which texts the crate accepts.
#[verifier::external_body]
fn read_version(text: &str) -> (r: Option<SemVer>)
    ensures
        match r {
            Some(v) => parsed_version(text@) == Some(v@),
            None => parsed_version(text@) is None,
        },
{
    match semver::Version::parse(text) {
        Ok(v) => Some(
            SemVer {
                major: v.major,
                minor: v.minor,
                patch: v.patch,
                pre: v.pre.as_str().to_string(),
                build: v.build.as_str().to_string(),
                read: v,
            },
        ),
        Err(_) => None,
    }
}

/// `<` of `semver::Version` (its derived `Ord`).
///
/// Trusted: the result is `version_less`; it orders by major, minor and patch number
/// first, as the derived order does, and, as `Ord` promises, it is a strict total order
/// whose equal elements are equal versions.
#[verifier::external_body]
pub(crate) fn less_than(a: &SemVer, b: &SemVer) -> (r: bool)
    ensures
        r == version_less(a@, b@),
        a@.major < b@.major ==> r,
        a@.major > b@.major ==> !r,
        a@.major == b@.major && a@.minor < b@.minor ==> r,
        a@.major == b@.major && a@.minor > b@.minor ==> !r,
        a@.major == b@.major && a@.minor == b@.minor && a@.patch < b@.patch ==> r,
        a@.major == b@.major && a@.minor == b@.minor && a@.patch > b@.patch ==> !r,
        r ==> !version_less(b@, a@),
        !r ==> (a@ == b@ || version_less(b@, a@)),
        r ==> forall|c: VersionView|
            is_version(c) && #[trigger] version_less(b@, c) ==> version_less(a@, c),
        r ==> forall|c: VersionView|
            is_version(c) && #[trigger] version_less(c, a@) ==> version_less(c, b@),
        !r ==> forall|c: VersionView|
            is_version(c) && #[trigger] version_less(a@, c) ==> version_less(b@, c),
        !r ==> forall|c: VersionView|
            is_version(c) && #[trigger] version_less(c, b@) ==> version_less(c, a@),
{
    a.read < b.read
}

/// `Clone` of `semver::Version`.
///
/// Trusted: the copy is the same version.
#[verifier::external_body]
fn copy_version(v: &SemVer) -> (r: SemVer)
    ensures
        r@ == v@,
{
    SemVer {
        major: v.major,
        minor: v.minor,
        patch: v.patch,
        pre: v.pre.clone(),
        build: v.build.clone(),
        read: v.read.clone(),
    }
}

/// The text of a version: `major.minor.patch`, then `-` and the pre-release where there
/// is one, then `+` and the build metadata where there is one.
pub open spec fn version_text(v: VersionView) -> Seq<char> {
    let core = decimal(v.major as nat) + seq!['.'] + decimal(v.minor as nat) + seq!['.'] + decimal(
        v.patch as nat,
    );
    let with_pre = if v.pre.len() == 0 {
        core
    } else {
        core + seq!['-'] + v.pre
    };
    if v.build.len() == 0 {
        with_pre
    } else {
        with_pre + seq!['+'] + v.build
    }
}

impl SemVer {
    /// Reads a version (`semver::Version::parse`).
    pub fn parse(text: &str) -> (r: Option<SemVer>)
        ensures
            match r {
                Some(v) => parsed_version(text@) == Some(v@),
                None => parsed_version(text@) is None,
            },
    {
        read_version(text)
    }

    pub fn major(&self) -> (r: u64)
        ensures
            r == self@.major,
    {
        self.major
    }

    pub fn minor(&self) -> (r: u64)
        ensures
            r == self@.minor,
    {
        self.minor
    }

    pub fn patch(&self) -> (r: u64)
        ensures
            r == self@.patch,
    {
        self.patch
    }

    /// Whether this version comes before another.
    pub fn less(&self, other: &SemVer) -> (r: bool)
        ensures
            r == version_less(self@, other@),
    {
        less_than(self, other)
    }

    pub fn duplicate(&self) -> (r: SemVer)
        ensures
            r@ == self@,
    {
        copy_version(self)
    }

    /// The text of the version, as `semver` displays it.
    pub fn to_text(&self) -> (r: String)
        ensures
            r@ == version_text(self@),
    {
        let mut s = String::new();
        append_decimal(&mut s, self.major);
        append_char(&mut s, '.');
        append_decimal(&mut s, self.minor);
        append_char(&mut s, '.');
        append_decimal(&mut s, self.patch);
        if self.pre.unicode_len() > 0 {
            append_char(&mut s, '-');
            append_text(&mut s, self.pre.as_str());
        }
        if self.build.unicode_len() > 0 {
            append_char(&mut s, '+');
            append_text(&mut s, self.build.as_str());
        }
        proof {
            assert(s@ =~= version_text(self@));
        }
        s
    }
}

/// A version requirement, such as `>=1.2, <2`: its text and the value that `semver` read.
#[derive(Debug)]
pub struct SemVerReq {
    text: String,
    read: semver::VersionReq,
}

impl View for SemVerReq {
    type V = Seq<char>;

    closed spec fn view(&self) -> Seq<char> {
        self.text@
    }
}

/// Whether `semver::VersionReq::parse` reads the text.
pub uninterp spec fn requirement_parses(text: Seq<char>) -> bool;

/// Whether the requirement read from a text matches a version (`semver::VersionReq::matches`).
pub uninterp spec fn requirement_matches(req: Seq<char>, v: VersionView) -> bool;

/// `semver::VersionReq::parse`, keeping the text beside the result.
///
/// Trusted: a result comes exactly where `requirement_parses` holds.
#[verifier::external_body]
fn read_version_req(text: &str) -> (r: Option<SemVerReq>)
    ensures
        r is Some == requirement_parses(text@),
        r matches Some(req) ==> req@ == text@,
{
    match semver::VersionReq::parse(text) {
        Ok(read) => Some(SemVerReq { text: text.to_string(), read }),
        Err(_) => None,
    }
}

/// `semver::VersionReq::STAR`, the requirement that `*` reads to.
///
/// Trusted: it is what `VersionReq::parse("*")` gives (the crate returns this constant for
/// `*`).
#[verifier::external_body]
fn star_req() -> (r: SemVerReq)
    ensures
        r@ == seq!['*'],
        requirement_parses(r@),
{
    SemVerReq { text: "*".to_string(), read: semver::VersionReq::STAR }
}

/// `semver::VersionReq::matches`.
///
/// Trusted: the result is `requirement_matches` of the requirement's text and the version.
#[verifier::external_body]
fn req_matches(req: &SemVerReq, v: &SemVer) -> (r: bool)
    ensures
        r == requirement_matches(req@, v@),
{
    req.read.matches(&v.read)
}

/// `Clone` of `semver::VersionReq`.
///
/// Trusted: the copy reads the same.
#[verifier::external_body]
fn copy_req(req: &SemVerReq) -> (r: SemVerReq)
    ensures
        r@ == req@,
{
    SemVerReq { text: req.text.clone(), read: req.read.clone() }
}

impl SemVerReq {
    /// Reads a requirement (`semver::VersionReq::parse`).
    pub fn parse(text: &str) -> (r: Option<SemVerReq>)
        ensures
            r is Some == requirement_parses(text@),
            r matches Some(req) ==> req@ == text@,
    {
        read_version_req(text)
    }

    /// The requirement that every release meets (`*`).
    pub fn any() -> (r: SemVerReq)
        ensures
            r@ == seq!['*'],
    {
        star_req()
    }

    /// Whether a version meets the requirement.
    pub fn matches(&self, v: &SemVer) -> (r: bool)
        ensures
            r == requirement_matches(self@, v@),
    {
        req_matches(self, v)
    }

    pub fn duplicate(&self) -> (r: SemVerReq)
        ensures
            r@ == self@,
    {
        copy_req(self)
    }

    /// The text of the requirement.
    pub fn text(&self) -> (r: &str)
        ensures
            r@ == self@,
    {
        self.text.as_str()
    }
}

/// Every other version of the list is the same or comes before the one at `i`.
pub open spec fn is_greatest(vs: Seq<VersionView>, i: int) -> bool {
    0 <= i < vs.len() && forall|j: int|
        0 <= j < vs.len() && j != i ==> vs[j] == vs[i] || version_less(#[trigger] vs[j], vs[i])
}

/// The models of a list of versions.
pub open spec fn version_views(vs: Seq<SemVer>) -> Seq<VersionView> {
    vs.map_values(|v: SemVer| v@)
}

/// The index of a greatest version of a non-empty list: the last of equal greatest ones,
/// as `Iterator::max` takes.
pub fn greatest_version(vs: &Vec<SemVer>) -> (r: Option<usize>)
    ensures
        r is None == (vs@.len() == 0),
        r matches Some(i) ==> is_greatest(version_views(vs@), i as int),
        forall|j: int| 0 <= j < vs@.len() ==> is_version(#[trigger] vs@[j]@),
{
    if vs.len() == 0 {
        return None;
    }
    let mut best: usize = 0;
    let mut i: usize = 1;
    let first = &vs[0];
    proof {
        use_type_invariant(first);
    }
    while i < vs.len()
        invariant
            1 <= i <= vs.len(),
            best < i,
            forall|k: int| 0 <= k < i ==> is_version(#[trigger] vs@[k]@),
            forall|j: int|
                0 <= j < i && j != best ==> vs@[j]@ == vs@[best as int]@ || version_less(
                    #[trigger] vs@[j]@,
                    vs@[best as int]@,
                ),
        decreases vs.len() - i,
    {
        let current = &vs[i];
        proof {
            use_type_invariant(current);
        }
        let smaller = less_than(&vs[i], &vs[best]);
        if !smaller {
            proof {
                assert forall|j: int| 0 <= j < i + 1 && j != i implies vs@[j]@ == vs@[i as int]@
                    || version_less(#[trigger] vs@[j]@, vs@[i as int]@) by {
                    if j != best && vs@[j]@ != vs@[best as int]@ {
                        assert(version_less(vs@[j]@, vs@[best as int]@));
                        assert(is_version(vs@[j]@));
                    }
                }
            }
            best = i;
        }
        i = i + 1;
    }
    proof {
        assert forall|j: int| 0 <= j < vs@.len() && j != best implies version_views(vs@)[j]
            == version_views(vs@)[best as int] || version_less(
            #[trigger] version_views(vs@)[j],
            version_views(vs@)[best as int],
        ) by {
            assert(version_views(vs@)[j] == vs@[j]@);
        }
    }
    Some(best)
}

} // verus!

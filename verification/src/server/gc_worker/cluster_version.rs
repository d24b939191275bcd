//! The version that the whole cluster runs, as far as it is known.

use vstd::prelude::*;

verus! {

/// The first version of the cluster that may collect garbage inside
/// compaction: 5.0.0. Once a cluster does, no replica can go back to a
/// version that shares the removals with the others.
pub const MINIMAL_MAJOR: u64 = 5;

pub const MINIMAL_MINOR: u64 = 0;

pub const MINIMAL_PATCH: u64 = 0;

/// A version: three numbers and the pre-release tag, which is empty for a
/// release.
#[derive(Debug)]
pub struct VersionNumber {
    pub major: u64,
    pub minor: u64,
    pub patch: u64,
    pub pre: String,
}

/// A version as a mathematical value.
pub struct VersionNumberView {
    pub major: u64,
    pub minor: u64,
    pub patch: u64,
    pub pre: Seq<char>,
}

impl View for VersionNumber {
    type V = VersionNumberView;

    open spec fn view(&self) -> VersionNumberView {
        VersionNumberView { major: self.major, minor: self.minor, patch: self.patch, pre: self.pre@ }
    }
}

/// What `semver::Version::parse` makes of a text: the three numbers and the
/// pre-release tag of the version that it reads, or nothing where it fails.
pub uninterp spec fn semver_parse(text: Seq<char>) -> Option<(u64, u64, u64, Seq<char>)>;

/// Calls `semver::Version::parse` and hands out the three numbers and the
/// pre-release tag of what it read; a failure to parse comes back as `None`.
/// The result is claimed to be a function of the text alone.
#[verifier::external_body]
fn parse_version(text: &str) -> (r: Option<VersionNumber>)
    ensures
        match r {
            Some(v) => semver_parse(text@) == Some((v.major, v.minor, v.patch, v.pre@)),
            None => semver_parse(text@) is None,
        },
{
    match semver::Version::parse(text) {
        Ok(version) => Some(
            VersionNumber {
                major: version.major,
                minor: version.minor,
                patch: version.patch,
                pre: version.pre.as_str().to_string(),
            },
        ),
        Err(_) => None,
    }
}

impl VersionNumberView {
    /// Whether this version is at least 5.0.0 in the order of versions:
    /// first by the three numbers, and with equal numbers a release stands
    /// above every pre-release.
    pub open spec fn reaches_minimal(self) -> bool {
        self.major > MINIMAL_MAJOR || (self.major == MINIMAL_MAJOR && (self.minor > MINIMAL_MINOR
            || (self.minor == MINIMAL_MINOR && (self.patch > MINIMAL_PATCH || (self.patch
            == MINIMAL_PATCH && self.pre.len() == 0)))))
    }
}

impl VersionNumber {
    /// The release with these three numbers.
    pub fn new(major: u64, minor: u64, patch: u64) -> (v: VersionNumber)
        ensures
            v@ == (VersionNumberView { major, minor, patch, pre: Seq::empty() }),
    {
        let pre = String::new();
        assert(pre@ =~= Seq::<char>::empty());
        VersionNumber { major, minor, patch, pre }
    }

    /// The version that a text names, read as `semver` reads versions.
    pub fn parse(text: &str) -> (r: Option<VersionNumber>)
        ensures
            match r {
                Some(v) => semver_parse(text@) == Some((v.major, v.minor, v.patch, v.pre@)),
                None => semver_parse(text@) is None,
            },
    {
        parse_version(text)
    }

    /// Whether this version is at least 5.0.0.
    pub fn reaches_minimal(&self) -> (r: bool)
        ensures
            r == self@.reaches_minimal(),
    {
        self.major > MINIMAL_MAJOR || (self.major == MINIMAL_MAJOR && (self.minor > MINIMAL_MINOR
            || (self.minor == MINIMAL_MINOR && (self.patch > MINIMAL_PATCH || (self.patch
            == MINIMAL_PATCH && self.pre.as_str().is_empty())))))
    }
}

/// The version of the cluster; unset until the cluster has told it.
#[derive(Debug)]
pub struct ClusterVersion {
    pub version: Option<VersionNumber>,
}

impl ClusterVersion {
    /// Whether the version is known.
    pub open spec fn is_set(&self) -> bool {
        self.version is Some
    }

    /// Whether the version is known and at least 5.0.0.
    pub open spec fn is_sufficient(&self) -> bool {
        self.version matches Some(v) && v@.reaches_minimal()
    }

    /// A cluster whose version is `version`.
    pub fn new(version: VersionNumber) -> (cv: ClusterVersion)
        ensures
            cv.version == Some(version),
    {
        ClusterVersion { version: Some(version) }
    }

    /// A cluster whose version is not known.
    pub fn unset() -> (cv: ClusterVersion)
        ensures
            cv.version is None,
    {
        ClusterVersion { version: None }
    }

    /// The version, if it is known.
    pub fn get(&self) -> (v: Option<&VersionNumber>)
        ensures
            v is Some == self.is_set(),
            v matches Some(version) ==> Some(*version) == self.version,
    {
        self.version.as_ref()
    }

    /// Takes the version that the cluster tells as a text. A text that names
    /// no version changes nothing. Returns whether the version was taken.
    pub fn set(&mut self, text: &str) -> (taken: bool)
        ensures
            taken == (semver_parse(text@) is Some),
            !taken ==> *final(self) == *old(self),
            taken ==> (final(self).version matches Some(v) && semver_parse(text@) == Some(
                (v.major, v.minor, v.patch, v.pre@),
            )),
    {
        match VersionNumber::parse(text) {
            Some(version) => {
                self.version = Some(version);
                true
            },
            None => false,
        }
    }

    /// Whether the version is known and at least 5.0.0.
    pub fn sufficient(&self) -> (r: bool)
        ensures
            r == self.is_sufficient(),
    {
        match &self.version {
            Some(version) => version.reaches_minimal(),
            None => false,
        }
    }
}

} // verus!

//! Version constraints and concrete release versions. The semantic-version
//! grammar and the range-matching semantics belong to the `semver` crate; this
//! module keeps, next to each opaque `semver` value, the text it was parsed
//! from, and speaks of both through names for what `semver` computes.
use vstd::prelude::*;
use vstd::string::StringExecFns;

verus! {

#[verifier::external_type_specification]
#[verifier::external_body]
pub struct ExVersion(semver::Version);

#[verifier::external_type_specification]
#[verifier::external_body]
pub struct ExVersionReq(semver::VersionReq);

/// Relies on semver::Version's derived Clone: a field-wise copy, equal to the
/// value cloned.
pub assume_specification[ <semver::Version as Clone>::clone ](v: &semver::Version) -> (r:
    semver::Version)
    ensures
        r == *v,
;

/// Whether semver::Version::parse accepts `s` as a concrete version.
pub uninterp spec fn version_parses(s: Seq<char>) -> bool;

/// Whether semver::VersionReq::parse accepts `s` as a range expression.
pub uninterp spec fn req_parses(s: Seq<char>) -> bool;

/// Whether the range parsed from `req_text` is satisfied by the version
/// parsed from `version_text`, as semver::VersionReq::matches decides it.
pub uninterp spec fn req_matches(req_text: Seq<char>, version_text: Seq<char>) -> bool;

/// Relies on semver::Version::parse: whether it accepts a string depends on
/// the string alone.
#[verifier::external_body]
fn semver_version_parse(s: &str) -> (r: Option<semver::Version>)
    ensures
        r is Some <==> version_parses(s@),
{
    semver::Version::parse(s).ok()
}

/// Relies on semver::VersionReq::parse: whether it accepts a string depends
/// on the string alone.
#[verifier::external_body]
fn semver_req_parse(s: &str) -> (r: Option<semver::VersionReq>)
    ensures
        r is Some <==> req_parses(s@),
{
    semver::VersionReq::parse(s).ok()
}

/// A semantic version range, kept with the text it was parsed from. An exact
/// pin written as a bare version `1.0.1` is normalized at construction to the
/// range `= 1.0.1`.
#[derive(Debug, PartialEq)]
pub struct Constraint {
    text: String,
    req: semver::VersionReq,
}

/// A concrete release version, kept with the text it was parsed from.
#[derive(Debug, PartialEq)]
pub struct PackageVersion {
    text: String,
    version: semver::Version,
}

impl View for Constraint {
    type V = Seq<char>;

    closed spec fn view(&self) -> Seq<char> {
        self.text@
    }
}

impl View for PackageVersion {
    type V = Seq<char>;

    closed spec fn view(&self) -> Seq<char> {
        self.version_text()
    }
}

impl Constraint {
    #[verifier::type_invariant]
    closed spec fn type_inv(self) -> bool {
        req_parses(self.text@)
    }

    /// The constraint text that a token yields: a token that reads as a
    /// concrete version is pinned exactly as `= <token>`, any other token is
    /// kept as the range expression it writes; `None` where neither parse
    /// accepts it.
    pub open spec fn spec_from_token(tok: Seq<char>) -> Option<Seq<char>> {
        if version_parses(tok) {
            let t = seq!['=', ' '] + tok;
            if req_parses(t) {
                Some(t)
            } else {
                None
            }
        } else if req_parses(tok) {
            Some(tok)
        } else {
            None
        }
    }

    /// Build the constraint a source token denotes.
    pub fn from_token(tok: &str) -> (r: Option<Constraint>)
        ensures
            r is Some <==> Self::spec_from_token(tok@) is Some,
            r matches Some(c) ==> Some(c@) == Self::spec_from_token(tok@),
    {
        match semver_version_parse(tok) {
            Some(_) => {
                let mut t = String::from_str("= ");
                t.append(tok);
                proof {
                    reveal_strlit("= ");
                    assert(t@ =~= seq!['=', ' '] + tok@);
                }
                match semver_req_parse(t.as_str()) {
                    Some(req) => Some(Constraint { text: t, req }),
                    None => None,
                }
            },
            None => {
                match semver_req_parse(tok) {
                    Some(req) => Some(Constraint { text: tok.to_owned(), req }),
                    None => None,
                }
            },
        }
    }

    /// The constraint's canonical text.
    pub fn as_text(&self) -> (r: &str)
        ensures
            r@ == self@,
    {
        self.text.as_str()
    }

    /// Relies on semver::VersionReq::matches, together with this module's
    /// guarantee that the stored range and version are the ones parsed from
    /// the stored texts: the outcome is a function of the two texts.
    #[verifier::external_body]
    fn matches_parsed(&self, v: &PackageVersion) -> (r: bool)
        requires
            req_parses(self@),
            version_parses(v@),
        ensures
            r == req_matches(self@, v@),
    {
        self.req.matches(&v.version)
    }

    /// Whether the concrete version `v` satisfies this constraint.
    pub fn matches(&self, v: &PackageVersion) -> (r: bool)
        ensures
            r == req_matches(self@, v@),
    {
        proof {
            use_type_invariant(self);
            use_type_invariant(v);
        }
        self.matches_parsed(v)
    }
}

impl PackageVersion {
    #[verifier::type_invariant]
    closed spec fn type_inv(self) -> bool {
        version_parses(self.text@)
    }

    closed spec fn version_text(&self) -> Seq<char> {
        self.text@
    }

    /// Parse a concrete version.
    pub fn parse(s: &str) -> (r: Option<PackageVersion>)
        ensures
            r is Some <==> version_parses(s@),
            r matches Some(v) ==> v@ == s@,
    {
        match semver_version_parse(s) {
            Some(version) => Some(PackageVersion { text: s.to_owned(), version }),
            None => None,
        }
    }

    /// The version's source text.
    pub fn as_text(&self) -> (r: &str)
        ensures
            r@ == self@,
    {
        self.text.as_str()
    }

    /// An equal copy.
    pub fn duplicate(&self) -> (r: PackageVersion)
        ensures
            r@ == self@,
    {
        proof {
            use_type_invariant(self);
        }
        PackageVersion { text: self.text.clone(), version: self.version.clone() }
    }
}

} // verus!

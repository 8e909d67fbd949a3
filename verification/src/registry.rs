//! The forge's side of version checking: decoding the JSON answer of a
//! release lookup, joining per-module lookup results, and computing the
//! mismatches between declared constraints and fetched versions.
use vstd::prelude::*;
use vstd::string::StringExecFns;
use crate::ast::{Puppetfile, ModuleModel, ErrorKind, PuppetfileError, owner_name_of,
    first_version};
use crate::versions::{PackageVersion, version_parses, req_matches};

verus! {

/// Whether rustc_serialize's JSON parser accepts `s`.
pub uninterp spec fn json_parses(s: Seq<char>) -> bool;

/// The string under the `version` key of the JSON value that `s` denotes;
/// `None` where that value is no object, has no such key, or holds something
/// other than a string there. Meaningful only where `json_parses(s)`.
pub uninterp spec fn json_version_field(s: Seq<char>) -> Option<Seq<char>>;

/// Relies on rustc_serialize's json: Json::from_str builds the JSON value a
/// body denotes, find("version") gives the value under that key, as_string
/// its payload where it is a string — each a function of the body alone.
#[verifier::external_body]
fn json_version_of(body: &str) -> (r: Option<String>)
    ensures
        r is Some <==> (json_parses(body@) && json_version_field(body@) is Some),
        r is Some ==> Some(r->0@) == json_version_field(body@),
{
    match rustc_serialize::json::Json::from_str(body) {
        Ok(j) => match j.find("version") {
            Some(f) => match f.as_string() {
                Some(s) => Some(s.to_owned()),
                None => None,
            },
            None => None,
        },
        Err(_) => None,
    }
}

/// The forge's answer is good: JSON carrying under its `version` key a string
/// that reads as a concrete version.
pub open spec fn good_release_answer(body: Seq<char>) -> bool {
    &&& json_parses(body)
    &&& json_version_field(body) is Some
    &&& version_parses(json_version_field(body)->0)
}

/// The release version a forge answer reports: the answer must be JSON with a
/// version string under the `version` key, and that string must read as a
/// concrete version. An answer that is not such JSON gives a JSON error; a
/// version string that does not read as one gives a version error.
pub fn release_version_from_json(body: &str) -> (r: Result<PackageVersion, PuppetfileError>)
    ensures
        r is Ok <==> good_release_answer(body@),
        r matches Ok(v) ==> Some(v@) == json_version_field(body@),
        r matches Err(e) ==> (if json_parses(body@) && json_version_field(body@) is Some {
            e.kind == ErrorKind::SemverError && e.desc@ == "an invalid version was given"@
        } else {
            e.kind == ErrorKind::JsonError && e.desc@ == "an error occured while decoding JSON"@
        }),
{
    match json_version_of(body) {
        None => Err(json_error()),
        Some(vs) => match PackageVersion::parse(vs.as_str()) {
            Some(v) => Ok(v),
            None => Err(
                PuppetfileError {
                    kind: ErrorKind::SemverError,
                    desc: "an invalid version was given".to_owned(),
                },
            ),
        },
    }
}

fn json_error() -> (r: PuppetfileError)
    ensures
        r.kind == ErrorKind::JsonError,
        r.desc@ == "an error occured while decoding JSON"@,
{
    PuppetfileError {
        kind: ErrorKind::JsonError,
        desc: "an error occured while decoding JSON".to_owned(),
    }
}

/// One module's registry lookup, held until the join: the module's name and
/// the version fetched for it, or the failure.
#[derive(Debug)]
pub struct RegistryLookupResult {
    /// The name of the looked-up module, as the manifest declares it.
    pub module_name: String,
    /// The fetched latest version, or why it could not be had.
    pub outcome: Result<PackageVersion, PuppetfileError>,
}

/// The view of a joined lookup list: for each pair, the module name and the
/// fetched version text.
pub open spec fn pairs_view(v: Seq<(String, PackageVersion)>) -> Seq<(Seq<char>, Seq<char>)> {
    Seq::new(v.len(), |i: int| (v[i].0@, v[i].1@))
}

/// The name/version pairs of the lookups that succeeded, in order; failures
/// contribute nothing.
pub open spec fn spec_successes(rs: Seq<RegistryLookupResult>) -> Seq<(Seq<char>, Seq<char>)>
    decreases rs.len(),
{
    if rs.len() == 0 {
        Seq::empty()
    } else {
        let rest = spec_successes(rs.skip(1));
        match rs[0].outcome {
            Ok(v) => seq![(rs[0].module_name@, v@)] + rest,
            Err(e) => rest,
        }
    }
}

/// Join the lookup results: keep, in completion order, those that succeeded.
/// One module's failure never disturbs the others.
pub fn successful_lookups(results: &Vec<RegistryLookupResult>) -> (r: Vec<(String, PackageVersion)>)
    ensures
        pairs_view(r@) == spec_successes(results@),
{
    let ghost all = results@;
    let mut out: Vec<(String, PackageVersion)> = Vec::new();
    let mut i: usize = 0;
    proof {
        assert(all.skip(0) =~= all);
        assert(pairs_view(out@) + spec_successes(all) =~= spec_successes(all));
    }
    while i < results.len()
        invariant
            i <= results.len(),
            all == results@,
            spec_successes(all) == pairs_view(out@) + spec_successes(all.skip(i as int)),
        decreases results.len() - i,
    {
        proof {
            assert(all.skip(i as int)[0] == all[i as int]);
            assert(all.skip(i as int).skip(1) =~= all.skip(i + 1));
        }
        let ghost out0 = out@;
        match &results[i].outcome {
            Ok(v) => {
                out.push((results[i].module_name.clone(), v.duplicate()));
                proof {
                    assert(pairs_view(out@) =~= pairs_view(out0) + seq![
                        (all[i as int].module_name@, all[i as int].outcome->Ok_0@),
                    ]);
                    assert(pairs_view(out@) + spec_successes(all.skip(i + 1)) =~= pairs_view(out0)
                        + (seq![(all[i as int].module_name@, all[i as int].outcome->Ok_0@)]
                        + spec_successes(all.skip(i + 1))));
                }
            },
            Err(e) => {},
        }
        i = i + 1;
    }
    proof {
        assert(all.skip(results.len() as int) =~= Seq::<RegistryLookupResult>::empty());
        assert(spec_successes(all.skip(results.len() as int)) =~= Seq::<
            (Seq<char>, Seq<char>),
        >::empty());
        assert(pairs_view(out@) =~= pairs_view(out@) + spec_successes(
            all.skip(results.len() as int),
        ));
    }
    out
}

/// One reported mismatch: the module, the constraint it declares, and the
/// fetched version that fails it.
#[derive(Debug, PartialEq)]
pub struct Mismatch {
    /// The module's declared name.
    pub module_name: String,
    /// The canonical text of the declared constraint.
    pub constraint: String,
    /// The text of the version the forge reported.
    pub version: String,
}

/// Mathematical model of one mismatch record.
pub ghost struct MismatchModel {
    pub module_name: Seq<char>,
    pub constraint: Seq<char>,
    pub version: Seq<char>,
}

impl View for Mismatch {
    type V = MismatchModel;

    open spec fn view(&self) -> MismatchModel {
        MismatchModel {
            module_name: self.module_name@,
            constraint: self.constraint@,
            version: self.version@,
        }
    }
}

/// The views of a list of mismatch records.
pub open spec fn mismatches_view(v: Seq<Mismatch>) -> Seq<MismatchModel> {
    Seq::new(v.len(), |i: int| v[i]@)
}

/// The mismatches one module contributes: one per fetched pair bearing its
/// name whose version does not satisfy the constraint `c`, in the pairs'
/// order.
pub open spec fn spec_module_mismatches(
    name: Seq<char>,
    c: Seq<char>,
    looked: Seq<(Seq<char>, Seq<char>)>,
) -> Seq<MismatchModel>
    decreases looked.len(),
{
    if looked.len() == 0 {
        Seq::empty()
    } else {
        let rest = spec_module_mismatches(name, c, looked.skip(1));
        if looked[0].0 == name && !req_matches(c, looked[0].1) {
            seq![MismatchModel { module_name: name, constraint: c, version: looked[0].1 }] + rest
        } else {
            rest
        }
    }
}

/// All mismatches of a manifest against the fetched pairs: the declared
/// modules in manifest order on the outside — only those with an owner/name
/// pair and a pinned constraint take part — and the pairs in their join
/// order on the inside.
pub open spec fn spec_mismatches(
    ms: Seq<ModuleModel>,
    looked: Seq<(Seq<char>, Seq<char>)>,
) -> Seq<MismatchModel>
    decreases ms.len(),
{
    if ms.len() == 0 {
        Seq::empty()
    } else {
        let rest = spec_mismatches(ms.skip(1), looked);
        let m = ms[0];
        if owner_name_of(m.name) is Some {
            match first_version(m.info) {
                Some(c) => spec_module_mismatches(m.name, c, looked) + rest,
                None => rest,
            }
        } else {
            rest
        }
    }
}

impl Puppetfile {
    /// Check every eligible module's pinned constraint against the versions
    /// fetched for it, and report each declared constraint that the fetched
    /// version fails to satisfy. A module without an owner/name pair or
    /// without a pinned version is skipped.
    pub fn mismatches(&self, looked: &Vec<(String, PackageVersion)>) -> (r: Vec<Mismatch>)
        ensures
            mismatches_view(r@) == spec_mismatches(self@.modules, pairs_view(looked@)),
    {
        let ghost ms = self@.modules;
        let ghost lp = pairs_view(looked@);
        let mut out: Vec<Mismatch> = Vec::new();
        let mut i: usize = 0;
        proof {
            assert(ms.skip(0) =~= ms);
            assert(mismatches_view(out@) + spec_mismatches(ms.skip(0), lp) =~= spec_mismatches(
                ms,
                lp,
            ));
        }
        while i < self.modules.len()
            invariant
                i <= self.modules.len(),
                ms == self@.modules,
                lp == pairs_view(looked@),
                ms.len() == self.modules.len(),
                spec_mismatches(ms, lp) == mismatches_view(out@) + spec_mismatches(
                    ms.skip(i as int),
                    lp,
                ),
            decreases self.modules.len() - i,
        {
            let m = &self.modules[i];
            proof {
                assert(ms.skip(i as int)[0] == ms[i as int]);
                assert(ms.skip(i as int).skip(1) =~= ms.skip(i + 1));
            }
            let eligible = m.user_name_pair().is_some();
            if eligible {
                match m.version() {
                    Some(c) => {
                        let ghost ct = c@;
                        let ghost before_inner = out@;
                        let mut j: usize = 0;
                        proof {
                            assert(lp.skip(0) =~= lp);
                            assert(mismatches_view(out@) + (spec_module_mismatches(
                                m@.name,
                                ct,
                                lp.skip(0),
                            ) + spec_mismatches(ms.skip(i + 1), lp)) =~= mismatches_view(out@)
                                + spec_module_mismatches(m@.name, ct, lp) + spec_mismatches(
                                ms.skip(i + 1),
                                lp,
                            ));
                        }
                        while j < looked.len()
                            invariant
                                j <= looked.len(),
                                lp == pairs_view(looked@),
                                lp.len() == looked.len(),
                                ms == self@.modules,
                                i < ms.len() == self.modules.len(),
                                m == &self.modules[i as int],
                                first_version(m@.info) == Some(ct),
                                c@ == ct,
                                spec_mismatches(ms, lp) == mismatches_view(out@) + (
                                spec_module_mismatches(m@.name, ct, lp.skip(j as int))
                                    + spec_mismatches(ms.skip(i + 1), lp)),
                            decreases looked.len() - j,
                        {
                            let pair = &looked[j];
                            proof {
                                assert(lp.skip(j as int)[0] == lp[j as int]);
                                assert(lp.skip(j as int).skip(1) =~= lp.skip(j + 1));
                            }
                            let ghost before = out@;
                            if m.name == pair.0 {
                                if !c.matches(&pair.1) {
                                    out.push(
                                        Mismatch {
                                            module_name: m.name.clone(),
                                            constraint: String::from_str(c.as_text()),
                                            version: String::from_str(pair.1.as_text()),
                                        },
                                    );
                                    proof {
                                        assert(mismatches_view(out@) =~= mismatches_view(before)
                                            + seq![
                                            MismatchModel {
                                                module_name: m@.name,
                                                constraint: ct,
                                                version: lp[j as int].1,
                                            },
                                        ]);
                                    }
                                }
                            }
                            j = j + 1;
                        }
                        proof {
                            assert(lp.skip(looked.len() as int) =~= Seq::<
                                (Seq<char>, Seq<char>),
                            >::empty());
                            assert(spec_module_mismatches(m@.name, ct, lp.skip(looked.len() as int))
                                =~= Seq::<MismatchModel>::empty());
                        }
                    },
                    None => {},
                }
            }
            i = i + 1;
        }
        proof {
            assert(ms.skip(self.modules.len() as int) =~= Seq::<ModuleModel>::empty());
            assert(mismatches_view(out@) + Seq::<MismatchModel>::empty() =~= mismatches_view(out@));
        }
        out
    }
}

} // verus!

use puppetfile::{
    Puppetfile, Module, ModuleInfo, Constraint, PackageVersion, ErrorKind, PuppetfileError,
    RegistryLookupResult, successful_lookups, release_version_from_json,
};

#[test]
fn version_url() {
    let module = Module { name: "mayflower/php".to_string(), info: vec![] };
    assert_eq!(
        "https://forge.puppetlabs.com/users/mayflower/modules/php/releases/find.json".to_string(),
        module.version_url("https://forge.puppetlabs.com/").unwrap()
    )
}

#[test]
fn version_url_without_trailing_slash() {
    let module = Module { name: "mayflower/php".to_string(), info: vec![] };
    assert_eq!(
        "https://forge.puppetlabs.com/users/mayflower/modules/php/releases/find.json".to_string(),
        module.version_url("https://forge.puppetlabs.com").unwrap()
    )
}

#[test]
fn version_url_needs_owner_name_pair() {
    let module = Module { name: "php".to_string(), info: vec![] };
    let r = module.version_url("https://forge.puppetlabs.com/");
    assert!(r.is_err());
    let e = r.unwrap_err();
    assert_eq!(ErrorKind::UrlBuilding, e.kind);
    assert_eq!("Could not build url", e.desc);
}

#[test]
fn user_name_pair() {
    let module = Module { name: "mayflower/php".to_string(), info: vec![] };
    assert_eq!(module.user_name_pair(), Some(("mayflower", "php")))
}

#[test]
fn user_name_pair_without_slash() {
    let module = Module { name: "php".to_string(), info: vec![] };
    assert_eq!(module.user_name_pair(), None)
}

#[test]
fn user_name_pair_needs_exactly_one_slash() {
    let module = Module { name: "a/b/c".to_string(), info: vec![] };
    assert_eq!(module.user_name_pair(), None)
}

#[test]
fn trailing_slash_is_stripped_exactly_once() {
    let module = Module { name: "a/b".to_string(), info: vec![] };
    assert_eq!(
        "http://x//users/a/modules/b/releases/find.json".to_string(),
        module.version_url("http://x//").unwrap()
    )
}

#[test]
fn constraint_matching() {
    let pin = Constraint::from_token("= 1.0.0").unwrap();
    assert!(pin.matches(&PackageVersion::parse("1.0.0").unwrap()));
    assert!(!pin.matches(&PackageVersion::parse("1.0.1").unwrap()));
    let range = Constraint::from_token(">= 1.0.0").unwrap();
    assert!(range.matches(&PackageVersion::parse("1.2.3").unwrap()));
    assert!(!range.matches(&PackageVersion::parse("0.9.0").unwrap()));
}

#[test]
fn bad_tokens_are_rejected() {
    assert!(Constraint::from_token("not a version").is_none());
    assert!(PackageVersion::parse("not a version").is_none());
    assert!(PackageVersion::parse("1.0").is_none());
}

#[test]
fn decode_release_version() {
    let v = release_version_from_json("{\"version\": \"1.0.1\"}").unwrap();
    assert_eq!("1.0.1", v.as_text());
}

#[test]
fn decode_rejects_bad_answers() {
    let e = release_version_from_json("not json").unwrap_err();
    assert_eq!(ErrorKind::JsonError, e.kind);
    assert_eq!("an error occured while decoding JSON", e.desc);
    let r = release_version_from_json("{\"other\": 1}");
    assert_eq!(ErrorKind::JsonError, r.unwrap_err().kind);
    let r = release_version_from_json("{\"version\": 7}");
    assert_eq!(ErrorKind::JsonError, r.unwrap_err().kind);
    let e = release_version_from_json("{\"version\": \"seven\"}").unwrap_err();
    assert_eq!(ErrorKind::SemverError, e.kind);
    assert_eq!("an invalid version was given", e.desc);
}

fn pinned_manifest() -> Puppetfile {
    Puppetfile::parse("forge 'https://forge.puppetlabs.com'\n\nmod 'mayflower/php', '1.0.0'\n")
        .unwrap()
}

#[test]
fn mismatch_is_reported() {
    let manifest = pinned_manifest();
    let looked = vec![("mayflower/php".to_string(), PackageVersion::parse("1.0.1").unwrap())];
    let mismatches = manifest.mismatches(&looked);
    assert_eq!(1, mismatches.len());
    assert_eq!("mayflower/php", mismatches[0].module_name);
    assert_eq!("= 1.0.0", mismatches[0].constraint);
    assert_eq!("1.0.1", mismatches[0].version);
}

#[test]
fn matching_version_reports_nothing() {
    let manifest = pinned_manifest();
    let looked = vec![("mayflower/php".to_string(), PackageVersion::parse("1.0.0").unwrap())];
    assert!(manifest.mismatches(&looked).is_empty());
}

#[test]
fn module_without_pair_or_pin_is_skipped() {
    let manifest = Puppetfile::parse(
        "forge 'f'\n\nmod 'bare', '1.0.0'\n\nmod 'a/unpinned'\n",
    )
    .unwrap();
    let looked = vec![
        ("bare".to_string(), PackageVersion::parse("9.9.9").unwrap()),
        ("a/unpinned".to_string(), PackageVersion::parse("9.9.9").unwrap()),
    ];
    assert!(manifest.mismatches(&looked).is_empty());
}

#[test]
fn failed_lookup_is_isolated() {
    let manifest = Puppetfile::parse(
        "forge 'f'\n\nmod 'a/down', '1.0.0'\n\nmod 'b/up', '1.0.0'\n",
    )
    .unwrap();
    let results = vec![
        RegistryLookupResult {
            module_name: "a/down".to_string(),
            outcome: Err(PuppetfileError {
                kind: ErrorKind::HttpError,
                desc: "an HTTP error occured".to_string(),
            }),
        },
        RegistryLookupResult {
            module_name: "b/up".to_string(),
            outcome: Ok(PackageVersion::parse("2.0.0").unwrap()),
        },
    ];
    let looked = successful_lookups(&results);
    assert_eq!(1, looked.len());
    let mismatches = manifest.mismatches(&looked);
    assert_eq!(1, mismatches.len());
    assert_eq!("b/up", mismatches[0].module_name);
    assert_eq!("= 1.0.0", mismatches[0].constraint);
    assert_eq!("2.0.0", mismatches[0].version);
}

#[test]
fn failed_lookup_of_matching_module_reports_nothing() {
    let manifest = Puppetfile::parse("forge 'f'\n\nmod 'a/down', '1.0.0'\n").unwrap();
    let results = vec![RegistryLookupResult {
        module_name: "a/down".to_string(),
        outcome: Err(PuppetfileError {
            kind: ErrorKind::IoError,
            desc: "an IO error occured".to_string(),
        }),
    }];
    let looked = successful_lookups(&results);
    assert!(looked.is_empty());
    assert!(manifest.mismatches(&looked).is_empty());
}

#[test]
fn is_version_distinguishes_entries() {
    let v = ModuleInfo::Version(Constraint::from_token("1.0.0").unwrap());
    let i = ModuleInfo::Info("git".to_string(), "url".to_string());
    assert!(v.is_version());
    assert!(!i.is_version());
}

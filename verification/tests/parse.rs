use puppetfile::{Puppetfile, Module, ModuleInfo, Constraint, ErrorKind};

#[test]
fn empty_file() {
    let puppetfile = Puppetfile::parse(r##"forge "https://forge.puppetlabs.com""##);
    assert!(puppetfile.is_ok());
    let parsed = puppetfile.unwrap();
    assert_eq!("https://forge.puppetlabs.com", parsed.forge);
    let expected: Vec<Module> = vec![];
    assert_eq!(expected, parsed.modules);
}

#[test]
fn no_version() {
    let puppetfile = Puppetfile::parse(
        r##"forge "https://forge.puppetlabs.com"

mod 'mayflower/php'
    "##,
    );
    assert!(puppetfile.is_ok());

    let parsed = puppetfile.unwrap();
    assert_eq!("https://forge.puppetlabs.com", parsed.forge);
    assert_eq!(
        Module { name: "mayflower/php".to_string(), info: vec![] },
        parsed.modules[0]
    );
}

#[test]
fn git_version() {
    let puppetfile = Puppetfile::parse(
        r##"forge "https://forge.puppetlabs.com"

mod 'mayflower/php', '1.0.1'
    "##,
    );
    assert!(puppetfile.is_ok());

    let parsed = puppetfile.unwrap();
    assert_eq!("https://forge.puppetlabs.com", parsed.forge);
    assert_eq!(
        Module {
            name: "mayflower/php".to_string(),
            info: vec![ModuleInfo::Version(Constraint::from_token("= 1.0.1").unwrap())]
        },
        parsed.modules[0]
    );
}

#[test]
fn version() {
    let puppetfile = Puppetfile::parse(
        r##"forge "https://forge.puppetlabs.com"

mod 'mayflower/php',
:git => 'git://github.com/Mayflower/puppet-php.git'
    "##,
    );
    assert!(puppetfile.is_ok());

    let parsed = puppetfile.unwrap();
    assert_eq!("https://forge.puppetlabs.com", parsed.forge);
    assert_eq!(
        Module {
            name: "mayflower/php".to_string(),
            info: vec![ModuleInfo::Info(
                "git".to_string(),
                "git://github.com/Mayflower/puppet-php.git".to_string()
            )]
        },
        parsed.modules[0]
    );
}

#[test]
fn exact_pin_is_normalized() {
    let parsed = Puppetfile::parse("forge 'f'\n\nmod 'a/b', '1.0.1'\n").unwrap();
    let expected = Constraint::from_token("= 1.0.1").unwrap();
    assert_eq!(
        ModuleInfo::Version(expected),
        parsed.modules[0].info[0]
    );
    assert_eq!("= 1.0.1", parsed.modules[0].version().unwrap().as_text());
}

#[test]
fn range_token_is_kept() {
    let parsed = Puppetfile::parse("forge 'f'\n\nmod 'a/b', '>= 1.0.0'\n").unwrap();
    assert_eq!(">= 1.0.0", parsed.modules[0].version().unwrap().as_text());
}

#[test]
fn info_value_is_opaque() {
    let parsed = Puppetfile::parse("forge 'f'\n\nmod 'p', :git => 'URL'\n").unwrap();
    assert_eq!(
        ModuleInfo::Info("git".to_string(), "URL".to_string()),
        parsed.modules[0].info[0]
    );
}

#[test]
fn comments_and_whitespace_are_skipped() {
    let parsed = Puppetfile::parse(
        "# a manifest\nforge 'f' # the forge\n\nmod 'a/b', # entry\n  '1.0.0'\n",
    )
    .unwrap();
    assert_eq!("f", parsed.forge);
    assert_eq!("a/b", parsed.modules[0].name);
    assert_eq!("= 1.0.0", parsed.modules[0].version().unwrap().as_text());
}

#[test]
fn several_modules_keep_order() {
    let parsed =
        Puppetfile::parse("forge 'f'\n\nmod 'a/b', '1.0.0'\n\nmod 'c'\n\nmod 'd/e'\n").unwrap();
    assert_eq!(3, parsed.modules.len());
    assert_eq!("a/b", parsed.modules[0].name);
    assert_eq!("c", parsed.modules[1].name);
    assert_eq!("d/e", parsed.modules[2].name);
}

#[test]
fn missing_forge_is_an_error() {
    let r = Puppetfile::parse("mod 'a/b'\n");
    assert!(r.is_err());
    let e = r.unwrap_err();
    assert!(matches!(e.kind, ErrorKind::ParseError(_)));
    assert_eq!("could not parse the Puppetfile", e.desc);
}

#[test]
fn unterminated_string_is_an_error() {
    let r = Puppetfile::parse("forge 'f\n");
    assert!(r.is_err());
    assert!(matches!(r.unwrap_err().kind, ErrorKind::ParseError(_)));
}

#[test]
fn trailing_garbage_is_an_error() {
    let r = Puppetfile::parse("forge 'f' garbage");
    assert!(r.is_err());
    assert!(matches!(r.unwrap_err().kind, ErrorKind::ParseError(_)));
}

#[test]
fn bad_version_token_is_an_error() {
    let r = Puppetfile::parse("forge 'f'\n\nmod 'a/b', 'not a version'\n");
    assert!(r.is_err());
    let e = r.unwrap_err();
    assert_eq!(ErrorKind::SemverError, e.kind);
    assert_eq!("an invalid version was given", e.desc);
}

#[test]
fn first_version_entry_is_authoritative() {
    let parsed = Puppetfile::parse("forge 'f'\n\nmod 'a/b', '1.0.0', '2.0.0'\n").unwrap();
    assert_eq!("= 1.0.0", parsed.modules[0].version().unwrap().as_text());
}

#[test]
fn unicode_whitespace_separates_tokens() {
    let parsed = Puppetfile::parse("forge\u{00A0}'f'\u{2028}mod\u{3000}'a/b'").unwrap();
    assert_eq!("f", parsed.forge);
    assert_eq!("a/b", parsed.modules[0].name);
}

#[test]
fn info_list_needs_no_leading_comma() {
    let parsed = Puppetfile::parse("forge 'f'\n\nmod 'a/b' '1.0.0'\n").unwrap();
    assert_eq!("= 1.0.0", parsed.modules[0].version().unwrap().as_text());
}

#[test]
fn trailing_comma_after_entries_is_an_error() {
    let r = Puppetfile::parse("forge 'f'\n\nmod 'a/b', '1.0.0',\n\nmod 'c'\n");
    assert!(r.is_err());
}

#[test]
fn trailing_comma_after_name_is_accepted() {
    let parsed = Puppetfile::parse("forge 'f'\n\nmod 'a/b',\n\nmod 'c'\n").unwrap();
    assert_eq!(2, parsed.modules.len());
    assert!(parsed.modules[0].info.is_empty());
}

#[test]
fn end_to_end_scenario() {
    let parsed = Puppetfile::parse(
        "forge \"https://forge.puppetlabs.com\"

mod 'mayflower/php',
    :git => 'git://example.com/puppet-php.git'
",
    )
    .unwrap();
    assert_eq!("https://forge.puppetlabs.com", parsed.forge);
    assert_eq!(1, parsed.modules.len());
    assert_eq!("mayflower/php", parsed.modules[0].name);
    assert_eq!(
        vec![ModuleInfo::Info(
            "git".to_string(),
            "git://example.com/puppet-php.git".to_string()
        )],
        parsed.modules[0].info
    );
    // no Version entry: the module takes no part in version checking
    assert!(parsed.modules[0].version().is_none());
    let mismatches = parsed.mismatches(&vec![]);
    assert!(mismatches.is_empty());
}

use puppetfile::{Puppetfile, Module, ModuleInfo, Constraint};

#[test]
fn format() {
    let version = ModuleInfo::Version(Constraint::from_token("= 1.0.0").unwrap());
    assert_eq!("= 1.0.0".to_string(), version.to_text());

    let mod_info = ModuleInfo::Info(
        "git".to_string(),
        "git://github.com/Mayflower/puppet-php.git".to_string(),
    );
    assert_eq!(
        ":git => 'git://github.com/Mayflower/puppet-php.git'",
        mod_info.to_text()
    );

    let module = Module {
        name: "mayflower/php".to_string(),
        info: vec![version, mod_info],
    };
    assert_eq!(
        "mod 'mayflower/php', '= 1.0.0',
  :git => 'git://github.com/Mayflower/puppet-php.git'",
        module.to_text()
    );

    let puppetfile = Puppetfile {
        forge: "https://forge.puppetlabs.com".to_string(),
        modules: vec![module],
    };
    assert_eq!(
        "forge 'https://forge.puppetlabs.com'


mod 'mayflower/php', '= 1.0.0',
  :git => 'git://github.com/Mayflower/puppet-php.git'
",
        puppetfile.to_text()
    );
}

#[test]
fn reparsing_a_rendering_is_stable() {
    let text = "forge \"https://forge.puppetlabs.com\"

mod 'mayflower/php', '1.0.1',
    :git => 'git://example.com/puppet-php.git'

mod 'puppetlabs/stdlib'
";
    let once = Puppetfile::parse(text).unwrap();
    let rendered = once.to_text();
    let twice = Puppetfile::parse(&rendered).unwrap();
    assert_eq!(once, twice);
    assert_eq!(rendered, twice.to_text());
}

#[test]
fn rendering_an_empty_manifest() {
    let parsed = Puppetfile::parse("forge 'f'").unwrap();
    assert_eq!("forge 'f'\n\n", parsed.to_text());
}

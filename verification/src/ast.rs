//! The document model: a manifest pins a forge URL and an ordered sequence of
//! modules, each carrying an ordered list of information entries — either a
//! version constraint or an opaque key/value pair.
use vstd::prelude::*;
use vstd::string::{StrSliceExecFns, StringExecFns};
use crate::scan::{find_from, find_char_from};
use crate::versions::{Constraint, PackageVersion, version_parses, req_parses, req_matches};

verus! {

/// Mathematical model of one information entry.
pub ghost enum InfoModel {
    Version(Seq<char>),
    Info(Seq<char>, Seq<char>),
}

/// Mathematical model of one module declaration.
#[verifier::ext_equal]
pub ghost struct ModuleModel {
    pub name: Seq<char>,
    pub info: Seq<InfoModel>,
}

/// Mathematical model of a whole manifest.
#[verifier::ext_equal]
pub ghost struct ManifestModel {
    pub forge: Seq<char>,
    pub modules: Seq<ModuleModel>,
}

/// Further information on a puppet module.
#[derive(Debug, PartialEq)]
pub enum ModuleInfo {
    /// A version constraint.
    Version(Constraint),
    /// Key/value information, kept as written with no interpretation.
    Info(String, String),
}

/// The representation of a puppet module.
#[derive(Debug, PartialEq)]
pub struct Module {
    /// Name of the module: a bare name, or an `owner/name` pair.
    pub name: String,
    /// More information about the module, in declaration order.
    pub info: Vec<ModuleInfo>,
}

/// This represents a whole Puppetfile.
#[derive(Debug, PartialEq)]
pub struct Puppetfile {
    /// The forge URL.
    pub forge: String,
    /// All modules of the Puppetfile, in declaration order.
    pub modules: Vec<Module>,
}

/// The kind of error of a PuppetfileError.
#[derive(Debug, PartialEq, Clone, Copy)]
pub enum ErrorKind {
    /// The registry could not be reached.
    HttpError,
    /// Reading from the registry failed.
    IoError,
    /// A version or a version range could not be parsed.
    SemverError,
    /// The registry's answer was not the expected JSON.
    JsonError,
    /// The module name has no `owner/name` form, so no URL can be built.
    UrlBuilding,
    /// The manifest text does not follow the grammar; holds the position, in
    /// characters, where parsing stopped.
    ParseError(usize),
}

/// An error of parsing or of checking versions against the forge.
#[derive(Debug, PartialEq)]
pub struct PuppetfileError {
    /// The kind of the error.
    pub kind: ErrorKind,
    /// Short description.
    pub desc: String,
}

impl View for ModuleInfo {
    type V = InfoModel;

    open spec fn view(&self) -> InfoModel {
        match self {
            ModuleInfo::Version(c) => InfoModel::Version(c@),
            ModuleInfo::Info(k, v) => InfoModel::Info(k@, v@),
        }
    }
}

impl View for Module {
    type V = ModuleModel;

    open spec fn view(&self) -> ModuleModel {
        ModuleModel {
            name: self.name@,
            info: Seq::new(self.info@.len(), |i: int| self.info@[i]@),
        }
    }
}

impl View for Puppetfile {
    type V = ManifestModel;

    open spec fn view(&self) -> ManifestModel {
        ManifestModel {
            forge: self.forge@,
            modules: Seq::new(self.modules@.len(), |i: int| self.modules@[i]@),
        }
    }
}

/// The `(owner, name)` pair of a module name holding exactly one `/`, split
/// there; `None` for any other shape.
pub open spec fn owner_name_of(name: Seq<char>) -> Option<(Seq<char>, Seq<char>)> {
    let i = find_from(name, '/', 0);
    if i < name.len() && find_from(name, '/', i + 1) == name.len() {
        Some((name.take(i), name.skip(i + 1)))
    } else {
        None
    }
}

/// The constraint of the first Version entry, if any: the authoritative pin,
/// even where later entries also carry versions.
pub open spec fn first_version(info: Seq<InfoModel>) -> Option<Seq<char>>
    decreases info.len(),
{
    if info.len() == 0 {
        None
    } else {
        match info[0] {
            InfoModel::Version(t) => Some(t),
            InfoModel::Info(k, v) => first_version(info.skip(1)),
        }
    }
}

/// `s` with one trailing `/` removed, if it ends in one.
pub open spec fn strip_trailing_slash(s: Seq<char>) -> Seq<char> {
    if s.len() > 0 && s[s.len() - 1] == '/' {
        s.take(s.len() - 1)
    } else {
        s
    }
}

/// The registry URL asking for the latest release of the named module:
/// `<forge without trailing slash>/users/<owner>/modules/<name>/releases/find.json`.
pub open spec fn version_url_of(forge: Seq<char>, name: Seq<char>) -> Option<Seq<char>> {
    match owner_name_of(name) {
        None => None,
        Some(p) => Some(
            strip_trailing_slash(forge) + "/users/"@ + p.0 + "/modules/"@ + p.1
                + "/releases/find.json"@,
        ),
    }
}

impl ModuleInfo {
    /// Returns `true` if this entry is a `Version` constraint.
    pub fn is_version(&self) -> (r: bool)
        ensures
            r == (self@ is Version),
    {
        match self {
            ModuleInfo::Version(_) => true,
            ModuleInfo::Info(_, _) => false,
        }
    }
}

impl Module {
    /// Returns owner and module name from a name of the form `owner/name`.
    pub fn user_name_pair(&self) -> (r: Option<(&str, &str)>)
        ensures
            match r {
                Some(p) => owner_name_of(self.name@) == Some((p.0@, p.1@)),
                None => owner_name_of(self.name@) is None,
            },
{
        let s = self.name.as_str();
        let n = s.unicode_len();
        let i = find_char_from(s, '/', 0);
        if i < n {
            let j = find_char_from(s, '/', i + 1);
            if j == n {
                let owner = s.substring_char(0, i);
                let name = s.substring_char(i + 1, n);
                proof {
                    assert(owner@ =~= self.name@.take(i as int));
                    assert(name@ =~= self.name@.skip(i + 1));
                }
                Some((owner, name))
            } else {
                None
            }
        } else {
            None
        }
    }

    /// Returns the pinned version constraint, if one is declared: the first
    /// `Version` entry decides.
    pub fn version(&self) -> (r: Option<&Constraint>)
        ensures
            match r {
                Some(c) => first_version(self@.info) == Some(c@),
                None => first_version(self@.info) is None,
            },
    {
        let mut i: usize = 0;
        proof {
            assert(self@.info.skip(0) =~= self@.info);
        }
        while i < self.info.len()
            invariant
                i <= self.info.len(),
                first_version(self@.info) == first_version(self@.info.skip(i as int)),
            decreases self.info.len() - i,
        {
            match &self.info[i] {
                ModuleInfo::Version(c) => {
                    return Some(c);
                },
                ModuleInfo::Info(_, _) => {},
            }
            proof {
                assert(self@.info.skip(i as int).skip(1) =~= self@.info.skip(i + 1));
            }
            i = i + 1;
        }
        None
    }

    /// Builds the URL under which the forge reports the latest release of
    /// this module.
    pub fn version_url(&self, forge_url: &str) -> (r: Result<String, PuppetfileError>)
        ensures
            r is Ok <==> owner_name_of(self.name@) is Some,
            r matches Ok(u) ==> Some(u@) == version_url_of(forge_url@, self.name@),
            r matches Err(e) ==> e.kind == ErrorKind::UrlBuilding && e.desc@
                == "Could not build url"@,
    {
        match self.user_name_pair() {
            None => Err(
                PuppetfileError {
                    kind: ErrorKind::UrlBuilding,
                    desc: "Could not build url".to_owned(),
                },
            ),
            Some((owner, name)) => {
                let n = forge_url.unicode_len();
                let stripped = if n > 0 && forge_url.get_char(n - 1) == '/' {
                    forge_url.substring_char(0, n - 1)
                } else {
                    forge_url
                };
                proof {
                    assert(stripped@ =~= strip_trailing_slash(forge_url@));
                }
                let mut u = String::from_str(stripped);
                u.append("/users/");
                u.append(owner);
                u.append("/modules/");
                u.append(name);
                u.append("/releases/find.json");
                proof {
                    let p = owner_name_of(self.name@)->0;
                    assert(u@ =~= strip_trailing_slash(forge_url@) + "/users/"@ + p.0
                        + "/modules/"@ + p.1 + "/releases/find.json"@);
                }
                Ok(u)
            },
        }
    }
}

} // verus!

//! The manifest grammar: a `forge` directive followed by any number of `mod`
//! declarations, each with a quoted name and a comma-separated list of
//! information entries — a quoted version token, or `:key => 'value'`.
//! Alternatives are tried in source order and the first that fits wins; a rule
//! that fits nowhere makes the whole parse fail, there are no partial
//! manifests.
use vstd::prelude::*;
use vstd::string::StringExecFns;
use crate::chars::{is_letter, is_digit, letter, digit};
use crate::scan::{skip_end, skip, ident_end, ident_to_end, lemma_skip_end_bounds,
    lemma_ident_end_bounds, str_chars};
use crate::strlit::{spec_string_lit, string_lit, lemma_string_lit_advances, push_char};
use crate::versions::Constraint;
use crate::ast::{InfoModel, ModuleModel, ManifestModel, ModuleInfo, Module, Puppetfile, ErrorKind,
    PuppetfileError};

verus! {

/// Outcome of one grammar rule at one position: the parsed value and the
/// position after it; a miss, after which the next alternative may be tried;
/// or an abort at a position, which fails the whole parse — a version token
/// that neither reading of it accepts is reported, never backtracked over.
pub ghost enum RuleStep<T> {
    Found(T, int),
    Miss,
    Abort(int),
}

/// Exec counterpart of `RuleStep`.
enum ExecStep<T> {
    Found(T, usize),
    Miss,
    Abort(usize),
}

/// The word `forge` stands at `pos`.
pub open spec fn at_forge(s: Seq<char>, pos: int) -> bool {
    &&& pos + 5 <= s.len()
    &&& s[pos] == 'f'
    &&& s[pos + 1] == 'o'
    &&& s[pos + 2] == 'r'
    &&& s[pos + 3] == 'g'
    &&& s[pos + 4] == 'e'
}

/// The word `mod` stands at `pos`.
pub open spec fn at_mod(s: Seq<char>, pos: int) -> bool {
    &&& pos + 3 <= s.len()
    &&& s[pos] == 'm'
    &&& s[pos + 1] == 'o'
    &&& s[pos + 2] == 'd'
}

/// The arrow `=>` stands at `pos`.
pub open spec fn at_arrow(s: Seq<char>, pos: int) -> bool {
    &&& pos + 2 <= s.len()
    &&& s[pos] == '='
    &&& s[pos + 1] == '>'
}

/// An identifier: a letter or underscore, then letters, digits and
/// underscores, with the token separation after it.
pub open spec fn spec_identifier(s: Seq<char>, pos: int) -> Option<(Seq<char>, int)> {
    if 0 <= pos && pos < s.len() && (is_letter(s[pos]) || s[pos] == '_') {
        let e = ident_end(s, pos + 1);
        Some((s.subrange(pos, e), skip_end(s, e)))
    } else {
        None
    }
}

pub proof fn lemma_identifier_advances(s: Seq<char>, pos: int)
    requires
        0 <= pos <= s.len(),
    ensures
        spec_identifier(s, pos) matches Some(r) ==> pos < r.1 <= s.len(),
{
    if 0 <= pos && pos < s.len() && (is_letter(s[pos]) || s[pos] == '_') {
        lemma_ident_end_bounds(s, pos + 1);
        lemma_skip_end_bounds(s, ident_end(s, pos + 1));
    }
}

/// A symbol: `:` followed directly by an identifier.
pub open spec fn spec_symbol(s: Seq<char>, pos: int) -> Option<(Seq<char>, int)> {
    if 0 <= pos && pos < s.len() && s[pos] == ':' {
        spec_identifier(s, pos + 1)
    } else {
        None
    }
}

pub proof fn lemma_symbol_advances(s: Seq<char>, pos: int)
    requires
        0 <= pos <= s.len(),
    ensures
        spec_symbol(s, pos) matches Some(r) ==> pos < r.1 <= s.len(),
{
    if 0 <= pos && pos < s.len() && s[pos] == ':' {
        lemma_identifier_advances(s, pos + 1);
    }
}

/// A version entry: a quoted token, wrapped as the constraint the token
/// denotes; a token that denotes none aborts the parse.
pub open spec fn spec_version_item(s: Seq<char>, pos: int) -> RuleStep<InfoModel> {
    match spec_string_lit(s, pos) {
        None => RuleStep::Miss,
        Some((tok, p)) => {
            let p2 = skip_end(s, p);
            match Constraint::spec_from_token(tok) {
                Some(t) => RuleStep::Found(InfoModel::Version(t), p2),
                None => RuleStep::Abort(pos),
            }
        },
    }
}

pub proof fn lemma_version_item_advances(s: Seq<char>, pos: int)
    requires
        0 <= pos <= s.len(),
    ensures
        spec_version_item(s, pos) matches RuleStep::Found(v, p) ==> pos < p <= s.len(),
{
    lemma_string_lit_advances(s, pos);
    match spec_string_lit(s, pos) {
        None => {},
        Some((tok, p)) => {
            lemma_skip_end_bounds(s, p);
        },
    }
}

/// An information entry: `:key => 'value'`.
pub open spec fn spec_info_hash(s: Seq<char>, pos: int) -> RuleStep<InfoModel> {
    match spec_symbol(s, pos) {
        None => RuleStep::Miss,
        Some((key, p1)) => {
            let p1b = skip_end(s, p1);
            if at_arrow(s, p1b) {
                let p2 = skip_end(s, p1b + 2);
                match spec_string_lit(s, p2) {
                    None => RuleStep::Miss,
                    Some((value, p3)) => RuleStep::Found(
                        InfoModel::Info(key, value),
                        skip_end(s, p3),
                    ),
                }
            } else {
                RuleStep::Miss
            }
        },
    }
}

pub proof fn lemma_info_hash_advances(s: Seq<char>, pos: int)
    requires
        0 <= pos <= s.len(),
    ensures
        spec_info_hash(s, pos) matches RuleStep::Found(v, p) ==> pos < p <= s.len(),
{
    lemma_symbol_advances(s, pos);
    match spec_symbol(s, pos) {
        None => {},
        Some((key, p1)) => {
            lemma_skip_end_bounds(s, p1);
            let p1b = skip_end(s, p1);
            if at_arrow(s, p1b) {
                lemma_skip_end_bounds(s, p1b + 2);
                let p2 = skip_end(s, p1b + 2);
                lemma_string_lit_advances(s, p2);
                match spec_string_lit(s, p2) {
                    None => {},
                    Some((value, p3)) => {
                        lemma_skip_end_bounds(s, p3);
                    },
                }
            }
        },
    }
}

/// One information entry: a version entry where one fits, else `:key =>
/// 'value'`.
pub open spec fn spec_info_item(s: Seq<char>, pos: int) -> RuleStep<InfoModel> {
    match spec_version_item(s, pos) {
        RuleStep::Found(v, p) => RuleStep::Found(v, p),
        RuleStep::Abort(e) => RuleStep::Abort(e),
        RuleStep::Miss => spec_info_hash(s, pos),
    }
}

pub proof fn lemma_info_item_advances(s: Seq<char>, pos: int)
    requires
        0 <= pos <= s.len(),
    ensures
        spec_info_item(s, pos) matches RuleStep::Found(v, p) ==> pos < p <= s.len(),
{
    lemma_version_item_advances(s, pos);
    lemma_info_hash_advances(s, pos);
}

/// The entries after the first: any number of `, entry`. A comma after which
/// no entry fits is left unconsumed. Never a miss.
pub open spec fn spec_info_tail(s: Seq<char>, pos: int) -> RuleStep<Seq<InfoModel>>
    decreases s.len() - pos,
    when 0 <= pos <= s.len()
    via spec_info_tail_decreases
{
    if pos < s.len() && s[pos] == ',' {
        let p1 = skip_end(s, pos + 1);
        match spec_info_item(s, p1) {
            RuleStep::Abort(e) => RuleStep::Abort(e),
            RuleStep::Miss => RuleStep::Found(Seq::empty(), pos),
            RuleStep::Found(i, p2) => match spec_info_tail(s, p2) {
                RuleStep::Abort(e) => RuleStep::Abort(e),
                RuleStep::Miss => RuleStep::Miss,
                RuleStep::Found(rest, p3) => RuleStep::Found(seq![i] + rest, p3),
            },
        }
    } else {
        RuleStep::Found(Seq::empty(), pos)
    }
}

#[via_fn]
proof fn spec_info_tail_decreases(s: Seq<char>, pos: int) {
    if 0 <= pos && pos < s.len() && s[pos] == ',' {
        lemma_skip_end_bounds(s, pos + 1);
        lemma_info_item_advances(s, skip_end(s, pos + 1));
    }
}

pub proof fn lemma_info_tail_bounds(s: Seq<char>, pos: int)
    requires
        0 <= pos <= s.len(),
    ensures
        spec_info_tail(s, pos) matches RuleStep::Found(v, p) ==> pos <= p <= s.len(),
    decreases s.len() - pos,
{
    if pos < s.len() && s[pos] == ',' {
        lemma_skip_end_bounds(s, pos + 1);
        let p1 = skip_end(s, pos + 1);
        lemma_info_item_advances(s, p1);
        match spec_info_item(s, p1) {
            RuleStep::Abort(e) => {},
            RuleStep::Miss => {},
            RuleStep::Found(i, p2) => {
                lemma_info_tail_bounds(s, p2);
            },
        }
    }
}

/// The comma-separated information entries of one module; empty where none
/// fits. Never a miss.
pub open spec fn spec_info_list(s: Seq<char>, pos: int) -> RuleStep<Seq<InfoModel>> {
    match spec_info_item(s, pos) {
        RuleStep::Abort(e) => RuleStep::Abort(e),
        RuleStep::Miss => RuleStep::Found(Seq::empty(), pos),
        RuleStep::Found(i, p) => match spec_info_tail(s, p) {
            RuleStep::Abort(e) => RuleStep::Abort(e),
            RuleStep::Miss => RuleStep::Miss,
            RuleStep::Found(rest, p2) => RuleStep::Found(seq![i] + rest, p2),
        },
    }
}

pub proof fn lemma_info_list_bounds(s: Seq<char>, pos: int)
    requires
        0 <= pos <= s.len(),
    ensures
        spec_info_list(s, pos) matches RuleStep::Found(v, p) ==> pos <= p <= s.len(),
{
    lemma_info_item_advances(s, pos);
    match spec_info_item(s, pos) {
        RuleStep::Abort(e) => {},
        RuleStep::Miss => {},
        RuleStep::Found(i, p) => {
            lemma_info_tail_bounds(s, p);
        },
    }
}

/// One module declaration: `mod`, a quoted name, an optional comma, and the
/// information entries.
pub open spec fn spec_module(s: Seq<char>, pos: int) -> RuleStep<ModuleModel> {
    if at_mod(s, pos) {
        let p1 = skip_end(s, pos + 3);
        match spec_string_lit(s, p1) {
            None => RuleStep::Miss,
            Some((name, p2)) => {
                let p2b = skip_end(s, p2);
                let p3 = if p2b < s.len() && s[p2b] == ',' {
                    skip_end(s, p2b + 1)
                } else {
                    p2b
                };
                match spec_info_list(s, p3) {
                    RuleStep::Abort(e) => RuleStep::Abort(e),
                    RuleStep::Miss => RuleStep::Miss,
                    RuleStep::Found(info, p4) => RuleStep::Found(
                        ModuleModel { name, info },
                        skip_end(s, p4),
                    ),
                }
            },
        }
    } else {
        RuleStep::Miss
    }
}

pub proof fn lemma_module_advances(s: Seq<char>, pos: int)
    requires
        0 <= pos <= s.len(),
    ensures
        spec_module(s, pos) matches RuleStep::Found(m, p) ==> pos < p <= s.len(),
{
    if at_mod(s, pos) {
        lemma_skip_end_bounds(s, pos + 3);
        let p1 = skip_end(s, pos + 3);
        lemma_string_lit_advances(s, p1);
        match spec_string_lit(s, p1) {
            None => {},
            Some((name, p2)) => {
                lemma_skip_end_bounds(s, p2);
                let p2b = skip_end(s, p2);
                let p3 = if p2b < s.len() && s[p2b] == ',' {
                    lemma_skip_end_bounds(s, p2b + 1);
                    skip_end(s, p2b + 1)
                } else {
                    p2b
                };
                lemma_info_list_bounds(s, p3);
                match spec_info_list(s, p3) {
                    RuleStep::Abort(e) => {},
                    RuleStep::Miss => {},
                    RuleStep::Found(info, p4) => {
                        lemma_skip_end_bounds(s, p4);
                    },
                }
            },
        }
    }
}

/// The module declarations, one after the other, until none fits. Never a
/// miss.
pub open spec fn spec_modules(s: Seq<char>, pos: int) -> RuleStep<Seq<ModuleModel>>
    decreases s.len() - pos,
    when 0 <= pos <= s.len()
    via spec_modules_decreases
{
    match spec_module(s, pos) {
        RuleStep::Abort(e) => RuleStep::Abort(e),
        RuleStep::Miss => RuleStep::Found(Seq::empty(), pos),
        RuleStep::Found(m, p) => match spec_modules(s, p) {
            RuleStep::Abort(e) => RuleStep::Abort(e),
            RuleStep::Miss => RuleStep::Miss,
            RuleStep::Found(rest, p2) => RuleStep::Found(seq![m] + rest, p2),
        },
    }
}

#[via_fn]
proof fn spec_modules_decreases(s: Seq<char>, pos: int) {
    lemma_module_advances(s, pos);
}

pub proof fn lemma_modules_bounds(s: Seq<char>, pos: int)
    requires
        0 <= pos <= s.len(),
    ensures
        spec_modules(s, pos) matches RuleStep::Found(v, p) ==> pos <= p <= s.len(),
    decreases s.len() - pos,
{
    lemma_module_advances(s, pos);
    match spec_module(s, pos) {
        RuleStep::Abort(e) => {},
        RuleStep::Miss => {},
        RuleStep::Found(m, p) => {
            lemma_modules_bounds(s, p);
        },
    }
}

/// What parsing a whole manifest text yields: a parsed manifest, a rejection
/// by the grammar, or a version token that no reading accepts. The text must
/// be consumed whole.
pub ghost enum ManifestOutcome {
    Parsed(ManifestModel),
    Rejected,
    BadVersion,
}

/// The manifest a text denotes: leading separation, the `forge` directive
/// with its quoted URL, then the module declarations, then the end of the
/// text.
pub open spec fn spec_parse_manifest(s: Seq<char>) -> ManifestOutcome {
    let p0 = skip_end(s, 0);
    if at_forge(s, p0) {
        let p1 = skip_end(s, p0 + 5);
        match spec_string_lit(s, p1) {
            None => ManifestOutcome::Rejected,
            Some((forge, p2)) => {
                let p2b = skip_end(s, p2);
                match spec_modules(s, p2b) {
                    RuleStep::Abort(e) => ManifestOutcome::BadVersion,
                    RuleStep::Miss => ManifestOutcome::Rejected,
                    RuleStep::Found(mods, p3) => {
                        if p3 == s.len() {
                            ManifestOutcome::Parsed(ManifestModel { forge, modules: mods })
                        } else {
                            ManifestOutcome::Rejected
                        }
                    },
                }
            },
        }
    } else {
        ManifestOutcome::Rejected
    }
}

/// The views of the entries of an information list.
pub open spec fn infos_view(v: Seq<ModuleInfo>) -> Seq<InfoModel> {
    Seq::new(v.len(), |i: int| v[i]@)
}

/// The views of the modules of a list.
pub open spec fn modules_view(v: Seq<Module>) -> Seq<ModuleModel> {
    Seq::new(v.len(), |i: int| v[i]@)
}

fn kw_forge(s: &Vec<char>, pos: usize) -> (r: bool)
    requires
        pos <= s@.len(),
    ensures
        r == at_forge(s@, pos as int),
{
    s.len() - pos >= 5 && s[pos] == 'f' && s[pos + 1] == 'o' && s[pos + 2] == 'r' && s[pos + 3]
        == 'g' && s[pos + 4] == 'e'
}

fn kw_mod(s: &Vec<char>, pos: usize) -> (r: bool)
    requires
        pos <= s@.len(),
    ensures
        r == at_mod(s@, pos as int),
{
    s.len() - pos >= 3 && s[pos] == 'm' && s[pos + 1] == 'o' && s[pos + 2] == 'd'
}

fn kw_arrow(s: &Vec<char>, pos: usize) -> (r: bool)
    requires
        pos <= s@.len(),
    ensures
        r == at_arrow(s@, pos as int),
{
    s.len() - pos >= 2 && s[pos] == '=' && s[pos + 1] == '>'
}

fn p_identifier(s: &Vec<char>, pos: usize) -> (r: Option<(String, usize)>)
    requires
        pos <= s@.len(),
    ensures
        match (r, spec_identifier(s@, pos as int)) {
            (Some((id, p)), Some(sr)) => id@ == sr.0 && p as int == sr.1,
            (None, None) => true,
            _ => false,
        },
{
    if pos < s.len() && (letter(s[pos]) || s[pos] == '_') {
        let e = ident_to_end(s, pos + 1);
        let mut out = String::new();
        let mut i = pos;
        while i < e
            invariant
                pos <= i <= e <= s@.len(),
                out@ == s@.subrange(pos as int, i as int),
            decreases e - i,
        {
            push_char(&mut out, s[i]);
            proof {
                assert(out@ =~= s@.subrange(pos as int, i + 1));
            }
            i = i + 1;
        }
        let p = skip(s, e);
        Some((out, p))
    } else {
        None
    }
}

fn p_symbol(s: &Vec<char>, pos: usize) -> (r: Option<(String, usize)>)
    requires
        pos <= s@.len(),
    ensures
        match (r, spec_symbol(s@, pos as int)) {
            (Some((id, p)), Some(sr)) => id@ == sr.0 && p as int == sr.1,
            (None, None) => true,
            _ => false,
        },
{
    if pos < s.len() && s[pos] == ':' {
        p_identifier(s, pos + 1)
    } else {
        None
    }
}

fn p_version_item(s: &Vec<char>, pos: usize) -> (r: ExecStep<ModuleInfo>)
    requires
        pos <= s@.len(),
    ensures
        match (r, spec_version_item(s@, pos as int)) {
            (ExecStep::Found(v, p), RuleStep::Found(sv, sp)) => v@ == sv && p as int == sp,
            (ExecStep::Miss, RuleStep::Miss) => true,
            (ExecStep::Abort(e), RuleStep::Abort(se)) => e as int == se,
            _ => false,
        },
{
    match string_lit(s, pos) {
        None => ExecStep::Miss,
        Some((tok, p)) => {
            proof {
                lemma_string_lit_advances(s@, pos as int);
            }
            let p2 = skip(s, p);
            match Constraint::from_token(tok.as_str()) {
                Some(c) => ExecStep::Found(ModuleInfo::Version(c), p2),
                None => ExecStep::Abort(pos),
            }
        },
    }
}

fn p_info_hash(s: &Vec<char>, pos: usize) -> (r: ExecStep<ModuleInfo>)
    requires
        pos <= s@.len(),
    ensures
        match (r, spec_info_hash(s@, pos as int)) {
            (ExecStep::Found(v, p), RuleStep::Found(sv, sp)) => v@ == sv && p as int == sp,
            (ExecStep::Miss, RuleStep::Miss) => true,
            (ExecStep::Abort(e), RuleStep::Abort(se)) => e as int == se,
            _ => false,
        },
{
    match p_symbol(s, pos) {
        None => ExecStep::Miss,
        Some((key, p1)) => {
            proof {
                lemma_symbol_advances(s@, pos as int);
            }
            let p1b = skip(s, p1);
            if kw_arrow(s, p1b) {
                let n = s.len();
                proof {
                    assert(p1b + 2 <= n);
                }
                let p2 = skip(s, p1b + 2);
                match string_lit(s, p2) {
                    None => ExecStep::Miss,
                    Some((value, p3)) => {
                        proof {
                            lemma_string_lit_advances(s@, p2 as int);
                        }
                        let p4 = skip(s, p3);
                        ExecStep::Found(ModuleInfo::Info(key, value), p4)
                    },
                }
            } else {
                ExecStep::Miss
            }
        },
    }
}

fn p_info_item(s: &Vec<char>, pos: usize) -> (r: ExecStep<ModuleInfo>)
    requires
        pos <= s@.len(),
    ensures
        match (r, spec_info_item(s@, pos as int)) {
            (ExecStep::Found(v, p), RuleStep::Found(sv, sp)) => v@ == sv && p as int == sp,
            (ExecStep::Miss, RuleStep::Miss) => true,
            (ExecStep::Abort(e), RuleStep::Abort(se)) => e as int == se,
            _ => false,
        },
{
    match p_version_item(s, pos) {
        ExecStep::Found(v, p) => ExecStep::Found(v, p),
        ExecStep::Abort(e) => ExecStep::Abort(e),
        ExecStep::Miss => p_info_hash(s, pos),
    }
}

fn p_info_tail(s: &Vec<char>, pos: usize) -> (r: ExecStep<Vec<ModuleInfo>>)
    requires
        pos <= s@.len(),
    ensures
        match (r, spec_info_tail(s@, pos as int)) {
            (ExecStep::Found(v, p), RuleStep::Found(sv, sp)) => infos_view(v@) == sv && p as int
                == sp,
            (ExecStep::Miss, RuleStep::Miss) => true,
            (ExecStep::Abort(e), RuleStep::Abort(se)) => e as int == se,
            _ => false,
        },
    decreases s@.len() - pos,
{
    if pos < s.len() && s[pos] == ',' {
        let p1 = skip(s, pos + 1);
        match p_info_item(s, p1) {
            ExecStep::Abort(e) => ExecStep::Abort(e),
            ExecStep::Miss => {
                proof {
                    assert(infos_view(Seq::<ModuleInfo>::empty()) =~= Seq::<InfoModel>::empty());
                }
                ExecStep::Found(Vec::new(), pos)
            },
            ExecStep::Found(i, p2) => {
                proof {
                    lemma_info_item_advances(s@, p1 as int);
                }
                match p_info_tail(s, p2) {
                    ExecStep::Abort(e) => ExecStep::Abort(e),
                    ExecStep::Miss => ExecStep::Miss,
                    ExecStep::Found(mut rest, p3) => {
                        let ghost gi = i@;
                        let ghost grest = rest@;
                        rest.insert(0, i);
                        proof {
                            assert(infos_view(rest@) =~= seq![gi] + infos_view(grest));
                        }
                        ExecStep::Found(rest, p3)
                    },
                }
            },
        }
    } else {
        proof {
            assert(infos_view(Seq::<ModuleInfo>::empty()) =~= Seq::<InfoModel>::empty());
        }
        ExecStep::Found(Vec::new(), pos)
    }
}

fn p_info_list(s: &Vec<char>, pos: usize) -> (r: ExecStep<Vec<ModuleInfo>>)
    requires
        pos <= s@.len(),
    ensures
        match (r, spec_info_list(s@, pos as int)) {
            (ExecStep::Found(v, p), RuleStep::Found(sv, sp)) => infos_view(v@) == sv && p as int
                == sp,
            (ExecStep::Miss, RuleStep::Miss) => true,
            (ExecStep::Abort(e), RuleStep::Abort(se)) => e as int == se,
            _ => false,
        },
{
    match p_info_item(s, pos) {
        ExecStep::Abort(e) => ExecStep::Abort(e),
        ExecStep::Miss => {
            proof {
                assert(infos_view(Seq::<ModuleInfo>::empty()) =~= Seq::<InfoModel>::empty());
            }
            ExecStep::Found(Vec::new(), pos)
        },
        ExecStep::Found(i, p) => {
            proof {
                lemma_info_item_advances(s@, pos as int);
            }
            match p_info_tail(s, p) {
                ExecStep::Abort(e) => ExecStep::Abort(e),
                ExecStep::Miss => ExecStep::Miss,
                ExecStep::Found(mut rest, p2) => {
                    let ghost gi = i@;
                    let ghost grest = rest@;
                    rest.insert(0, i);
                    proof {
                        assert(infos_view(rest@) =~= seq![gi] + infos_view(grest));
                    }
                    ExecStep::Found(rest, p2)
                },
            }
        },
    }
}

fn p_module(s: &Vec<char>, pos: usize) -> (r: ExecStep<Module>)
    requires
        pos <= s@.len(),
    ensures
        match (r, spec_module(s@, pos as int)) {
            (ExecStep::Found(m, p), RuleStep::Found(sm, sp)) => m@ == sm && p as int == sp,
            (ExecStep::Miss, RuleStep::Miss) => true,
            (ExecStep::Abort(e), RuleStep::Abort(se)) => e as int == se,
            _ => false,
        },
{
    if kw_mod(s, pos) {
        let n = s.len();
        let p1 = skip(s, pos + 3);
        match string_lit(s, p1) {
            None => ExecStep::Miss,
            Some((name, p2)) => {
                proof {
                    lemma_string_lit_advances(s@, p1 as int);
                }
                let p2b = skip(s, p2);
                let p3 = if p2b < n && s[p2b] == ',' {
                    skip(s, p2b + 1)
                } else {
                    p2b
                };
                match p_info_list(s, p3) {
                    ExecStep::Abort(e) => ExecStep::Abort(e),
                    ExecStep::Miss => ExecStep::Miss,
                    ExecStep::Found(info, p4) => {
                        proof {
                            lemma_info_list_bounds(s@, p3 as int);
                        }
                        let p5 = skip(s, p4);
                        let m = Module { name, info };
                        proof {
                            assert(m@.info =~= infos_view(m.info@));
                        }
                        ExecStep::Found(m, p5)
                    },
                }
            },
        }
    } else {
        ExecStep::Miss
    }
}

fn p_modules(s: &Vec<char>, pos: usize) -> (r: ExecStep<Vec<Module>>)
    requires
        pos <= s@.len(),
    ensures
        match (r, spec_modules(s@, pos as int)) {
            (ExecStep::Found(v, p), RuleStep::Found(sv, sp)) => modules_view(v@) == sv && p as int
                == sp,
            (ExecStep::Miss, RuleStep::Miss) => true,
            (ExecStep::Abort(e), RuleStep::Abort(se)) => e as int == se,
            _ => false,
        },
    decreases s@.len() - pos,
{
    match p_module(s, pos) {
        ExecStep::Abort(e) => ExecStep::Abort(e),
        ExecStep::Miss => {
            proof {
                assert(modules_view(Seq::<Module>::empty()) =~= Seq::<ModuleModel>::empty());
            }
            ExecStep::Found(Vec::new(), pos)
        },
        ExecStep::Found(m, p) => {
            proof {
                lemma_module_advances(s@, pos as int);
            }
            match p_modules(s, p) {
                ExecStep::Abort(e) => ExecStep::Abort(e),
                ExecStep::Miss => ExecStep::Miss,
                ExecStep::Found(mut rest, p2) => {
                    let ghost gm = m@;
                    let ghost grest = rest@;
                    rest.insert(0, m);
                    proof {
                        assert(modules_view(rest@) =~= seq![gm] + modules_view(grest));
                    }
                    ExecStep::Found(rest, p2)
                },
            }
        },
    }
}

impl Puppetfile {
    /// Try parsing the contents of a Puppetfile into a Puppetfile struct. The
    /// whole text either parses, or one positioned error is returned.
    pub fn parse(contents: &str) -> (r: Result<Puppetfile, PuppetfileError>)
        ensures
            r is Ok <==> spec_parse_manifest(contents@) is Parsed,
            r matches Ok(p) ==> ManifestOutcome::Parsed(p@) == spec_parse_manifest(contents@),
            r matches Err(e) ==> (spec_parse_manifest(contents@) is BadVersion ==> e.kind
                == ErrorKind::SemverError && e.desc@ == "an invalid version was given"@) && (
            spec_parse_manifest(contents@) is Rejected ==> e.kind is ParseError && e.desc@
                == "could not parse the Puppetfile"@),
    {
        let cs = str_chars(contents);
        let p0 = skip(&cs, 0);
        if kw_forge(&cs, p0) {
            let p1 = skip(&cs, p0 + 5);
            match string_lit(&cs, p1) {
                None => Err(parse_error(p1)),
                Some((forge, p2)) => {
                    proof {
                        lemma_string_lit_advances(cs@, p1 as int);
                    }
                    let p2b = skip(&cs, p2);
                    match p_modules(&cs, p2b) {
                        ExecStep::Abort(e) => Err(
                            PuppetfileError {
                                kind: ErrorKind::SemverError,
                                desc: "an invalid version was given".to_owned(),
                            },
                        ),
                        ExecStep::Miss => Err(parse_error(p2b)),
                        ExecStep::Found(modules, p3) => {
                            if p3 == cs.len() {
                                let m = Puppetfile { forge, modules };
                                proof {
                                    assert(m@.modules =~= modules_view(m.modules@));
                                }
                                Ok(m)
                            } else {
                                Err(parse_error(p3))
                            }
                        },
                    }
                },
            }
        } else {
            Err(parse_error(p0))
        }
    }
}

fn parse_error(offset: usize) -> (r: PuppetfileError)
    ensures
        r.kind == ErrorKind::ParseError(offset),
        r.desc@ == "could not parse the Puppetfile"@,
{
    PuppetfileError {
        kind: ErrorKind::ParseError(offset),
        desc: "could not parse the Puppetfile".to_owned(),
    }
}

} // verus!

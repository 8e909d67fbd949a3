//! Round-trip stability: re-parsing the canonical rendering of a manifest
//! gives back exactly that manifest, provided the manifest is canonical — its
//! strings hold no quote, backslash or line terminator, its keys are
//! identifiers, and each constraint text re-reads as the range it is (it is
//! accepted as a range and not as a bare concrete version).
use vstd::prelude::*;
use crate::chars::{is_whitespace, is_eol_char, is_digit, is_letter};
use crate::scan::{skip_end, line_end, ident_end, lemma_skip_end_bounds, lemma_line_end_bounds};
use crate::strlit::{lit_char_step, lit_body, spec_string_lit};
use crate::versions::{version_parses, req_parses, Constraint};
use crate::ast::{InfoModel, ModuleModel, ManifestModel};
use crate::grammar::{RuleStep, ManifestOutcome, at_forge, at_mod, at_arrow, spec_identifier,
    spec_symbol, spec_version_item, spec_info_hash, spec_info_item, spec_info_tail, spec_info_list,
    spec_module, spec_modules, spec_parse_manifest};
use crate::render::{render_info, render_info_entry, render_infos, render_module, render_modules,
    render_manifest};

verus! {

/// The word `w` stands, character for character, at position `p` of `s`.
pub open spec fn has_at(s: Seq<char>, p: int, w: Seq<char>) -> bool {
    &&& 0 <= p
    &&& p + w.len() <= s.len()
    &&& forall|j: int| 0 <= j < w.len() ==> s[p + j] == w[j]
}

pub proof fn lemma_has_at_split(s: Seq<char>, p: int, a: Seq<char>, b: Seq<char>)
    requires
        has_at(s, p, a + b),
    ensures
        has_at(s, p, a),
        has_at(s, p + a.len(), b),
{
    assert forall|j: int| 0 <= j < a.len() implies s[p + j] == a[j] by {
        assert((a + b)[j] == a[j]);
        assert(s[p + j] == (a + b)[j]);
    }
    assert forall|j: int| 0 <= j < b.len() implies s[p + a.len() + j] == b[j] by {
        assert((a + b)[a.len() + j] == b[j]);
        assert(s[p + (a.len() + j)] == (a + b)[a.len() + j]);
    }
}

/// A string that a single-quoted literal renders and re-reads unchanged: no
/// quote, no backslash, no line terminator.
pub open spec fn benign(w: Seq<char>) -> bool {
    forall|i: int| 0 <= i < w.len() ==> w[i] != '\'' && w[i] != '\\' && !is_eol_char(w[i])
}

/// A key that re-reads as the identifier it was: a letter or underscore,
/// then letters, digits and underscores.
pub open spec fn ident_shaped(k: Seq<char>) -> bool {
    &&& k.len() > 0
    &&& (is_letter(k[0]) || k[0] == '_')
    &&& forall|i: int| 0 <= i < k.len() ==> is_letter(k[i]) || is_digit(k[i]) || k[i] == '_'
}

pub open spec fn canonical_info(i: InfoModel) -> bool {
    match i {
        InfoModel::Version(t) => benign(t) && !version_parses(t) && req_parses(t),
        InfoModel::Info(k, v) => ident_shaped(k) && benign(v),
    }
}

pub open spec fn canonical_module(m: ModuleModel) -> bool {
    &&& benign(m.name)
    &&& forall|j: int| 0 <= j < m.info.len() ==> canonical_info(#[trigger] m.info[j])
}

pub open spec fn canonical_manifest(m: ManifestModel) -> bool {
    &&& benign(m.forge)
    &&& forall|j: int| 0 <= j < m.modules.len() ==> canonical_module(#[trigger] m.modules[j])
}

/// A maximal run of whitespace and line terminators, followed by something
/// that stops the token separation, is exactly what `skip_end` consumes.
pub proof fn lemma_skip_run(s: Seq<char>, p: int, k: int)
    requires
        0 <= p,
        0 <= k,
        p + k <= s.len(),
        forall|i: int| p <= i < p + k ==> is_whitespace(#[trigger] s[i]) || is_eol_char(s[i]),
        p + k == s.len() || (!is_whitespace(s[p + k]) && !is_eol_char(s[p + k]) && s[p + k] != '#'),
    ensures
        skip_end(s, p) == p + k,
    decreases k,
{
    if k > 0 {
        assert(is_whitespace(s[p]) || is_eol_char(s[p]));
        lemma_skip_run(s, p + 1, k - 1);
    }
}

/// Consuming the token separation twice consumes no more than once.
pub proof fn lemma_skip_end_idem(s: Seq<char>, p: int)
    requires
        0 <= p <= s.len(),
    ensures
        skip_end(s, skip_end(s, p)) == skip_end(s, p),
    decreases s.len() - p,
{
    if p < s.len() {
        if is_whitespace(s[p]) || is_eol_char(s[p]) {
            lemma_skip_end_idem(s, p + 1);
        } else if s[p] == '#' {
            lemma_line_end_bounds(s, p + 1);
            lemma_skip_end_idem(s, line_end(s, p + 1));
        }
    }
}

/// One skippable character more makes no difference to where the separation
/// ends.
pub proof fn lemma_skip_step(s: Seq<char>, p: int)
    requires
        0 <= p < s.len(),
        is_whitespace(s[p]) || is_eol_char(s[p]),
    ensures
        skip_end(s, p) == skip_end(s, p + 1),
{
}

/// A run of identifier characters up to a character that ends it is exactly
/// what `ident_end` consumes.
pub proof fn lemma_ident_run(s: Seq<char>, a: int, b: int)
    requires
        0 <= a <= b <= s.len(),
        forall|i: int| a <= i < b ==> is_letter(#[trigger] s[i]) || is_digit(s[i]) || s[i] == '_',
        b == s.len() || !(is_letter(s[b]) || is_digit(s[b]) || s[b] == '_'),
    ensures
        ident_end(s, a) == b,
    decreases b - a,
{
    if a < b {
        assert(is_letter(s[a]) || is_digit(s[a]) || s[a] == '_');
        lemma_ident_run(s, a + 1, b);
    }
}

/// The body of a single-quoted literal over benign content: every character
/// is copied as it stands, up to the closing quote.
pub proof fn lemma_lit_body_benign(s: Seq<char>, p: int, c: Seq<char>)
    requires
        0 <= p,
        p + c.len() + 1 <= s.len(),
        benign(c),
        forall|i: int| 0 <= i < c.len() ==> s[p + i] == c[i],
        s[p + c.len()] == '\'',
    ensures
        lit_body(s, p, '\'') == Some((c, p + c.len() + 1)),
    decreases c.len(),
{
    if c.len() == 0 {
        assert(s[p] == '\'');
        assert(c =~= Seq::<char>::empty());
    } else {
        assert(s[p] == c[0]);
        assert(c[0] != '\'' && c[0] != '\\' && !is_eol_char(c[0]));
        assert(lit_char_step(s, p, '\'') == Some((c[0], p + 1)));
        let rest = c.skip(1);
        assert forall|i: int| 0 <= i < rest.len() implies s[p + 1 + i] == rest[i] by {
            assert(rest[i] == c[i + 1]);
            assert(s[p + (i + 1)] == c[i + 1]);
        }
        assert(s[p + 1 + rest.len()] == '\'');
        lemma_lit_body_benign(s, p + 1, rest);
        assert(seq![c[0]] + rest =~= c);
    }
}

/// A whole single-quoted literal over benign content re-reads as that
/// content, and ends after the closing quote and the separation behind it.
pub proof fn lemma_string_lit_quoted(s: Seq<char>, p: int, c: Seq<char>)
    requires
        benign(c),
        has_at(s, p, seq!['\''] + c + seq!['\'']),
    ensures
        spec_string_lit(s, p) == Some((c, skip_end(s, p + c.len() + 2))),
{
    let w = seq!['\''] + c + seq!['\''];
    assert(w.len() == c.len() + 2);
    assert(s[p] == '\'') by {
        assert(w[0] == '\'');
        assert(s[p + 0] == w[0]);
    }
    assert forall|i: int| 0 <= i < c.len() implies s[p + 1 + i] == c[i] by {
        assert(w[1 + i] == c[i]);
        assert(s[p + (1 + i)] == w[1 + i]);
    }
    assert(s[p + 1 + c.len()] == '\'') by {
        assert(w[1 + c.len() as int] == '\'');
        assert(s[p + (1 + c.len() as int)] == w[1 + c.len() as int]);
    }
    lemma_lit_body_benign(s, p + 1, c);
    assert(lit_body(s, p + 1, s[p]) == Some((c, p + c.len() + 2)));
}

/// A rendered information entry re-reads as the entry it renders: after its
/// leading comma and separation, the one information item, ending after the
/// entry's text and the separation behind it.
pub proof fn lemma_entry_parses(s: Seq<char>, p: int, i: InfoModel)
    requires
        canonical_info(i),
        has_at(s, p, render_info_entry(i)),
    ensures
        p < s.len() && s[p] == ',',
        spec_info_item(s, skip_end(s, p + 1)) == RuleStep::Found(
            i,
            skip_end(s, p + render_info_entry(i).len()),
        ),
{
    let e = p + render_info_entry(i).len();
    match i {
        InfoModel::Version(t) => {
            reveal_strlit(", '");
            reveal_strlit("'");
            let a = ", '"@;
            let b = "'"@;
            assert(a.len() == 3 && a[0] == ',' && a[1] == ' ' && a[2] == '\'');
            assert(b.len() == 1 && b[0] == '\'');
            lemma_has_at_split(s, p, a + t, b);
            lemma_has_at_split(s, p, a, t);
            assert(s[p + 0] == a[0]);
            assert(s[p + 1] == a[1]);
            assert(s[p + 2] == a[2]);
            assert(s[p + a.len() + t.len() + 0] == b[0]);
            assert forall|x: int| p + 1 <= x < p + 2 implies is_whitespace(#[trigger] s[x])
                || is_eol_char(s[x]) by {
                assert(s[x] == ' ');
            }
            lemma_skip_run(s, p + 1, 1);
            assert(skip_end(s, p + 1) == p + 2);
            let w = seq!['\''] + t + seq!['\''];
            assert forall|j: int| 0 <= j < w.len() implies s[p + 2 + j] == w[j] by {
                if j == 0 {
                    assert(w[0] == '\'');
                } else if j <= t.len() {
                    assert(w[j] == t[j - 1]);
                    assert(s[p + 3 + (j - 1)] == t[j - 1]);
                } else {
                    assert(w[j] == '\'');
                    assert(s[p + 3 + t.len() + 0] == '\'');
                }
            }
            assert(has_at(s, p + 2, w));
            lemma_string_lit_quoted(s, p + 2, t);
            assert(spec_string_lit(s, p + 2) == Some((t, skip_end(s, e))));
            lemma_skip_end_bounds(s, e);
            lemma_skip_end_idem(s, e);
            assert(Constraint::spec_from_token(t) == Some(t));
            assert(spec_version_item(s, p + 2) == RuleStep::Found(
                InfoModel::Version(t),
                skip_end(s, e),
            ));
        },
        InfoModel::Info(k, v) => {
            reveal_strlit(",\n  ");
            reveal_strlit(":");
            reveal_strlit(" => '");
            reveal_strlit("'");
            let a = ",\n  "@;
            let c1 = ":"@;
            let c2 = " => '"@;
            let c3 = "'"@;
            assert(a.len() == 4 && a[0] == ',' && a[1] == '\n' && a[2] == ' ' && a[3] == ' ');
            assert(c1.len() == 1 && c1[0] == ':');
            assert(c2.len() == 5 && c2[0] == ' ' && c2[1] == '=' && c2[2] == '>' && c2[3] == ' '
                && c2[4] == '\'');
            assert(c3.len() == 1 && c3[0] == '\'');
            lemma_has_at_split(s, p, a, render_info(i));
            let q = p + 4;
            lemma_has_at_split(s, q, c1 + k + c2 + v, c3);
            lemma_has_at_split(s, q, c1 + k + c2, v);
            lemma_has_at_split(s, q, c1 + k, c2);
            lemma_has_at_split(s, q, c1, k);
            let kl = k.len() as int;
            let vl = v.len() as int;
            assert(s[p + 0] == a[0]);
            assert(s[p + 1] == a[1]);
            assert(s[p + 2] == a[2]);
            assert(s[p + 3] == a[3]);
            assert(s[q + 0] == c1[0]);
            assert(s[q + 1 + kl + 0] == c2[0]);
            assert(s[q + 1 + kl + 1] == c2[1]);
            assert(s[q + 1 + kl + 2] == c2[2]);
            assert(s[q + 1 + kl + 3] == c2[3]);
            assert(s[q + 1 + kl + 4] == c2[4]);
            assert(s[q + 6 + kl + vl + 0] == c3[0]);
            // the separation after the comma: a line break and two spaces
            assert forall|x: int| p + 1 <= x < p + 4 implies is_whitespace(#[trigger] s[x])
                || is_eol_char(s[x]) by {
                if x == p + 1 {
                    assert(s[x] == '\n');
                } else if x == p + 2 {
                    assert(s[x] == ' ');
                } else {
                    assert(s[x] == ' ');
                }
            }
            lemma_skip_run(s, p + 1, 3);
            assert(skip_end(s, p + 1) == q);
            // no version item here: a colon opens no string literal
            assert(spec_string_lit(s, q) is None);
            assert(spec_version_item(s, q) == RuleStep::<InfoModel>::Miss);
            // the symbol: the colon, then the key as an identifier
            assert(s[q + 1 + 0] == k[0]);
            assert(is_letter(s[q + 1]) || s[q + 1] == '_');
            assert forall|x: int| q + 2 <= x < q + 1 + kl implies is_letter(#[trigger] s[x])
                || is_digit(s[x]) || s[x] == '_' by {
                assert(s[q + 1 + (x - q - 1)] == k[x - q - 1]);
            }
            assert(!(is_letter(s[q + 1 + kl]) || is_digit(s[q + 1 + kl]) || s[q + 1 + kl] == '_'));
            lemma_ident_run(s, q + 2, q + 1 + kl);
            assert(s.subrange(q + 1, q + 1 + kl) =~= k);
            assert forall|x: int| q + 1 + kl <= x < q + 2 + kl implies is_whitespace(
                #[trigger] s[x],
            ) || is_eol_char(s[x]) by {
                assert(s[x] == ' ');
            }
            lemma_skip_run(s, q + 1 + kl, 1);
            assert(spec_identifier(s, q + 1) == Some((k, q + 2 + kl)));
            assert(spec_symbol(s, q) == Some((k, q + 2 + kl)));
            lemma_skip_end_idem(s, q + 1 + kl);
            assert(skip_end(s, q + 2 + kl) == q + 2 + kl);
            assert(at_arrow(s, q + 2 + kl));
            assert forall|x: int| q + 4 + kl <= x < q + 5 + kl implies is_whitespace(
                #[trigger] s[x],
            ) || is_eol_char(s[x]) by {
                assert(s[x] == ' ');
            }
            lemma_skip_run(s, q + 4 + kl, 1);
            assert(skip_end(s, q + 4 + kl) == q + 5 + kl);
            // the quoted value
            let w = seq!['\''] + v + seq!['\''];
            assert forall|j: int| 0 <= j < w.len() implies s[q + 5 + kl + j] == w[j] by {
                if j == 0 {
                    assert(w[0] == '\'');
                } else if j <= vl {
                    assert(w[j] == v[j - 1]);
                    assert(s[q + 6 + kl + (j - 1)] == v[j - 1]);
                } else {
                    assert(w[j] == '\'');
                    assert(s[q + 6 + kl + vl + 0] == '\'');
                }
            }
            assert(has_at(s, q + 5 + kl, w));
            lemma_string_lit_quoted(s, q + 5 + kl, v);
            assert(q + 5 + kl + vl + 2 == e);
            assert(spec_string_lit(s, q + 5 + kl) == Some((v, skip_end(s, e))));
            lemma_skip_end_bounds(s, e);
            lemma_skip_end_idem(s, e);
            assert(spec_info_hash(s, q) == RuleStep::Found(
                InfoModel::Info(k, v),
                skip_end(s, e),
            ));
        },
    }
}

/// A rendered list of entries re-reads as those entries: the comma-separated
/// repetition finds exactly them and stops at the next module or the end.
pub proof fn lemma_entries_parse(s: Seq<char>, p: int, is: Seq<InfoModel>)
    requires
        0 <= p <= s.len(),
        forall|j: int| 0 <= j < is.len() ==> canonical_info(#[trigger] is[j]),
        has_at(s, p, render_infos(is)),
        ({
            let t = skip_end(s, p + render_infos(is).len());
            t == s.len() || s[t] == 'm'
        }),
    ensures
        spec_info_tail(s, p) == RuleStep::Found(
            is,
            if is.len() == 0 {
                p
            } else {
                skip_end(s, p + render_infos(is).len())
            },
        ),
        is.len() > 0 ==> p < s.len() && s[p] == ',',
        is.len() > 0 ==> spec_info_list(s, skip_end(s, p + 1)) == RuleStep::Found(
            is,
            skip_end(s, p + render_infos(is).len()),
        ),
    decreases is.len(),
{
    let e = p + render_infos(is).len();
    lemma_skip_end_bounds(s, e);
    if is.len() == 0 {
        if p < s.len() && s[p] == ',' {
            lemma_skip_run(s, p, 0);
            assert(false);
        }
        assert(is =~= Seq::<InfoModel>::empty());
        assert(spec_info_tail(s, p) == RuleStep::Found(is, p));
    } else {
        let i0 = is[0];
        let rest = is.skip(1);
        assert(render_infos(is) == render_info_entry(i0) + render_infos(rest));
        lemma_has_at_split(s, p, render_info_entry(i0), render_infos(rest));
        assert forall|j: int| 0 <= j < rest.len() implies canonical_info(#[trigger] rest[j]) by {
            assert(rest[j] == is[j + 1]);
        }
        lemma_entry_parses(s, p, i0);
        let e1 = p + render_info_entry(i0).len();
        let p1 = skip_end(s, p + 1);
        let q1 = skip_end(s, e1);
        lemma_skip_end_bounds(s, e1);
        if rest.len() == 0 {
            assert(render_infos(rest) =~= Seq::<char>::empty());
            assert(e1 == e);
            assert(0 <= q1 <= s.len());
            if q1 < s.len() {
                assert(s[q1] == 'm');
            }
            assert(spec_info_tail(s, q1) == RuleStep::Found(Seq::<InfoModel>::empty(), q1));
            assert(seq![i0] + Seq::<InfoModel>::empty() =~= is);
            assert(spec_info_tail(s, p) == RuleStep::Found(is, q1));
            assert(spec_info_list(s, p1) == RuleStep::Found(is, q1));
        } else {
            lemma_entries_parse(s, e1, rest);
            assert(s[e1] == ',');
            lemma_skip_run(s, e1, 0);
            assert(q1 == e1);
            assert(e1 + render_infos(rest).len() == e);
            assert(spec_info_tail(s, q1) == RuleStep::Found(rest, skip_end(s, e)));
            assert(seq![i0] + rest =~= is);
            assert(spec_info_tail(s, p) == RuleStep::Found(is, skip_end(s, e)));
            assert(spec_info_list(s, p1) == RuleStep::Found(is, skip_end(s, e)));
        }
    }
}

/// A module's block opens with the letter of its keyword.
pub proof fn lemma_block_starts(m: ModuleModel)
    ensures
        render_module(m).len() >= 6,
        render_module(m)[0] == 'm',
{
    reveal_strlit("mod '");
    reveal_strlit("'");
    let h = "mod '"@;
    assert(h.len() == 5 && h[0] == 'm');
    assert(render_module(m)[0] == h[0]) by {
        assert((h + m.name)[0] == h[0]);
        assert((h + m.name + "'"@)[0] == (h + m.name)[0]);
        assert((h + m.name + "'"@ + render_infos(m.info))[0] == (h + m.name + "'"@)[0]);
    }
}

/// A rendered module block re-reads as the module it renders, ending after
/// the block and the separation behind it.
pub proof fn lemma_module_parses(s: Seq<char>, q: int, m: ModuleModel)
    requires
        canonical_module(m),
        has_at(s, q, render_module(m)),
        ({
            let t = skip_end(s, q + render_module(m).len());
            t == s.len() || s[t] == 'm'
        }),
    ensures
        spec_module(s, q) == RuleStep::Found(m, skip_end(s, q + render_module(m).len())),
{
    reveal_strlit("mod '");
    reveal_strlit("'");
    let h = "mod '"@;
    let c = "'"@;
    assert(h.len() == 5 && h[0] == 'm' && h[1] == 'o' && h[2] == 'd' && h[3] == ' ' && h[4]
        == '\'');
    assert(c.len() == 1 && c[0] == '\'');
    let name = m.name;
    let is = m.info;
    let n = name.len() as int;
    let e = q + render_module(m).len();
    lemma_has_at_split(s, q, h + name + c, render_infos(is));
    lemma_has_at_split(s, q, h + name, c);
    lemma_has_at_split(s, q, h, name);
    let e0 = q + 6 + n;
    assert(s[q + 0] == h[0]);
    assert(s[q + 1] == h[1]);
    assert(s[q + 2] == h[2]);
    assert(s[q + 3] == h[3]);
    assert(s[q + 4] == h[4]);
    assert(s[q + 5 + n + 0] == c[0]);
    assert(at_mod(s, q));
    assert forall|x: int| q + 3 <= x < q + 4 implies is_whitespace(#[trigger] s[x]) || is_eol_char(
        s[x],
    ) by {
        assert(s[x] == ' ');
    }
    lemma_skip_run(s, q + 3, 1);
    assert(skip_end(s, q + 3) == q + 4);
    let w = seq!['\''] + name + seq!['\''];
    assert forall|j: int| 0 <= j < w.len() implies s[q + 4 + j] == w[j] by {
        if j == 0 {
            assert(w[0] == '\'');
        } else if j <= n {
            assert(w[j] == name[j - 1]);
            assert(s[q + 5 + (j - 1)] == name[j - 1]);
        } else {
            assert(w[j] == '\'');
            assert(s[q + 5 + n + 0] == '\'');
        }
    }
    assert(has_at(s, q + 4, w));
    lemma_string_lit_quoted(s, q + 4, name);
    assert(spec_string_lit(s, q + 4) == Some((name, skip_end(s, e0))));
    lemma_skip_end_bounds(s, e0);
    lemma_skip_end_idem(s, e0);
    let p2 = skip_end(s, e0);
    if is.len() == 0 {
        assert(render_infos(is) =~= Seq::<char>::empty());
        assert(e0 == e);
        assert(0 <= p2 <= s.len());
        if p2 < s.len() {
            assert(s[p2] == 'm');
        }
        assert(spec_string_lit(s, p2) is None);
        assert(spec_version_item(s, p2) == RuleStep::<InfoModel>::Miss);
        assert(spec_symbol(s, p2) is None);
        assert(spec_info_hash(s, p2) == RuleStep::<InfoModel>::Miss);
        assert(spec_info_item(s, p2) == RuleStep::<InfoModel>::Miss);
        assert(spec_info_list(s, p2) == RuleStep::Found(Seq::<InfoModel>::empty(), p2));
        assert(ModuleModel { name, info: Seq::<InfoModel>::empty() } =~= m);
        assert(spec_module(s, q) == RuleStep::Found(m, p2));
    } else {
        lemma_entries_parse(s, e0, is);
        assert(s[e0] == ',');
        lemma_skip_run(s, e0, 0);
        assert(p2 == e0);
        lemma_skip_end_bounds(s, e);
        lemma_skip_end_idem(s, e);
        assert(spec_info_list(s, skip_end(s, e0 + 1)) == RuleStep::Found(is, skip_end(s, e)));
        assert(ModuleModel { name, info: is } =~= m);
        assert(spec_module(s, q) == RuleStep::Found(m, skip_end(s, e)));
    }
}

/// The rendered module blocks, standing last in the text, re-read as exactly
/// those modules, consuming the text to its end.
pub proof fn lemma_modules_parse(s: Seq<char>, p: int, ms: Seq<ModuleModel>)
    requires
        forall|j: int| 0 <= j < ms.len() ==> canonical_module(#[trigger] ms[j]),
        has_at(s, p, render_modules(ms)),
        p + render_modules(ms).len() == s.len(),
    ensures
        spec_modules(s, skip_end(s, p)) == RuleStep::Found(ms, s.len() as int),
    decreases ms.len(),
{
    reveal_strlit("\n");
    let nl = "\n"@;
    assert(nl.len() == 1 && nl[0] == '\n');
    if ms.len() == 0 {
        assert(p == s.len());
        assert(skip_end(s, p) == p);
        assert(spec_module(s, p) == RuleStep::<ModuleModel>::Miss);
        assert(ms =~= Seq::<ModuleModel>::empty());
        assert(spec_modules(s, p) == RuleStep::Found(ms, p));
    } else {
        let m0 = ms[0];
        let rest = ms.skip(1);
        assert(render_modules(ms) == nl + render_module(m0) + nl + render_modules(rest));
        lemma_has_at_split(s, p, nl + render_module(m0) + nl, render_modules(rest));
        lemma_has_at_split(s, p, nl + render_module(m0), nl);
        lemma_has_at_split(s, p, nl, render_module(m0));
        let b = p + 1;
        let eb = b + render_module(m0).len();
        let pr = eb + 1;
        lemma_block_starts(m0);
        assert(s[p + 0] == nl[0]);
        assert(s[b + 0] == render_module(m0)[0]);
        assert(s[b] == 'm');
        assert(s[eb + 0] == nl[0]);
        assert forall|x: int| p <= x < p + 1 implies is_whitespace(#[trigger] s[x]) || is_eol_char(
            s[x],
        ) by {
            assert(s[x] == '\n');
        }
        lemma_skip_run(s, p, 1);
        assert(skip_end(s, p) == b);
        lemma_skip_step(s, eb);
        if rest.len() == 0 {
            assert(render_modules(rest) =~= Seq::<char>::empty());
            assert(pr == s.len());
            assert(skip_end(s, pr) == pr);
        } else {
            assert(render_modules(rest) == nl + render_module(rest[0]) + nl + render_modules(
                rest.skip(1),
            ));
            lemma_block_starts(rest[0]);
            assert(s[pr + 0] == render_modules(rest)[0]);
            assert(s[pr + 1] == render_modules(rest)[1]);
            assert(render_modules(rest)[0] == nl[0]) by {
                assert((nl + render_module(rest[0]))[0] == nl[0]);
                assert((nl + render_module(rest[0]) + nl)[0] == (nl + render_module(rest[0]))[0]);
                assert((nl + render_module(rest[0]) + nl + render_modules(rest.skip(1)))[0] == (nl
                    + render_module(rest[0]) + nl)[0]);
            }
            assert(render_modules(rest)[1] == render_module(rest[0])[0]) by {
                assert((nl + render_module(rest[0]))[1] == render_module(rest[0])[0]);
                assert((nl + render_module(rest[0]) + nl)[1] == (nl + render_module(rest[0]))[1]);
                assert((nl + render_module(rest[0]) + nl + render_modules(rest.skip(1)))[1] == (nl
                    + render_module(rest[0]) + nl)[1]);
            }
            assert(s[pr] == '\n' && s[pr + 1] == 'm');
            assert forall|x: int| pr <= x < pr + 1 implies is_whitespace(#[trigger] s[x])
                || is_eol_char(s[x]) by {
                assert(s[x] == '\n');
            }
            lemma_skip_run(s, pr, 1);
        }
        lemma_module_parses(s, b, m0);
        assert(spec_module(s, b) == RuleStep::Found(m0, skip_end(s, eb)));
        assert forall|j: int| 0 <= j < rest.len() implies canonical_module(#[trigger] rest[j]) by {
            assert(rest[j] == ms[j + 1]);
        }
        lemma_modules_parse(s, pr, rest);
        assert(skip_end(s, eb) == skip_end(s, pr));
        assert(spec_modules(s, skip_end(s, eb)) == RuleStep::Found(rest, s.len() as int));
        assert(seq![m0] + rest =~= ms);
        assert(spec_modules(s, b) == RuleStep::Found(ms, s.len() as int));
    }
}

/// Round-trip stability: the canonical rendering of a canonical manifest
/// re-parses to exactly that manifest, so rendering, parsing and rendering
/// again give the same text.
pub proof fn lemma_parse_render_round_trip(m: ManifestModel)
    requires
        canonical_manifest(m),
    ensures
        spec_parse_manifest(render_manifest(m)) == ManifestOutcome::Parsed(m),
{
    reveal_strlit("forge '");
    reveal_strlit("'\n\n");
    let h = "forge '"@;
    let c = "'\n\n"@;
    assert(h.len() == 7 && h[0] == 'f' && h[1] == 'o' && h[2] == 'r' && h[3] == 'g' && h[4] == 'e'
        && h[5] == ' ' && h[6] == '\'');
    assert(c.len() == 3 && c[0] == '\'' && c[1] == '\n' && c[2] == '\n');
    let s = render_manifest(m);
    let f = m.forge;
    let fl = f.len() as int;
    assert(has_at(s, 0, s));
    assert(s == h + f + c + render_modules(m.modules));
    lemma_has_at_split(s, 0, h + f + c, render_modules(m.modules));
    lemma_has_at_split(s, 0, h + f, c);
    lemma_has_at_split(s, 0, h, f);
    let pm = 10 + fl;
    assert(s[0] == h[0]);
    assert(s[1] == h[1]);
    assert(s[2] == h[2]);
    assert(s[3] == h[3]);
    assert(s[4] == h[4]);
    assert(s[5] == h[5]);
    assert(s[6] == h[6]);
    assert(s[7 + fl + 0] == c[0]);
    assert(s[7 + fl + 1] == c[1]);
    assert(s[7 + fl + 2] == c[2]);
    lemma_skip_run(s, 0, 0);
    assert(skip_end(s, 0) == 0);
    assert(at_forge(s, 0));
    assert forall|x: int| 5 <= x < 6 implies is_whitespace(#[trigger] s[x]) || is_eol_char(s[x]) by {
        assert(s[x] == ' ');
    }
    lemma_skip_run(s, 5, 1);
    assert(skip_end(s, 5) == 6);
    let w = seq!['\''] + f + seq!['\''];
    assert forall|j: int| 0 <= j < w.len() implies s[6 + j] == w[j] by {
        if j == 0 {
            assert(w[0] == '\'');
        } else if j <= fl {
            assert(w[j] == f[j - 1]);
            assert(s[7 + (j - 1)] == f[j - 1]);
        } else {
            assert(w[j] == '\'');
            assert(s[7 + fl + 0] == '\'');
        }
    }
    assert(has_at(s, 6, w));
    lemma_string_lit_quoted(s, 6, f);
    assert(spec_string_lit(s, 6) == Some((f, skip_end(s, 8 + fl))));
    assert(s.len() == 10 + fl + render_modules(m.modules).len());
    lemma_skip_step(s, 8 + fl);
    lemma_skip_step(s, 9 + fl);
    assert(skip_end(s, 8 + fl) == skip_end(s, pm));
    lemma_modules_parse(s, pm, m.modules);
    lemma_skip_end_bounds(s, pm);
    lemma_skip_end_idem(s, pm);
    assert(spec_modules(s, skip_end(s, skip_end(s, 8 + fl))) == RuleStep::Found(
        m.modules,
        s.len() as int,
    ));
    assert(ManifestModel { forge: f, modules: m.modules } =~= m);
    assert(spec_parse_manifest(s) == ManifestOutcome::Parsed(m));
}

/// Round-trip stability, stated of a text: where a text parses to a
/// canonical manifest, re-parsing that manifest's rendering parses the same
/// way — rendering after one more parse-render round changes nothing.
pub proof fn lemma_round_trip_stable(text: Seq<char>, m: ManifestModel)
    requires
        spec_parse_manifest(text) == ManifestOutcome::Parsed(m),
        canonical_manifest(m),
    ensures
        spec_parse_manifest(render_manifest(m)) == spec_parse_manifest(text),
{
    lemma_parse_render_round_trip(m);
}

} // verus!

//! Canonical text rendering of a manifest: `forge '<url>'`, a blank line, and
//! one blank-line-separated block per module — the version entries inline,
//! quoted, and each key/value entry on its own indented line.
use vstd::prelude::*;
use vstd::string::{StringExecFns, StrSliceExecFns};
use crate::ast::{InfoModel, ModuleModel, ManifestModel, ModuleInfo, Module, Puppetfile};

verus! {

/// The text of one entry on its own: the constraint text, or `:key => 'value'`.
pub open spec fn render_info(i: InfoModel) -> Seq<char> {
    match i {
        InfoModel::Version(t) => t,
        InfoModel::Info(k, v) => ":"@ + k + " => '"@ + v + "'"@,
    }
}

/// The text an entry adds to its module's block: `, '<constraint>'` inline,
/// or the key/value entry on a new indented line.
pub open spec fn render_info_entry(i: InfoModel) -> Seq<char> {
    match i {
        InfoModel::Version(t) => ", '"@ + t + "'"@,
        InfoModel::Info(k, v) => ",\n  "@ + render_info(i),
    }
}

pub open spec fn render_infos(info: Seq<InfoModel>) -> Seq<char>
    decreases info.len(),
{
    if info.len() == 0 {
        Seq::empty()
    } else {
        render_info_entry(info[0]) + render_infos(info.skip(1))
    }
}

/// The block of one module.
pub open spec fn render_module(m: ModuleModel) -> Seq<char> {
    "mod '"@ + m.name + "'"@ + render_infos(m.info)
}

pub open spec fn render_modules(ms: Seq<ModuleModel>) -> Seq<char>
    decreases ms.len(),
{
    if ms.len() == 0 {
        Seq::empty()
    } else {
        "\n"@ + render_module(ms[0]) + "\n"@ + render_modules(ms.skip(1))
    }
}

/// The canonical text of a whole manifest.
pub open spec fn render_manifest(m: ManifestModel) -> Seq<char> {
    "forge '"@ + m.forge + "'\n\n"@ + render_modules(m.modules)
}

pub proof fn lemma_render_infos_concat(a: Seq<InfoModel>, b: Seq<InfoModel>)
    ensures
        render_infos(a + b) == render_infos(a) + render_infos(b),
    decreases a.len(),
{
    if a.len() == 0 {
        assert(a + b =~= b);
        assert(render_infos(a) + render_infos(b) =~= render_infos(b));
    } else {
        assert((a + b).skip(1) =~= a.skip(1) + b);
        lemma_render_infos_concat(a.skip(1), b);
        assert((a + b)[0] == a[0]);
        assert(render_info_entry(a[0]) + (render_infos(a.skip(1)) + render_infos(b)) =~= (
        render_info_entry(a[0]) + render_infos(a.skip(1))) + render_infos(b));
    }
}

pub proof fn lemma_render_infos_take(info: Seq<InfoModel>, i: int)
    requires
        0 <= i < info.len(),
    ensures
        render_infos(info.take(i + 1)) == render_infos(info.take(i)) + render_info_entry(info[i]),
{
    let x = info[i];
    assert(info.take(i + 1) =~= info.take(i) + seq![x]);
    lemma_render_infos_concat(info.take(i), seq![x]);
    assert(seq![x].skip(1) =~= Seq::<InfoModel>::empty());
    assert(render_infos(Seq::<InfoModel>::empty()) =~= Seq::<char>::empty());
    assert(render_infos(seq![x]) == render_info_entry(x) + render_infos(seq![x].skip(1)));
    assert(render_infos(seq![x]) =~= render_info_entry(x));
    assert(render_infos(info.take(i + 1)) =~= render_infos(info.take(i)) + render_info_entry(x));
}

pub proof fn lemma_render_modules_concat(a: Seq<ModuleModel>, b: Seq<ModuleModel>)
    ensures
        render_modules(a + b) == render_modules(a) + render_modules(b),
    decreases a.len(),
{
    if a.len() == 0 {
        assert(a + b =~= b);
        assert(render_modules(a) + render_modules(b) =~= render_modules(b));
    } else {
        assert((a + b).skip(1) =~= a.skip(1) + b);
        lemma_render_modules_concat(a.skip(1), b);
        assert((a + b)[0] == a[0]);
        assert("\n"@ + render_module(a[0]) + "\n"@ + (render_modules(a.skip(1)) + render_modules(b))
            =~= ("\n"@ + render_module(a[0]) + "\n"@ + render_modules(a.skip(1))) + render_modules(
            b,
        ));
    }
}

pub proof fn lemma_render_modules_take(ms: Seq<ModuleModel>, i: int)
    requires
        0 <= i < ms.len(),
    ensures
        render_modules(ms.take(i + 1)) == render_modules(ms.take(i)) + ("\n"@ + render_module(
            ms[i],
        ) + "\n"@),
{
    let x = ms[i];
    assert(ms.take(i + 1) =~= ms.take(i) + seq![x]);
    lemma_render_modules_concat(ms.take(i), seq![x]);
    assert(seq![x].skip(1) =~= Seq::<ModuleModel>::empty());
    assert(render_modules(Seq::<ModuleModel>::empty()) =~= Seq::<char>::empty());
    assert(render_modules(seq![x]) == "\n"@ + render_module(x) + "\n"@ + render_modules(
        seq![x].skip(1),
    ));
    assert(render_modules(seq![x]) =~= "\n"@ + render_module(x) + "\n"@);
    assert(render_modules(ms.take(i + 1)) =~= render_modules(ms.take(i)) + ("\n"@ + render_module(
        x,
    ) + "\n"@));
}

impl ModuleInfo {
    /// The canonical text of this entry on its own.
    pub fn to_text(&self) -> (r: String)
        ensures
            r@ == render_info(self@),
    {
        match self {
            ModuleInfo::Version(c) => String::from_str(c.as_text()),
            ModuleInfo::Info(k, v) => {
                let mut out = String::from_str(":");
                out.append(k.as_str());
                out.append(" => '");
                out.append(v.as_str());
                out.append("'");
                proof {
                    assert(out@ =~= render_info(self@));
                }
                out
            },
        }
    }
}

impl Module {
    /// The canonical block of this module.
    pub fn to_text(&self) -> (r: String)
        ensures
            r@ == render_module(self@),
    {
        let mut out = String::from_str("mod '");
        out.append(self.name.as_str());
        out.append("'");
        let ghost head = "mod '"@ + self.name@ + "'"@;
        let mut i: usize = 0;
        proof {
            assert(self@.info.take(0) =~= Seq::<InfoModel>::empty());
            assert(out@ =~= head + render_infos(self@.info.take(0)));
        }
        while i < self.info.len()
            invariant
                i <= self.info.len(),
                self@.info.len() == self.info.len(),
                head == "mod '"@ + self.name@ + "'"@,
                out@ == head + render_infos(self@.info.take(i as int)),
            decreases self.info.len() - i,
        {
            let ghost before = out@;
            match &self.info[i] {
                ModuleInfo::Version(c) => {
                    out.append(", '");
                    out.append(c.as_text());
                    out.append("'");
                    proof {
                        assert(out@ =~= before + render_info_entry(self@.info[i as int]));
                    }
                },
                ModuleInfo::Info(k, v) => {
                    out.append(",\n  ");
                    out.append(":");
                    out.append(k.as_str());
                    out.append(" => '");
                    out.append(v.as_str());
                    out.append("'");
                    proof {
                        assert(out@ =~= before + render_info_entry(self@.info[i as int]));
                    }
                },
            }
            proof {
                lemma_render_infos_take(self@.info, i as int);
                assert(out@ =~= head + render_infos(self@.info.take(i + 1)));
            }
            i = i + 1;
        }
        proof {
            assert(self@.info.take(self.info.len() as int) =~= self@.info);
        }
        out
    }
}

impl Puppetfile {
    /// The canonical text of the whole manifest.
    pub fn to_text(&self) -> (r: String)
        ensures
            r@ == render_manifest(self@),
    {
        let mut out = String::from_str("forge '");
        out.append(self.forge.as_str());
        out.append("'\n\n");
        let ghost head = "forge '"@ + self.forge@ + "'\n\n"@;
        let mut i: usize = 0;
        proof {
            assert(self@.modules.take(0) =~= Seq::<ModuleModel>::empty());
            assert(out@ =~= head + render_modules(self@.modules.take(0)));
        }
        while i < self.modules.len()
            invariant
                i <= self.modules.len(),
                self@.modules.len() == self.modules.len(),
                head == "forge '"@ + self.forge@ + "'\n\n"@,
                out@ == head + render_modules(self@.modules.take(i as int)),
            decreases self.modules.len() - i,
        {
            let ghost before = out@;
            out.append("\n");
            let block = self.modules[i].to_text();
            out.append(block.as_str());
            out.append("\n");
            proof {
                assert(out@ =~= before + ("\n"@ + render_module(self@.modules[i as int]) + "\n"@));
                lemma_render_modules_take(self@.modules, i as int);
                assert(out@ =~= head + render_modules(self@.modules.take(i + 1)));
            }
            i = i + 1;
        }
        proof {
            assert(self@.modules.take(self.modules.len() as int) =~= self@.modules);
        }
        out
    }
}

} // verus!

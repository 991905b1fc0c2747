//! The preprocessor: its configuration, and the two passes over a book's chapters.

use crate::env::{
    default_envs, emph_default_spec, env_insert, env_remove, has_key, key_pos, name_default_spec,
    Env, EnvEntryView, EnvMap,
};
use crate::labels::{diags_view, opt_view, Diagnostic, DiagnosticView, LabelInfoView, LabelRegistry};
use crate::refs::{find_and_replace_refs, resolve};
use crate::scan::{find_and_replace_envs, scan};
use vstd::prelude::*;

verus! {

/// One entry of the `environments` table of the configuration.
#[derive(Debug)]
pub struct EnvConfig {
    /// The kind's key, e.g. "thm".
    pub key: String,
    /// `Some(true)` removes the kind.
    pub ignore: Option<bool>,
    /// A display name to set.
    pub name: Option<String>,
    /// An emphasis delimiter to set.
    pub emph: Option<String>,
}

/// `(key, ignore, name, emph)`.
pub type EnvConfigView = (Seq<char>, Option<bool>, Option<Seq<char>>, Option<Seq<char>>);

impl View for EnvConfig {
    type V = EnvConfigView;

    open spec fn view(&self) -> EnvConfigView {
        (self.key@, self.ignore, opt_view(self.name), opt_view(self.emph))
    }
}

pub open spec fn or_default(o: Option<Seq<char>>, d: Seq<char>) -> Seq<char> {
    match o {
        Some(x) => x,
        None => d,
    }
}

/// The kinds after one configuration entry: removed where it says `ignore`,
/// else its name and emphasis set where given, on a kind that exists or on a new
/// one that takes the generic defaults for what is not given.
pub open spec fn apply_one(v: Seq<EnvEntryView>, c: EnvConfigView) -> Seq<EnvEntryView> {
    if c.1 == Some(true) {
        env_remove(v, c.0)
    } else if has_key(v, c.0) {
        let e = v[key_pos(v, c.0)];
        env_insert(v, c.0, (or_default(c.2, e.1), or_default(c.3, e.2)))
    } else {
        env_insert(v, c.0, (or_default(c.2, name_default_spec()), or_default(c.3, emph_default_spec())))
    }
}

/// The kinds after the configuration entries, in order.
pub open spec fn apply_config(v: Seq<EnvEntryView>, cs: Seq<EnvConfigView>) -> Seq<EnvEntryView>
    decreases cs.len(),
{
    if cs.len() == 0 {
        v
    } else {
        apply_one(apply_config(v, cs.drop_last()), cs.last())
    }
}

/// A chapter of the book: its text, its path (none for a draft), its section number.
#[derive(Debug)]
pub struct Chapter {
    pub content: String,
    pub path: Option<String>,
    pub number: Option<String>,
}

/// `(content, path, number)`.
pub type ChapterView = (Seq<char>, Option<Seq<char>>, Option<Seq<char>>);

impl View for Chapter {
    type V = ChapterView;

    open spec fn view(&self) -> ChapterView {
        (self.content@, opt_view(self.path), opt_view(self.number))
    }
}

pub open spec fn chapters_view(v: Seq<Chapter>) -> Seq<ChapterView> {
    v.map_values(|c: Chapter| c@)
}

/// The section prefix of a chapter: its number in prefix mode, else nothing.
pub open spec fn section_prefix(with_prefix: bool, number: Option<Seq<char>>) -> Seq<char> {
    if with_prefix {
        or_default(number, Seq::empty())
    } else {
        Seq::empty()
    }
}

/// The first pass over `chs`, in order: each chapter that is no draft scanned
/// with the registry that the chapters before it left.
pub open spec fn pass_one(
    chs: Seq<ChapterView>,
    envs: Seq<EnvEntryView>,
    with_prefix: bool,
    reg: Map<Seq<char>, LabelInfoView>,
) -> (Seq<ChapterView>, Map<Seq<char>, LabelInfoView>, Seq<DiagnosticView>)
    decreases chs.len(),
{
    if chs.len() == 0 {
        (Seq::empty(), reg, Seq::empty())
    } else {
        let r = pass_one(chs.drop_last(), envs, with_prefix, reg);
        let c = chs.last();
        match c.1 {
            None => (r.0.push(c), r.1, r.2),
            Some(path) => {
                let s = scan(c.0, envs, section_prefix(with_prefix, c.2), path, r.1);
                (r.0.push((s.0, c.1, c.2)), s.1, r.2 + s.2)
            },
        }
    }
}

/// The second pass over `chs`: the references of each chapter that is no
/// draft resolved against `reg`.
pub open spec fn pass_two(chs: Seq<ChapterView>, reg: Map<Seq<char>, LabelInfoView>) -> (
    Seq<ChapterView>,
    Seq<DiagnosticView>,
)
    decreases chs.len(),
{
    if chs.len() == 0 {
        (Seq::empty(), Seq::empty())
    } else {
        let r = pass_two(chs.drop_last(), reg);
        let c = chs.last();
        match c.1 {
            None => (r.0.push(c), r.1),
            Some(path) => {
                let s = resolve(c.0, path, reg);
                (r.0.push((s.0, c.1, c.2)), r.1 + s.1)
            },
        }
    }
}

/// A preprocessor that numbers theorems, lemmas, etc. and resolves references to them.
#[derive(Debug)]
pub struct NumThmPreprocessor {
    /// The environments handled by the preprocessor.
    environments: EnvMap,
    /// Whether numbers are prefixed by the section number.
    with_prefix: bool,
}

impl Default for NumThmPreprocessor {
    fn default() -> (r: NumThmPreprocessor)
        ensures
            r.envs() == default_envs(),
            !r.prefix_mode(),
    {
        NumThmPreprocessor { environments: EnvMap::default(), with_prefix: false }
    }
}

fn clone_opt(o: &Option<String>) -> (r: Option<String>)
    ensures
        opt_view(r) == opt_view(*o),
{
    match o {
        Some(s) => Some(s.clone()),
        None => None,
    }
}

impl NumThmPreprocessor {
    /// The configured kinds.
    pub closed spec fn envs(&self) -> Seq<EnvEntryView> {
        self.environments@
    }

    /// Whether numbers are prefixed by the section number.
    pub closed spec fn prefix_mode(&self) -> bool {
        self.with_prefix
    }

    /// The configured preprocessor: prefix mode where `prefix` says so (off by
    /// default), and the built-in kinds changed by `environments`, entry by entry.
    pub fn new(prefix: Option<bool>, environments: &Vec<EnvConfig>) -> (r: NumThmPreprocessor)
        ensures
            r.prefix_mode() == (prefix == Some(true)),
            r.envs() == apply_config(default_envs(), environments@.map_values(|c: EnvConfig| c@)),
    {
        let mut config = NumThmPreprocessor::default();
        if let Some(b) = prefix {
            config.with_prefix = b;
        }
        let ghost cs = environments@.map_values(|c: EnvConfig| c@);
        let mut k: usize = 0;
        while k < environments.len()
            invariant
                k <= environments.len(),
                cs == environments@.map_values(|c: EnvConfig| c@),
                config.with_prefix == (prefix == Some(true)),
                config.environments@ == apply_config(default_envs(), cs.subrange(0, k as int)),
            decreases environments.len() - k,
        {
            let c = &environments[k];
            assert(cs.subrange(0, k + 1).drop_last() =~= cs.subrange(0, k as int));
            assert(cs.subrange(0, k + 1).last() == c@);
            if c.ignore == Some(true) {
                config.environments.remove(c.key.as_str());
            } else {
                let env = match config.environments.get(c.key.as_str()) {
                    Some(e) => {
                        let name = match &c.name {
                            Some(v) => v.clone(),
                            None => e.name.clone(),
                        };
                        let emph = match &c.emph {
                            Some(v) => v.clone(),
                            None => e.emph.clone(),
                        };
                        Env { name, emph }
                    },
                    None => {
                        let name = match &c.name {
                            Some(v) => v.clone(),
                            None => Env::name_default(),
                        };
                        let emph = match &c.emph {
                            Some(v) => v.clone(),
                            None => Env::emph_default(),
                        };
                        Env { name, emph }
                    },
                };
                config.environments.insert(c.key.clone(), env);
            }
            k += 1;
        }
        assert(cs.subrange(0, environments.len() as int) =~= cs);
        config
    }

    /// Runs both passes over `chapters`, drafts left alone: first every
    /// chapter's declarations are numbered and their labels registered, then
    /// every chapter's references are resolved against the complete registry.
    pub fn run(&self, chapters: &mut Vec<Chapter>, diags: &mut Vec<Diagnostic>)
        ensures
            ({
                let one = pass_one(
                    chapters_view(old(chapters)@),
                    self.envs(),
                    self.prefix_mode(),
                    Map::empty(),
                );
                let two = pass_two(one.0, one.1);
                &&& chapters_view(final(chapters)@) == two.0
                &&& diags_view(final(diags)@) == diags_view(old(diags)@) + one.2 + two.1
            }),
    {
        let ghost start = chapters_view(chapters@);
        let mut refs = LabelRegistry::new();
        let mut k: usize = 0;
        while k < chapters.len()
            invariant
                k <= chapters.len(),
                start.len() == chapters.len(),
                chapters_view(chapters@).subrange(0, k as int) == pass_one(
                    start.subrange(0, k as int),
                    self.envs(),
                    self.prefix_mode(),
                    Map::empty(),
                ).0,
                forall|m: int| k <= m < start.len() ==> (#[trigger] chapters_view(chapters@)[m]) == start[m],
                refs@ == pass_one(start.subrange(0, k as int), self.envs(), self.prefix_mode(), Map::empty()).1,
                diags_view(diags@) == diags_view(old(diags)@) + pass_one(
                    start.subrange(0, k as int),
                    self.envs(),
                    self.prefix_mode(),
                    Map::empty(),
                ).2,
            decreases chapters.len() - k,
        {
            let ghost before = chapters_view(chapters@);
            let ghost vb = chapters@;
            let ghost d0 = diags@;
            assert(start.subrange(0, k + 1).drop_last() =~= start.subrange(0, k as int));
            assert(start.subrange(0, k + 1).last() == start[k as int]);
            assert(before[k as int] == start[k as int]);
            if let Some(path) = &chapters[k].path {
                let prefix = if self.with_prefix {
                    match &chapters[k].number {
                        Some(n) => n.clone(),
                        None => String::new(),
                    }
                } else {
                    String::new()
                };
                let content = find_and_replace_envs(
                    chapters[k].content.as_str(),
                    prefix.as_str(),
                    path.as_str(),
                    &self.environments,
                    &mut refs,
                    diags,
                );
                let ch = Chapter {
                    content,
                    path: clone_opt(&chapters[k].path),
                    number: clone_opt(&chapters[k].number),
                };
                chapters.set(k, ch);
                assert(diags_view(diags@) =~= diags_view(old(diags)@) + pass_one(
                    start.subrange(0, k + 1),
                    self.envs(),
                    self.prefix_mode(),
                    Map::empty(),
                ).2);
            }
            assert forall|m: int| k < m < start.len() implies (#[trigger] chapters_view(chapters@)[m]) == before[m] by {
                assert(chapters@[m] == vb[m]);
            }
            assert(chapters_view(chapters@).subrange(0, k + 1) =~= pass_one(
                start.subrange(0, k + 1),
                self.envs(),
                self.prefix_mode(),
                Map::empty(),
            ).0);
            k += 1;
        }
        assert(start.subrange(0, chapters.len() as int) =~= start);
        assert(chapters_view(chapters@).subrange(0, chapters.len() as int) =~= chapters_view(chapters@));
        let ghost mid = chapters_view(chapters@);
        let ghost d1 = diags@;
        let mut k: usize = 0;
        while k < chapters.len()
            invariant
                k <= chapters.len(),
                mid.len() == chapters.len(),
                chapters_view(chapters@).subrange(0, k as int) == pass_two(mid.subrange(0, k as int), refs@).0,
                forall|m: int| k <= m < mid.len() ==> (#[trigger] chapters_view(chapters@)[m]) == mid[m],
                diags_view(diags@) == diags_view(d1) + pass_two(mid.subrange(0, k as int), refs@).1,
            decreases chapters.len() - k,
        {
            let ghost before = chapters_view(chapters@);
            let ghost vb = chapters@;
            assert(mid.subrange(0, k + 1).drop_last() =~= mid.subrange(0, k as int));
            assert(mid.subrange(0, k + 1).last() == mid[k as int]);
            assert(before[k as int] == mid[k as int]);
            if let Some(path) = &chapters[k].path {
                let content = find_and_replace_refs(
                    chapters[k].content.as_str(),
                    path.as_str(),
                    &refs,
                    diags,
                );
                let ch = Chapter {
                    content,
                    path: clone_opt(&chapters[k].path),
                    number: clone_opt(&chapters[k].number),
                };
                chapters.set(k, ch);
                assert(diags_view(diags@) =~= diags_view(d1) + pass_two(mid.subrange(0, k + 1), refs@).1);
            }
            assert forall|m: int| k < m < mid.len() implies (#[trigger] chapters_view(chapters@)[m]) == before[m] by {
                assert(chapters@[m] == vb[m]);
            }
            assert(chapters_view(chapters@).subrange(0, k + 1) =~= pass_two(mid.subrange(0, k + 1), refs@).0);
            k += 1;
        }
        assert(mid.subrange(0, chapters.len() as int) =~= mid);
        assert(chapters_view(chapters@).subrange(0, chapters.len() as int) =~= chapters_view(chapters@));
    }
}

} // verus!

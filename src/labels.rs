//! The label registry: what a labelled environment is called and where it stands.

use vstd::prelude::*;

verus! {

/// `(numbered name, path of the declaring chapter, title)`.
pub type LabelInfoView = (Seq<char>, Seq<char>, Option<Seq<char>>);

pub open spec fn opt_view(o: Option<String>) -> Option<Seq<char>> {
    match o {
        Some(s) => Some(s@),
        None => None,
    }
}

/// The information needed to format a link to one labelled environment.
#[derive(Debug, PartialEq, Eq)]
pub struct LabelInfo {
    /// The numbered name, e.g. "Theorem 1.2.1".
    pub num_name: String,
    /// The path of the chapter that declares the environment.
    pub path: String,
    /// An optional title.
    pub title: Option<String>,
}

impl View for LabelInfo {
    type V = LabelInfoView;

    open spec fn view(&self) -> LabelInfoView {
        (self.num_name@, self.path@, opt_view(self.title))
    }
}

/// A warning met while rewriting; the text is still rewritten.
#[derive(Debug, PartialEq, Eq)]
pub enum Diagnostic {
    /// A declaration reused `label`; the one rendered as `num_name` was not registered.
    DuplicateLabel { label: String, num_name: String },
    /// A reference named `label`, which no declaration registered.
    UnknownReference { label: String },
}

/// What a diagnostic says, over character sequences.
pub enum DiagnosticView {
    DuplicateLabel(Seq<char>, Seq<char>),
    UnknownReference(Seq<char>),
}

impl View for Diagnostic {
    type V = DiagnosticView;

    open spec fn view(&self) -> DiagnosticView {
        match self {
            Diagnostic::DuplicateLabel { label, num_name } => DiagnosticView::DuplicateLabel(
                label@,
                num_name@,
            ),
            Diagnostic::UnknownReference { label } => DiagnosticView::UnknownReference(label@),
        }
    }
}

pub open spec fn diags_view(v: Seq<Diagnostic>) -> Seq<DiagnosticView> {
    v.map_values(|d: Diagnostic| d@)
}

pub open spec fn entries_view(v: Seq<(String, LabelInfo)>) -> Seq<(Seq<char>, LabelInfoView)> {
    v.map_values(|e: (String, LabelInfo)| (e.0@, e.1@))
}

/// The map that a list of insertions builds, later ones on top.
pub open spec fn entries_map(s: Seq<(Seq<char>, LabelInfoView)>) -> Map<Seq<char>, LabelInfoView>
    decreases s.len(),
{
    if s.len() == 0 {
        Map::empty()
    } else {
        entries_map(s.drop_last()).insert(s.last().0, s.last().1)
    }
}

proof fn lemma_entries_map_at(s: Seq<(Seq<char>, LabelInfoView)>, l: Seq<char>, j: int)
    requires
        -1 <= j < s.len(),
        j >= 0 ==> s[j].0 == l,
        forall|m: int| j < m < s.len() ==> (#[trigger] s[m]).0 != l,
    ensures
        j >= 0 ==> entries_map(s).contains_key(l) && entries_map(s)[l] == s[j].1,
        j < 0 ==> !entries_map(s).contains_key(l),
    decreases s.len(),
{
    if s.len() > 0 {
        if j == s.len() - 1 {
        } else {
            let t = s.drop_last();
            assert forall|m: int| j < m < t.len() implies (#[trigger] t[m]).0 != l by {
                assert(t[m] == s[m]);
            }
            if j >= 0 {
                assert(t[j] == s[j]);
            }
            lemma_entries_map_at(t, l, j);
            assert(s.last() == s[s.len() - 1]);
        }
    }
}

/// No label occurs twice.
pub open spec fn distinct_labels(s: Seq<(Seq<char>, LabelInfoView)>) -> bool {
    forall|a: int, b: int| 0 <= a < b < s.len() ==> (#[trigger] s[a]).0 != (#[trigger] s[b]).0
}

proof fn lemma_distinct_len(s: Seq<(Seq<char>, LabelInfoView)>)
    requires
        distinct_labels(s),
    ensures
        entries_map(s).dom().finite(),
        entries_map(s).dom().len() == s.len(),
    decreases s.len(),
{
    if s.len() > 0 {
        let t = s.drop_last();
        assert forall|a: int, b: int| 0 <= a < b < t.len() implies (#[trigger] t[a]).0 != (
        #[trigger] t[b]).0 by {
            assert(t[a] == s[a] && t[b] == s[b]);
        }
        lemma_distinct_len(t);
        assert forall|m: int| -1 < m < t.len() implies (#[trigger] t[m]).0 != s.last().0 by {
            assert(t[m] == s[m]);
        }
        lemma_entries_map_at(t, s.last().0, -1);
    }
}

/// Labels and what they name, first declaration kept.
#[derive(Debug)]
pub struct LabelRegistry {
    entries: Vec<(String, LabelInfo)>,
}

impl LabelRegistry {
    #[verifier::type_invariant]
    spec fn inv(&self) -> bool {
        distinct_labels(entries_view(self.entries@))
    }
}

impl View for LabelRegistry {
    type V = Map<Seq<char>, LabelInfoView>;

    closed spec fn view(&self) -> Map<Seq<char>, LabelInfoView> {
        entries_map(entries_view(self.entries@))
    }
}

impl LabelRegistry {
    pub fn new() -> (r: LabelRegistry)
        ensures
            r@ == Map::<Seq<char>, LabelInfoView>::empty(),
    {
        let r = LabelRegistry { entries: Vec::new() };
        assert(entries_view(r.entries@) =~= Seq::empty());
        r
    }

    /// The number of labels.
    pub fn len(&self) -> (r: usize)
        ensures
            r == self@.dom().len(),
    {
        proof {
            use_type_invariant(self);
            lemma_distinct_len(entries_view(self.entries@));
        }
        self.entries.len()
    }

    pub fn is_empty(&self) -> (r: bool)
        ensures
            r == (self@.dom().len() == 0),
    {
        self.len() == 0
    }

    /// Where `label` was last inserted, or -1.
    fn find(&self, label: &String) -> (r: Option<usize>)
        ensures
            r is None ==> !self@.contains_key(label@) && forall|m: int|
                0 <= m < self.entries@.len() ==> (#[trigger] self.entries@[m]).0@ != label@,
            r matches Some(i) ==> i < self.entries@.len() && self@.contains_key(label@)
                && self@[label@] == self.entries@[i as int].1@,
    {
        let ghost s = entries_view(self.entries@);
        let mut i: usize = self.entries.len();
        while i > 0
            invariant
                i <= self.entries.len(),
                s == entries_view(self.entries@),
                forall|m: int| i <= m < s.len() ==> (#[trigger] s[m]).0 != label@,
            decreases i,
        {
            if self.entries[i - 1].0 == *label {
                proof { lemma_entries_map_at(s, label@, i - 1); }
                return Some(i - 1);
            }
            i -= 1;
        }
        proof {
            lemma_entries_map_at(s, label@, -1);
            assert forall|m: int| 0 <= m < self.entries@.len() implies (#[trigger] self.entries@[m]).0@ != label@ by {
                assert(s[m].0 == self.entries@[m].0@);
            }
        }
        None
    }

    /// Whether `label` is registered.
    pub fn contains_key(&self, label: &String) -> (r: bool)
        ensures
            r == self@.contains_key(label@),
    {
        self.find(label).is_some()
    }

    /// What `label` names, if registered.
    pub fn get(&self, label: &str) -> (r: Option<&LabelInfo>)
        ensures
            r is None <==> !self@.contains_key(label@),
            r matches Some(info) ==> self@[label@] == info@,
    {
        let l = label.to_owned();
        match self.find(&l) {
            Some(i) => Some(&self.entries[i].1),
            None => None,
        }
    }

    /// Registers `label` unless it is already there; says whether it did.
    pub fn insert(&mut self, label: String, info: LabelInfo) -> (r: bool)
        ensures
            r == !old(self)@.contains_key(label@),
            r ==> final(self)@ == old(self)@.insert(label@, info@),
            !r ==> final(self)@ == old(self)@,
    {
        proof { use_type_invariant(&*self); }
        if self.find(&label).is_some() {
            false
        } else {
            let ghost l = label@;
            let ghost v = info@;
            let mut taken = LabelRegistry { entries: Vec::new() };
            std::mem::swap(self, &mut taken);
            let LabelRegistry { mut entries } = taken;
            entries.push((label, info));
            assert(entries_view(entries@) =~= entries_view(old(self).entries@).push((l, v)));
            assert(entries_view(entries@).drop_last() =~= entries_view(old(self).entries@));
            proof {
                let t = entries_view(entries@);
                assert forall|a: int, b: int| 0 <= a < b < t.len() implies (#[trigger] t[a]).0 != (
                #[trigger] t[b]).0 by {
                    if b == t.len() - 1 {
                        assert(t[a].0 == old(self).entries@[a].0@);
                    } else {
                        assert(t[a] == entries_view(old(self).entries@)[a]);
                        assert(t[b] == entries_view(old(self).entries@)[b]);
                    }
                }
            }
            *self = LabelRegistry { entries };
            true
        }
    }
}

} // verus!

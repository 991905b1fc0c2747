//! The second pass: rewriting references into links.

use crate::grammar::{
    find_double_close, find_double_close_exec, has_at, lemma_find_double_close, matches_at,
    slice_chars,
};
use crate::labels::{diags_view, opt_view, Diagnostic, DiagnosticView, LabelInfoView, LabelRegistry};
use crate::text::{append, chars_of, string_of};
use vstd::prelude::*;

verus! {

/// The relative path that `pathdiff::diff_paths` gives from directory `base` to `path`,
/// where there is one.
pub uninterp spec fn path_diff(path: Seq<char>, base: Seq<char>) -> Option<Seq<char>>;

/// Relies on `pathdiff::diff_paths`: a function of its two paths alone, shown
/// with the platform's separator.
#[verifier::external_body]
fn diff_paths(path: &str, base: &str) -> (r: Option<String>)
    ensures
        opt_view(r) == path_diff(path@, base@),
{
    pathdiff::diff_paths(path, base).map(|p| p.display().to_string())
}

/// `p` without the separators at its end.
pub open spec fn trim_end_slashes(p: Seq<char>) -> Seq<char>
    decreases p.len(),
{
    if p.len() > 0 && p.last() == '/' {
        trim_end_slashes(p.drop_last())
    } else {
        p
    }
}

/// What comes before the last separator of `p`; empty where there is none.
pub open spec fn before_last_slash(p: Seq<char>) -> Seq<char>
    decreases p.len(),
{
    if p.len() == 0 {
        p
    } else if p.last() == '/' {
        p.drop_last()
    } else {
        before_last_slash(p.drop_last())
    }
}

/// The directory that holds the file at `p`: its final segment dropped.
pub open spec fn parent_dir(p: Seq<char>) -> Seq<char> {
    before_last_slash(trim_end_slashes(p))
}

/// The link target from the chapter at `from` to the chapter at `to`: empty
/// for the same chapter, else the relative path from the directory of `from`,
/// and `to` itself where no relative path exists.
pub open spec fn rel_path(from: Seq<char>, to: Seq<char>) -> Seq<char> {
    if from == to {
        Seq::empty()
    } else {
        match path_diff(to, parent_dir(from)) {
            Some(p) => p,
            None => to,
        }
    }
}

fn parent_dir_exec(p: &Vec<char>) -> (r: Vec<char>)
    ensures
        r@ == parent_dir(p@),
{
    let mut n: usize = p.len();
    assert(p@.subrange(0, n as int) =~= p@);
    while n > 0 && p[n - 1] == '/'
        invariant
            n <= p.len(),
            trim_end_slashes(p@) == trim_end_slashes(p@.subrange(0, n as int)),
        decreases n,
    {
        assert(p@.subrange(0, n as int).drop_last() =~= p@.subrange(0, n - 1));
        n -= 1;
    }
    assert(trim_end_slashes(p@.subrange(0, n as int)) == p@.subrange(0, n as int));
    let ghost q = p@.subrange(0, n as int);
    assert(q.subrange(0, n as int) =~= q);
    while n > 0 && p[n - 1] != '/'
        invariant
            n <= q.len(),
            q == trim_end_slashes(p@),
            q.len() <= p.len(),
            forall|m: int| 0 <= m < q.len() ==> q[m] == p@[m],
            before_last_slash(q) == before_last_slash(q.subrange(0, n as int)),
        decreases n,
    {
        assert(q.subrange(0, n as int).drop_last() =~= q.subrange(0, n - 1));
        n -= 1;
    }
    if n > 0 {
        assert(q.subrange(0, n as int).drop_last() =~= q.subrange(0, n - 1));
        assert(p@.subrange(0, n - 1) =~= q.subrange(0, n - 1));
        slice_chars(p, 0, n - 1)
    } else {
        assert(q.subrange(0, 0) =~= Seq::<char>::empty());
        Vec::new()
    }
}

/// Computes the link target from the chapter at `chap_path` to the one at
/// `path_to_ref`: empty when they are the same, else the relative path from the
/// folder that holds `chap_path`.
pub fn compute_rel_path(chap_path: &str, path_to_ref: &str) -> (r: String)
    ensures
        r@ == rel_path(chap_path@, path_to_ref@),
{
    let from = chars_of(chap_path);
    let to = chars_of(path_to_ref);
    if from.len() == to.len() && matches_at(&from, 0, &to) {
        assert(from@.subrange(0, to.len() as int) =~= from@);
        return string_of(&Vec::new());
    }
    proof {
        if from@ == to@ {
            assert(from@.subrange(0, to.len() as int) =~= from@);
        }
    }
    let base = string_of(&parent_dir_exec(&from));
    match diff_paths(path_to_ref, base.as_str()) {
        Some(p) => p,
        None => path_to_ref.to_owned(),
    }
}

/// The whitespace that may follow the colon of a reference: Unicode `White_Space`.
pub open spec fn is_space(c: char) -> bool {
    let u = c as u32;
    (0x9 <= u <= 0xD) || u == 0x20 || u == 0x85 || u == 0xA0 || u == 0x1680 || (0x2000 <= u
        <= 0x200A) || u == 0x2028 || u == 0x2029 || u == 0x202F || u == 0x205F || u == 0x3000
}

fn is_space_exec(c: char) -> (r: bool)
    ensures
        r == is_space(c),
{
    let u = c as u32;
    (0x9 <= u && u <= 0xD) || u == 0x20 || u == 0x85 || u == 0xA0 || u == 0x1680 || (0x2000 <= u
        && u <= 0x200A) || u == 0x2028 || u == 0x2029 || u == 0x202F || u == 0x205F || u == 0x3000
}

/// The first index from `k` on that is not whitespace.
pub open spec fn skip_space(t: Seq<char>, k: int) -> int
    decreases t.len() - k,
{
    if 0 <= k < t.len() && is_space(t[k]) {
        skip_space(t, k + 1)
    } else {
        k
    }
}

pub open spec fn ref_open() -> Seq<char> {
    seq!['{', '{', 'r', 'e', 'f', ':']
}

pub open spec fn tref_open() -> Seq<char> {
    seq!['{', '{', 't', 'r', 'e', 'f', ':']
}

/// A reference found in the text: whether it asks for the title, its label,
/// and where it ends.
pub struct RefMatch {
    pub title_ref: bool,
    pub label: Seq<char>,
    pub end: int,
}

/// The reference `{{ref: label}}` or `{{tref: label}}` that starts at `i`.
pub open spec fn ref_at(t: Seq<char>, i: int) -> Option<RefMatch> {
    if has_at(t, i, ref_open()) || has_at(t, i, tref_open()) {
        let title_ref = !has_at(t, i, ref_open());
        let q = skip_space(t, if title_ref { i + 7 } else { i + 6 });
        let c = find_double_close(t, q);
        if c < 0 {
            None
        } else {
            Some(RefMatch { title_ref, label: t.subrange(q, c), end: c + 2 })
        }
    } else {
        None
    }
}

/// `**[??]**`.
pub open spec fn unresolved() -> Seq<char> {
    seq!['*', '*', '[', '?', '?', ']', '*', '*']
}

/// The text of a link to `info`: for a title reference the title where there is one.
pub open spec fn link_text(title_ref: bool, info: LabelInfoView) -> Seq<char> {
    if title_ref {
        match info.2 {
            Some(tt) => tt,
            None => info.0,
        }
    } else {
        info.0
    }
}

/// `[text](target#label)`.
pub open spec fn link(text: Seq<char>, target: Seq<char>, label: Seq<char>) -> Seq<char> {
    seq!['['] + text + seq![']', '('] + target + seq!['#'] + label + seq![')']
}

/// What one reference becomes, from the chapter at `from`, and its diagnostics.
pub open spec fn render_ref(m: RefMatch, from: Seq<char>, reg: Map<Seq<char>, LabelInfoView>) -> (
    Seq<char>,
    Seq<DiagnosticView>,
) {
    if reg.contains_key(m.label) {
        let info = reg[m.label];
        (link(link_text(m.title_ref, info), rel_path(from, info.1), m.label), Seq::empty())
    } else {
        (unresolved(), seq![DiagnosticView::UnknownReference(m.label)])
    }
}

/// Rewriting the references of `t` from `i` on.
pub open spec fn resolve_from(t: Seq<char>, i: int, from: Seq<char>, reg: Map<
    Seq<char>,
    LabelInfoView,
>) -> (Seq<char>, Seq<DiagnosticView>)
    decreases t.len() - i,
{
    if i < 0 || i >= t.len() {
        (Seq::empty(), Seq::empty())
    } else {
        match ref_at(t, i) {
            None => {
                let r = resolve_from(t, i + 1, from, reg);
                (seq![t[i]] + r.0, r.1)
            },
            Some(m) => {
                if !(i < m.end <= t.len()) {
                    (Seq::empty(), Seq::empty())
                } else {
                    let s = render_ref(m, from, reg);
                    let r = resolve_from(t, m.end, from, reg);
                    (s.0 + r.0, s.1 + r.1)
                }
            },
        }
    }
}

/// Rewriting all references of a chapter text.
pub open spec fn resolve(t: Seq<char>, from: Seq<char>, reg: Map<Seq<char>, LabelInfoView>) -> (
    Seq<char>,
    Seq<DiagnosticView>,
) {
    resolve_from(t, 0, from, reg)
}

struct RefSpan {
    title_ref: bool,
    label: (usize, usize),
    end: usize,
}

fn ref_at_exec(t: &Vec<char>, i: usize, ref_w: &Vec<char>, tref_w: &Vec<char>) -> (r: Option<RefSpan>)
    requires
        i < t.len(),
        ref_w@ == ref_open(),
        tref_w@ == tref_open(),
    ensures
        r is None <==> ref_at(t@, i as int) is None,
        r matches Some(sp) ==> ({
            let m = ref_at(t@, i as int)->0;
            &&& sp.title_ref == m.title_ref
            &&& sp.label.0 <= sp.label.1 <= t.len()
            &&& m.label == t@.subrange(sp.label.0 as int, sp.label.1 as int)
            &&& sp.end == m.end
            &&& i < sp.end <= t.len()
        }),
{
    let is_ref = matches_at(t, i, ref_w);
    let is_tref = matches_at(t, i, tref_w);
    if !is_ref && !is_tref {
        return None;
    }
    let mut q: usize = if is_ref { i + 6 } else { i + 7 };
    let ghost q0 = q as int;
    while q < t.len() && is_space_exec(t[q])
        invariant
            q0 <= q <= t.len(),
            skip_space(t@, q0) == skip_space(t@, q as int),
        decreases t.len() - q,
    {
        q += 1;
    }
    match find_double_close_exec(t, q) {
        Some(c) => {
            proof { lemma_find_double_close(t@, q as int); }
            Some(RefSpan { title_ref: !is_ref, label: (q, c), end: c + 2 })
        },
        None => None,
    }
}

/// Renders the reference located by `sp`.
fn render_ref_exec(
    t: &Vec<char>,
    sp: &RefSpan,
    m: Ghost<RefMatch>,
    chap_path: &str,
    refs: &LabelRegistry,
    diags: &mut Vec<Diagnostic>,
) -> (piece: Vec<char>)
    requires
        sp.label.0 <= sp.label.1 <= t.len(),
        m@.label == t@.subrange(sp.label.0 as int, sp.label.1 as int),
        m@.title_ref == sp.title_ref,
    ensures
        piece@ == render_ref(m@, chap_path@, refs@).0,
        diags_view(final(diags)@) == diags_view(old(diags)@) + render_ref(m@, chap_path@, refs@).1,
{
    let label = slice_chars(t, sp.label.0, sp.label.1);
    let lstr = string_of(&label);
    let mut piece: Vec<char> = Vec::new();
    match refs.get(lstr.as_str()) {
        Some(info) => {
            let text = if sp.title_ref {
                match &info.title {
                    Some(tt) => tt,
                    None => &info.num_name,
                }
            } else {
                &info.num_name
            };
            let rel = compute_rel_path(chap_path, info.path.as_str());
            piece.push('[');
            append(&mut piece, &chars_of(text.as_str()));
            append(&mut piece, &vec![']', '(']);
            append(&mut piece, &chars_of(rel.as_str()));
            piece.push('#');
            append(&mut piece, &label);
            piece.push(')');
            assert(piece@ =~= render_ref(m@, chap_path@, refs@).0);
        },
        None => {
            diags.push(Diagnostic::UnknownReference { label: lstr });
            append(&mut piece, &vec!['*', '*', '[', '?', '?', ']', '*', '*']);
            assert(piece@ =~= render_ref(m@, chap_path@, refs@).0);
        },
    }
    assert(diags_view(diags@) =~= diags_view(old(diags)@) + render_ref(m@, chap_path@, refs@).1);
    piece
}

/// Rewrites each reference `{{ref: label}}` or `{{tref: label}}` of the chapter
/// text `s`, the chapter being at `chap_path`, into a link to the labelled
/// environment; a label that `refs` lacks becomes `**[??]**` and is reported in
/// `diags`.
pub fn find_and_replace_refs(
    s: &str,
    chap_path: &str,
    refs: &LabelRegistry,
    diags: &mut Vec<Diagnostic>,
) -> (r: String)
    ensures
        r@ == resolve(s@, chap_path@, refs@).0,
        diags_view(final(diags)@) == diags_view(old(diags)@) + resolve(s@, chap_path@, refs@).1,
{
    let t = chars_of(s);
    let ref_w = vec!['{', '{', 'r', 'e', 'f', ':'];
    let tref_w = vec!['{', '{', 't', 'r', 'e', 'f', ':'];
    let ghost total = resolve(s@, chap_path@, refs@);
    let mut out: Vec<char> = Vec::new();
    let mut i: usize = 0;
    while i < t.len()
        invariant
            i <= t.len(),
            t@ == s@,
            ref_w@ == ref_open(),
            tref_w@ == tref_open(),
            total == resolve(s@, chap_path@, refs@),
            ({
                let cur = resolve_from(t@, i as int, chap_path@, refs@);
                &&& out@ + cur.0 == total.0
                &&& diags_view(diags@) + cur.1 == diags_view(old(diags)@) + total.1
            }),
        decreases t.len() - i,
    {
        let ghost cur = resolve_from(t@, i as int, chap_path@, refs@);
        let ghost out0 = out@;
        let ghost diags0 = diags@;
        match ref_at_exec(&t, i, &ref_w, &tref_w) {
            None => {
                let c = t[i];
                let ghost rest = resolve_from(t@, i + 1, chap_path@, refs@);
                out.push(c);
                assert(out@ + rest.0 =~= out0 + (seq![c] + rest.0));
                i += 1;
            },
            Some(sp) => {
                let ghost m = ref_at(t@, i as int)->0;
                let piece = render_ref_exec(&t, &sp, Ghost(m), chap_path, refs, diags);
                append(&mut out, &piece);
                i = sp.end;
                proof {
                    let rest = resolve_from(t@, i as int, chap_path@, refs@);
                    assert(out@ + rest.0 =~= out0 + (piece@ + rest.0));
                    assert(diags_view(diags@) + rest.1 =~= diags_view(diags0) + (render_ref(m, chap_path@, refs@).1 + rest.1));
                }
            },
        }
    }
    string_of(&out)
}

} // verus!

//! The first pass: numbering declarations and registering their labels.

use crate::env::{EnvEntryView, EnvMap};
use crate::grammar::{
    find_close, find_close_exec, has_at, lemma_find_close, matches_at, slice_chars,
};
use crate::labels::{
    diags_view, Diagnostic, DiagnosticView, LabelInfo, LabelInfoView, LabelRegistry,
};
use crate::text::{append, chars_of, decimal, decimal_chars, string_of};
use vstd::prelude::*;

verus! {

/// `{{key}}`.
pub open spec fn marker(k: Seq<char>) -> Seq<char> {
    seq!['{', '{'] + k + seq!['}', '}']
}

pub open spec fn keys_of(envs: Seq<EnvEntryView>) -> Seq<Seq<char>> {
    envs.map_values(|e: EnvEntryView| e.0)
}

/// The first kind from `j` on whose marker stands at `i`; `keys.len()` if none.
pub open spec fn first_key(t: Seq<char>, i: int, keys: Seq<Seq<char>>, j: int) -> int
    decreases keys.len() - j,
{
    if j < 0 || j >= keys.len() {
        keys.len() as int
    } else if has_at(t, i, marker(keys[j])) {
        j
    } else {
        first_key(t, i, keys, j + 1)
    }
}

/// A declaration found in the text: its kind (an index into the registry),
/// its label and title, and where it ends.
pub struct DeclMatch {
    pub kind: int,
    pub label: Option<Seq<char>>,
    pub title: Option<Seq<char>>,
    pub end: int,
}

/// Where a `{label}` opening at `p` closes, or -1.
pub open spec fn label_close(t: Seq<char>, p: int) -> int {
    if 0 <= p < t.len() && t[p] == '{' {
        find_close(t, p + 1, '}')
    } else {
        -1
    }
}

/// Where a `[title]` opening at `p` closes, or -1.
pub open spec fn title_close(t: Seq<char>, p: int) -> int {
    if 0 <= p < t.len() && t[p] == '[' {
        find_close(t, p + 1, ']')
    } else {
        -1
    }
}

/// The declaration `{{key}}{label}[title]` that starts at `i`, label and title optional.
pub open spec fn decl_at(t: Seq<char>, i: int, keys: Seq<Seq<char>>) -> Option<DeclMatch> {
    let j = first_key(t, i, keys, 0);
    if j >= keys.len() {
        None
    } else {
        let p = i + keys[j].len() + 4;
        let lc = label_close(t, p);
        let after_label = if lc >= 0 { lc + 1 } else { p };
        let tc = title_close(t, after_label);
        Some(
            DeclMatch {
                kind: j,
                label: if lc >= 0 { Some(t.subrange(p + 1, lc)) } else { None },
                title: if tc >= 0 { Some(t.subrange(after_label + 1, tc)) } else { None },
                end: if tc >= 0 { tc + 1 } else { after_label },
            },
        )
    }
}

/// `name prefixN`, e.g. "Theorem 1.2.3".
pub open spec fn numbered_name(name: Seq<char>, prefix: Seq<char>, n: nat) -> Seq<char> {
    name + seq![' '] + prefix + decimal(n)
}

/// `<a name="label"></a>` and a line break.
pub open spec fn anchor(l: Seq<char>) -> Seq<char> {
    seq!['<', 'a', ' ', 'n', 'a', 'm', 'e', '=', '"'] + l + seq!['"', '>', '<', '/', 'a', '>', '\n']
}

/// ` (title)`, or nothing.
pub open spec fn title_part(title: Option<Seq<char>>) -> Seq<char> {
    match title {
        Some(t) => seq![' ', '('] + t + seq![')'],
        None => Seq::empty(),
    }
}

/// `<emph><numbered name>[ (title)].<emph>`.
pub open spec fn header(emph: Seq<char>, num: Seq<char>, title: Option<Seq<char>>) -> Seq<char> {
    emph + num + title_part(title) + seq!['.'] + emph
}

/// What one declaration becomes, and what it does to the registry and the
/// diagnostics.
pub open spec fn declare(
    d: DeclMatch,
    num: Seq<char>,
    emph: Seq<char>,
    path: Seq<char>,
    reg: Map<Seq<char>, LabelInfoView>,
) -> (Seq<char>, Map<Seq<char>, LabelInfoView>, Seq<DiagnosticView>) {
    match d.label {
        None => (header(emph, num, d.title), reg, Seq::empty()),
        Some(l) => {
            if reg.contains_key(l) {
                (
                    anchor(l) + header(emph, num, d.title),
                    reg,
                    seq![DiagnosticView::DuplicateLabel(l, num)],
                )
            } else {
                (anchor(l) + header(emph, num, d.title), reg.insert(l, (num, path, d.title)), Seq::empty())
            }
        },
    }
}

/// The counts before the first declaration of a chapter.
pub open spec fn zero_counts(n: nat) -> Seq<nat> {
    Seq::new(n, |k: int| 0nat)
}

/// Rewriting `t` from `i` on, with `counts[k]` declarations of kind `k` seen
/// before and the registry `reg`: the text, the final registry, the diagnostics.
pub open spec fn scan_from(
    t: Seq<char>,
    i: int,
    envs: Seq<EnvEntryView>,
    prefix: Seq<char>,
    path: Seq<char>,
    counts: Seq<nat>,
    reg: Map<Seq<char>, LabelInfoView>,
) -> (Seq<char>, Map<Seq<char>, LabelInfoView>, Seq<DiagnosticView>)
    decreases t.len() - i,
{
    if i < 0 || i >= t.len() {
        (Seq::empty(), reg, Seq::empty())
    } else {
        match decl_at(t, i, keys_of(envs)) {
            None => {
                let r = scan_from(t, i + 1, envs, prefix, path, counts, reg);
                (seq![t[i]] + r.0, r.1, r.2)
            },
            Some(d) => {
                if !(i < d.end <= t.len()) {
                    // never: a declaration spans its marker at least
                    (Seq::empty(), reg, Seq::empty())
                } else {
                    let n = counts[d.kind] + 1;
                    let num = numbered_name(envs[d.kind].1, prefix, n);
                    let s = declare(d, num, envs[d.kind].2, path, reg);
                    let r = scan_from(t, d.end, envs, prefix, path, counts.update(d.kind, n), s.1);
                    (s.0 + r.0, r.1, s.2 + r.2)
                }
            },
        }
    }
}

/// Rewriting a whole chapter text, counts starting at zero.
pub open spec fn scan(
    t: Seq<char>,
    envs: Seq<EnvEntryView>,
    prefix: Seq<char>,
    path: Seq<char>,
    reg: Map<Seq<char>, LabelInfoView>,
) -> (Seq<char>, Map<Seq<char>, LabelInfoView>, Seq<DiagnosticView>) {
    scan_from(t, 0, envs, prefix, path, zero_counts(envs.len()), reg)
}

pub open spec fn vv(v: Seq<Vec<char>>) -> Seq<Seq<char>> {
    v.map_values(|x: Vec<char>| x@)
}

/// The located parts of a declaration: kind, label span, title span, end.
struct DeclSpan {
    kind: usize,
    label: Option<(usize, usize)>,
    title: Option<(usize, usize)>,
    end: usize,
}

spec fn span_is(sp: DeclSpan, d: DeclMatch, t: Seq<char>) -> bool {
    &&& sp.kind == d.kind
    &&& sp.end == d.end
    &&& match sp.label {
        Some((a, b)) => a <= b <= t.len() && d.label == Some(t.subrange(a as int, b as int)),
        None => d.label is None,
    }
    &&& match sp.title {
        Some((a, b)) => a <= b <= t.len() && d.title == Some(t.subrange(a as int, b as int)),
        None => d.title is None,
    }
}

fn first_key_exec(t: &Vec<char>, i: usize, markers: &Vec<Vec<char>>, keys: Ghost<Seq<Seq<char>>>) -> (r: usize)
    requires
        markers@.len() == keys@.len(),
        forall|m: int| 0 <= m < keys@.len() ==> (#[trigger] markers@[m])@ == marker(keys@[m]),
    ensures
        r as int == first_key(t@, i as int, keys@, 0),
        r <= keys@.len(),
        r < keys@.len() ==> has_at(t@, i as int, marker(keys@[r as int])),
{
    let mut j: usize = 0;
    while j < markers.len()
        invariant
            j <= markers@.len(),
            markers@.len() == keys@.len(),
            forall|m: int| 0 <= m < keys@.len() ==> (#[trigger] markers@[m])@ == marker(keys@[m]),
            first_key(t@, i as int, keys@, 0) == first_key(t@, i as int, keys@, j as int),
        decreases markers.len() - j,
    {
        if matches_at(t, i, &markers[j]) {
            return j;
        }
        j += 1;
    }
    j
}

fn decl_at_exec(
    t: &Vec<char>,
    i: usize,
    markers: &Vec<Vec<char>>,
    key_lens: &Vec<usize>,
    keys: Ghost<Seq<Seq<char>>>,
) -> (r: Option<DeclSpan>)
    requires
        i < t.len(),
        markers@.len() == keys@.len(),
        key_lens@.len() == keys@.len(),
        forall|m: int| 0 <= m < keys@.len() ==> (#[trigger] markers@[m])@ == marker(keys@[m]),
        forall|m: int| 0 <= m < keys@.len() ==> (#[trigger] key_lens@[m]) == keys@[m].len(),
    ensures
        r is None <==> decl_at(t@, i as int, keys@) is None,
        r matches Some(sp) ==> span_is(sp, decl_at(t@, i as int, keys@)->0, t@) && i < sp.end
            <= t.len() && sp.kind < keys@.len(),
{
    let j = first_key_exec(t, i, markers, keys);
    if j >= markers.len() {
        return None;
    }
    proof {
        assert(markers@[j as int]@ == marker(keys@[j as int]));
    }
    let p = i + key_lens[j] + 4;
    let mut lc: Option<usize> = None;
    if p < t.len() && t[p] == '{' {
        lc = find_close_exec(t, p + 1, '}');
        proof { lemma_find_close(t@, p + 1, '}'); }
    }
    let after_label = match lc {
        Some(x) => x + 1,
        None => p,
    };
    let mut tc: Option<usize> = None;
    if after_label < t.len() && t[after_label] == '[' {
        tc = find_close_exec(t, after_label + 1, ']');
        proof { lemma_find_close(t@, after_label + 1, ']'); }
    }
    let end = match tc {
        Some(x) => x + 1,
        None => after_label,
    };
    let label = match lc {
        Some(x) => Some((p + 1, x)),
        None => None,
    };
    let title = match tc {
        Some(x) => Some((after_label + 1, x)),
        None => None,
    };
    Some(DeclSpan { kind: j, label, title, end })
}

/// The numbered name `name prefixn`.
fn numbered(name: &Vec<char>, pre: &Vec<char>, n: usize) -> (r: Vec<char>)
    ensures
        r@ == numbered_name(name@, pre@, n as nat),
{
    let mut num: Vec<char> = Vec::new();
    append(&mut num, name);
    num.push(' ');
    append(&mut num, pre);
    let digits = decimal_chars(n);
    append(&mut num, &digits);
    assert(num@ =~= numbered_name(name@, pre@, n as nat));
    num
}

/// Renders one declaration located by `sp`, registering its label.
fn render_decl(
    t: &Vec<char>,
    sp: &DeclSpan,
    d: Ghost<DeclMatch>,
    num: &Vec<char>,
    emph: &Vec<char>,
    path: &str,
    refs: &mut LabelRegistry,
    diags: &mut Vec<Diagnostic>,
) -> (piece: Vec<char>)
    requires
        span_is(*sp, d@, t@),
    ensures
        piece@ == declare(d@, num@, emph@, path@, old(refs)@).0,
        final(refs)@ == declare(d@, num@, emph@, path@, old(refs)@).1,
        diags_view(final(diags)@) == diags_view(old(diags)@) + declare(
            d@,
            num@,
            emph@,
            path@,
            old(refs)@,
        ).2,
{
    let title: Option<Vec<char>> = match sp.title {
        Some((a, b)) => Some(slice_chars(&t, a, b)),
        None => None,
    };
    let mut piece: Vec<char> = Vec::new();
    match sp.label {
        Some((a, b)) => {
            let label = slice_chars(&t, a, b);
            append(&mut piece, &vec!['<', 'a', ' ', 'n', 'a', 'm', 'e', '=', '"']);
            append(&mut piece, &label);
            append(&mut piece, &vec!['"', '>', '<', '/', 'a', '>', '\n']);
            let lstr = string_of(&label);
            let info = LabelInfo {
                num_name: string_of(&num),
                path: path.to_owned(),
                title: match &title {
                    Some(tt) => Some(string_of(tt)),
                    None => None,
                },
            };
            let added = refs.insert(lstr, info);
            if !added {
                diags.push(Diagnostic::DuplicateLabel {
                    label: string_of(&label),
                    num_name: string_of(&num),
                });
            }
        },
        None => {},
    }
    append(&mut piece, emph);
    append(&mut piece, &num);
    match &title {
        Some(tt) => {
            append(&mut piece, &vec![' ', '(']);
            append(&mut piece, tt);
            piece.push(')');
        },
        None => {},
    }
    piece.push('.');
    append(&mut piece, emph);
    assert(piece@ =~= declare(d@, num@, emph@, path@, old(refs)@).0);
    assert(diags_view(diags@) =~= diags_view(old(diags)@) + declare(d@, num@, emph@, path@, old(refs)@).2);
    piece
}

/// Numbers the declarations `{{key}}{label}[title]` of one chapter text `s`,
/// kinds taken from `envs`, and rewrites each into a header, preceded by an
/// anchor where it has a label. Each label not yet in `refs` is registered
/// with the numbered name, `path` and the title; a label already there is
/// reported in `diags` and left as it was.
pub fn find_and_replace_envs(
    s: &str,
    prefix: &str,
    path: &str,
    envs: &EnvMap,
    refs: &mut LabelRegistry,
    diags: &mut Vec<Diagnostic>,
) -> (r: String)
    ensures
        r@ == scan(s@, envs@, prefix@, path@, old(refs)@).0,
        final(refs)@ == scan(s@, envs@, prefix@, path@, old(refs)@).1,
        diags_view(final(diags)@) == diags_view(old(diags)@) + scan(
            s@,
            envs@,
            prefix@,
            path@,
            old(refs)@,
        ).2,
{
    let t = chars_of(s);
    let pre = chars_of(prefix);
    let ghost E = envs@;
    let ghost K = keys_of(E);
    let ghost total = scan(s@, E, prefix@, path@, old(refs)@);
    let mut markers: Vec<Vec<char>> = Vec::new();
    let mut key_lens: Vec<usize> = Vec::new();
    let mut names: Vec<Vec<char>> = Vec::new();
    let mut emphs: Vec<Vec<char>> = Vec::new();
    let mut counts: Vec<usize> = Vec::new();
    let mut k: usize = 0;
    while k < envs.len()
        invariant
            k <= E.len(),
            E == envs@,
            K == keys_of(E),
            markers@.len() == k,
            key_lens@.len() == k,
            names@.len() == k,
            emphs@.len() == k,
            counts@.len() == k,
            forall|m: int| 0 <= m < k ==> (#[trigger] markers@[m])@ == marker(K[m]),
            forall|m: int| 0 <= m < k ==> (#[trigger] key_lens@[m]) == K[m].len(),
            forall|m: int| 0 <= m < k ==> (#[trigger] names@[m])@ == E[m].1,
            forall|m: int| 0 <= m < k ==> (#[trigger] emphs@[m])@ == E[m].2,
            forall|m: int| 0 <= m < k ==> (#[trigger] counts@[m]) == 0,
        decreases E.len() - k,
    {
        let (key, env) = envs.entry(k);
        let kc = chars_of(key.as_str());
        let mut mk: Vec<char> = vec!['{', '{'];
        append(&mut mk, &kc);
        append(&mut mk, &vec!['}', '}']);
        markers.push(mk);
        key_lens.push(kc.len());
        names.push(chars_of(env.name.as_str()));
        emphs.push(chars_of(env.emph.as_str()));
        counts.push(0);
        k += 1;
    }
    let mut out: Vec<char> = Vec::new();
    let mut i: usize = 0;
    assert(counts@.map_values(|c: usize| c as nat) =~= zero_counts(E.len()));
    while i < t.len()
        invariant
            i <= t.len(),
            t@ == s@,
            E == envs@,
            K == keys_of(E),
            pre@ == prefix@,
            markers@.len() == E.len(),
            key_lens@.len() == E.len(),
            names@.len() == E.len(),
            emphs@.len() == E.len(),
            counts@.len() == E.len(),
            forall|m: int| 0 <= m < E.len() ==> (#[trigger] markers@[m])@ == marker(K[m]),
            forall|m: int| 0 <= m < E.len() ==> (#[trigger] key_lens@[m]) == K[m].len(),
            forall|m: int| 0 <= m < E.len() ==> (#[trigger] names@[m])@ == E[m].1,
            forall|m: int| 0 <= m < E.len() ==> (#[trigger] emphs@[m])@ == E[m].2,
            forall|m: int| 0 <= m < E.len() ==> (#[trigger] counts@[m]) <= i,
            total == scan(s@, E, prefix@, path@, old(refs)@),
            ({
                let cur = scan_from(t@, i as int, E, prefix@, path@, counts@.map_values(|c: usize| c as nat), refs@);
                &&& out@ + cur.0 == total.0
                &&& cur.1 == total.1
                &&& diags_view(diags@) + cur.2 == diags_view(old(diags)@) + total.2
            }),
        decreases t.len() - i,
    {
        let ghost cv = counts@.map_values(|c: usize| c as nat);
        let ghost cur = scan_from(t@, i as int, E, prefix@, path@, cv, refs@);
        let ghost out0 = out@;
        let ghost diags0 = diags@;
        assert(K.len() == E.len());
        assert forall|m: int| 0 <= m < K.len() implies (#[trigger] K[m]).len() == key_lens@[m] by {}
        match decl_at_exec(&t, i, &markers, &key_lens, Ghost(K)) {
            None => {
                let c = t[i];
                let ghost rest = scan_from(t@, i + 1, E, prefix@, path@, cv, refs@);
                assert(cur.0 == seq![c] + rest.0);
                out.push(c);
                assert(out@ + rest.0 =~= out0 + (seq![c] + rest.0));
                i += 1;
            },
            Some(sp) => {
                let ghost d = decl_at(t@, i as int, K)->0;
                let kind = sp.kind;
                let n = counts[kind] + 1;
                let num = numbered(&names[kind], &pre, n);
                let emph = &emphs[kind];
                let ghost step = declare(d, num@, E[kind as int].2, path@, refs@);
                let ghost next = counts@.update(kind as int, n);
                assert(next.map_values(|c: usize| c as nat) =~= cv.update(kind as int, n as nat));
                let piece = render_decl(&t, &sp, Ghost(d), &num, emph, path, refs, diags);
                append(&mut out, &piece);
                counts.set(kind, n);
                i = sp.end;
                proof {
                    let rest = scan_from(t@, i as int, E, prefix@, path@, counts@.map_values(|c: usize| c as nat), refs@);
                    assert(cur.0 == step.0 + rest.0);
                    assert(out@ + rest.0 =~= out0 + (step.0 + rest.0));
                    assert(diags_view(diags@) + rest.2 =~= diags_view(diags0) + (step.2 + rest.2));
                }
            },
        }
    }
    string_of(&out)
}

} // verus!

//! Properties of the two passes, proved over the functions that their
//! contracts are stated with.

use crate::env::{default_envs, unique_keys, EnvEntryView};
use crate::grammar::{find_close, find_double_close, has_at};
use crate::labels::{DiagnosticView, LabelInfoView};
use crate::preprocessor::pass_one;
use crate::refs::{
    is_space, link, link_text, ref_at, ref_open, rel_path, render_ref, resolve, resolve_from,
    skip_space, tref_open, unresolved, RefMatch,
};
use crate::scan::{
    anchor, decl_at, declare, first_key, header, keys_of, marker, numbered_name, scan, scan_from,
    zero_counts, DeclMatch,
};
use vstd::prelude::*;

verus! {

/// `{label}`, or nothing.
pub open spec fn label_src(label: Option<Seq<char>>) -> Seq<char> {
    match label {
        Some(l) => seq!['{'] + l + seq!['}'],
        None => Seq::empty(),
    }
}

/// `[title]`, or nothing.
pub open spec fn title_src(title: Option<Seq<char>>) -> Seq<char> {
    match title {
        Some(tt) => seq!['['] + tt + seq![']'],
        None => Seq::empty(),
    }
}

/// The declaration `{{key}}{label}[title]`, label and title optional.
pub open spec fn decl_src(key: Seq<char>, label: Option<Seq<char>>, title: Option<Seq<char>>) -> Seq<
    char,
> {
    marker(key) + label_src(label) + title_src(title)
}

/// `c` occurs nowhere in `s`.
pub open spec fn lacks(s: Seq<char>, c: char) -> bool {
    forall|i: int| 0 <= i < s.len() ==> s[i] != c
}

/// A label as a `{...}` group can hold it.
pub open spec fn label_ok(label: Option<Seq<char>>) -> bool {
    match label {
        Some(l) => lacks(l, '}') && lacks(l, '\n'),
        None => true,
    }
}

/// A title as a `[...]` group can hold it.
pub open spec fn title_ok(title: Option<Seq<char>>) -> bool {
    match title {
        Some(tt) => lacks(tt, ']') && lacks(tt, '\n'),
        None => true,
    }
}

/// Keys as the declaration markers can hold them: distinct, without `}`.
pub open spec fn keys_ok(envs: Seq<EnvEntryView>) -> bool {
    &&& unique_keys(envs)
    &&& forall|m: int| 0 <= m < envs.len() ==> lacks(#[trigger] envs[m].0, '}')
}

proof fn lemma_find_close_at(t: Seq<char>, k: int, e: int, c: char)
    requires
        0 <= k <= e < t.len(),
        t[e] == c,
        forall|j: int| k <= j < e ==> t[j] != c && t[j] != '\n',
    ensures
        find_close(t, k, c) == e,
    decreases e - k,
{
    if k < e {
        lemma_find_close_at(t, k + 1, e, c);
    }
}

proof fn lemma_find_double_close_at(t: Seq<char>, k: int, e: int)
    requires
        0 <= k <= e,
        e + 1 < t.len(),
        t[e] == '}' && t[e + 1] == '}',
        forall|j: int| k <= j < e ==> t[j] != '}' && t[j] != '\n',
    ensures
        find_double_close(t, k) == e,
    decreases e - k,
{
    if k < e {
        lemma_find_double_close_at(t, k + 1, e);
    }
}

proof fn lemma_first_key_from(t: Seq<char>, keys: Seq<Seq<char>>, m: int, j: int)
    requires
        0 <= m <= j < keys.len(),
        has_at(t, 0, marker(keys[j])),
        forall|x: int| m <= x < j ==> !has_at(t, 0, marker(#[trigger] keys[x])),
    ensures
        first_key(t, 0, keys, m) == j,
    decreases j - m,
{
    if m < j {
        lemma_first_key_from(t, keys, m + 1, j);
    }
}

/// Only the marker of kind `j` stands at the start of `t`, where `t` starts with it.
proof fn lemma_only_key(t: Seq<char>, envs: Seq<EnvEntryView>, j: int)
    requires
        keys_ok(envs),
        0 <= j < envs.len(),
        has_at(t, 0, marker(envs[j].0)),
    ensures
        first_key(t, 0, keys_of(envs), 0) == j,
{
    let keys = keys_of(envs);
    let k = envs[j].0;
    assert(keys[j] == k);
    assert forall|x: int| 0 <= x < j implies !has_at(t, 0, marker(#[trigger] keys[x])) by {
        let o = keys[x];
        assert(o == envs[x].0);
        assert(lacks(o, '}') && lacks(k, '}'));
        if has_at(t, 0, marker(o)) {
            let a = o.len() as int;
            let b = k.len() as int;
            assert(t.subrange(0, a + 4)[a + 2] == marker(o)[a + 2]);
            assert(t.subrange(0, b + 4)[b + 2] == marker(k)[b + 2]);
            if a < b {
                assert(t.subrange(0, b + 4)[a + 2] == marker(k)[a + 2]);
                assert(marker(k)[a + 2] == k[a]);
            } else if a > b {
                assert(t.subrange(0, a + 4)[b + 2] == marker(o)[b + 2]);
                assert(marker(o)[b + 2] == o[b]);
            } else {
                assert forall|y: int| 0 <= y < a implies o[y] == k[y] by {
                    assert(t.subrange(0, a + 4)[y + 2] == marker(o)[y + 2]);
                    assert(t.subrange(0, b + 4)[y + 2] == marker(k)[y + 2]);
                }
                assert(o =~= k);
            }
        }
    }
    lemma_first_key_from(t, keys, 0, j);
}

/// A chapter text that is one declaration of a configured kind becomes that
/// declaration's rendering, numbered 1, with the registry and diagnostics that
/// `declare` gives.
pub proof fn lemma_lone_declaration(
    envs: Seq<EnvEntryView>,
    j: int,
    label: Option<Seq<char>>,
    title: Option<Seq<char>>,
    prefix: Seq<char>,
    path: Seq<char>,
    reg: Map<Seq<char>, LabelInfoView>,
)
    requires
        keys_ok(envs),
        0 <= j < envs.len(),
        label_ok(label),
        title_ok(title),
    ensures
        scan(decl_src(envs[j].0, label, title), envs, prefix, path, reg) == declare(
            DeclMatch {
                kind: j,
                label,
                title,
                end: decl_src(envs[j].0, label, title).len() as int,
            },
            numbered_name(envs[j].1, prefix, 1),
            envs[j].2,
            path,
            reg,
        ),
{
    let k = envs[j].0;
    let t = decl_src(k, label, title);
    let mk = marker(k);
    let ls = label_src(label);
    let ts = title_src(title);
    assert(t == mk + ls + ts);
    assert(t.subrange(0, mk.len() as int) =~= mk);
    lemma_only_key(t, envs, j);
    let keys = keys_of(envs);
    assert(keys[j] == k);
    let p = mk.len() as int;
    assert(p == k.len() + 4);
    let after_label = p + ls.len();
    // the label group
    match label {
        Some(l) => {
            assert(t[p] == '{');
            assert forall|x: int| p + 1 <= x < p + 1 + l.len() implies t[x] != '}' && t[x] != '\n' by {
                assert(t[x] == l[x - p - 1]);
            }
            assert(t[p + 1 + l.len()] == '}');
            lemma_find_close_at(t, p + 1, p + 1 + l.len(), '}');
            assert(t.subrange(p + 1, p + 1 + l.len()) =~= l);
        },
        None => {
            assert(after_label == p);
            if p < t.len() {
                assert(t[p] == ts[0]);
            }
        },
    }
    // the title group
    match title {
        Some(tt) => {
            assert(t[after_label] == '[');
            assert forall|x: int| after_label + 1 <= x < after_label + 1 + tt.len() implies t[x] != ']' && t[x] != '\n' by {
                assert(t[x] == tt[x - after_label - 1]);
            }
            assert(t[after_label + 1 + tt.len()] == ']');
            lemma_find_close_at(t, after_label + 1, after_label + 1 + tt.len(), ']');
            assert(t.subrange(after_label + 1, after_label + 1 + tt.len()) =~= tt);
        },
        None => {
            assert(after_label == t.len());
        },
    }
    let d = decl_at(t, 0, keys)->0;
    assert(d.kind == j);
    assert(d.label == label);
    assert(d.title == title);
    assert(d.end == t.len());
    assert(zero_counts(envs.len())[j] == 0);
    assert(t.len() > 0);
    let num = numbered_name(envs[j].1, prefix, 1);
    assert(d == DeclMatch { kind: j, label, title, end: t.len() as int });
    let s = declare(d, num, envs[j].2, path, reg);
    let zc = zero_counts(envs.len());
    let r = scan_from(t, t.len() as int, envs, prefix, path, zc.update(j, 1), s.1);
    assert(r == (Seq::<char>::empty(), s.1, Seq::<DiagnosticView>::empty()));
    assert(s.0 + r.0 =~= s.0);
    assert(s.2 + r.2 =~= s.2);
    assert(scan_from(t, 0, envs, prefix, path, zc, reg) == (s.0 + r.0, r.1, s.2 + r.2));
}

/// A declaration with a label and no title becomes an anchor and a header
/// without a parenthetical; a new label is registered with the bare numbered
/// name and no title, a known one is left as it was.
pub proof fn lemma_label_without_title(
    envs: Seq<EnvEntryView>,
    j: int,
    l: Seq<char>,
    prefix: Seq<char>,
    path: Seq<char>,
    reg: Map<Seq<char>, LabelInfoView>,
)
    requires
        keys_ok(envs),
        0 <= j < envs.len(),
        lacks(l, '}'),
        lacks(l, '\n'),
    ensures
        ({
            let r = scan(decl_src(envs[j].0, Some(l), None), envs, prefix, path, reg);
            let num = numbered_name(envs[j].1, prefix, 1);
            &&& r.0 == anchor(l) + header(envs[j].2, num, None)
            &&& !reg.contains_key(l) ==> r.1 == reg.insert(l, (num, path, None::<Seq<char>>))
            &&& reg.contains_key(l) ==> r.1 == reg
        }),
{
    lemma_lone_declaration(envs, j, Some(l), None, prefix, path, reg);
}

/// A declaration with a title and no label becomes a header with the title in
/// parentheses, and leaves the registry and the diagnostics alone.
pub proof fn lemma_title_without_label(
    envs: Seq<EnvEntryView>,
    j: int,
    tt: Seq<char>,
    prefix: Seq<char>,
    path: Seq<char>,
    reg: Map<Seq<char>, LabelInfoView>,
)
    requires
        keys_ok(envs),
        0 <= j < envs.len(),
        lacks(tt, ']'),
        lacks(tt, '\n'),
    ensures
        ({
            let r = scan(decl_src(envs[j].0, None, Some(tt)), envs, prefix, path, reg);
            &&& r.0 == header(envs[j].2, numbered_name(envs[j].1, prefix, 1), Some(tt))
            &&& r.1 == reg
            &&& r.2.len() == 0
        }),
{
    lemma_lone_declaration(envs, j, None, Some(tt), prefix, path, reg);
}

proof fn lemma_default_keys_ok()
    ensures
        keys_ok(default_envs()),
{
    let v = default_envs();
    assert(v[0].0 =~= seq!['t', 'h', 'm']);
    assert(v[1].0 =~= seq!['l', 'e', 'm']);
    assert(v[2].0 =~= seq!['p', 'r', 'o', 'p']);
    assert(v[3].0 =~= seq!['d', 'e', 'f']);
    assert(v[4].0 =~= seq!['r', 'e', 'm']);
    assert forall|a: int, b: int|
        0 <= a < v.len() && 0 <= b < v.len() && a != b implies (#[trigger] v[a]).0 != (
        #[trigger] v[b]).0 by {
        assert(v[a].0[0] != v[b].0[0] || v[a].0[1] != v[b].0[1]);
    }
    assert forall|m: int| 0 <= m < v.len() implies lacks(#[trigger] v[m].0, '}') by {}
}

pub open spec fn prop_key() -> Seq<char> {
    seq!['p', 'r', 'o', 'p']
}

/// With the built-in kinds and no prefix, a chapter whose only declaration is
/// `{{prop}}` becomes `**Proposition 1.**`, whatever its path and the registry.
pub proof fn lemma_lone_prop(path: Seq<char>, reg: Map<Seq<char>, LabelInfoView>)
    ensures
        scan(marker(prop_key()), default_envs(), Seq::empty(), path, reg).0 == seq![
            '*', '*', 'P', 'r', 'o', 'p', 'o', 's', 'i', 't', 'i', 'o', 'n', ' ', '1', '.', '*', '*',
        ],
        scan(marker(prop_key()), default_envs(), Seq::empty(), path, reg).1 == reg,
{
    lemma_default_keys_ok();
    let v = default_envs();
    assert(v[2].0 =~= prop_key());
    lemma_lone_declaration(v, 2, None, None, Seq::empty(), path, reg);
    assert(decl_src(prop_key(), None, None) =~= marker(prop_key()));
    assert(crate::text::decimal(1) =~= seq!['1']);
    assert(header(v[2].2, numbered_name(v[2].1, Seq::empty(), 1), None) =~= seq![
        '*', '*', 'P', 'r', 'o', 'p', 'o', 's', 'i', 't', 'i', 'o', 'n', ' ', '1', '.', '*', '*',
    ]);
}

/// Setting `prop` to ("Proposal", "*") changes the name and the emphasis of its
/// header and nothing else: `{{prop}}` becomes `*Proposal 1.*`.
pub proof fn lemma_overridden_prop(path: Seq<char>, reg: Map<Seq<char>, LabelInfoView>)
    ensures
        ({
            let envs = crate::env::env_insert(
                default_envs(),
                prop_key(),
                (seq!['P', 'r', 'o', 'p', 'o', 's', 'a', 'l'], seq!['*']),
            );
            &&& scan(marker(prop_key()), envs, Seq::empty(), path, reg).0 == seq![
                '*', 'P', 'r', 'o', 'p', 'o', 's', 'a', 'l', ' ', '1', '.', '*',
            ]
            &&& scan(marker(prop_key()), envs, Seq::empty(), path, reg).1 == reg
        }),
{
    lemma_default_keys_ok();
    let v = default_envs();
    let e = (seq!['P', 'r', 'o', 'p', 'o', 's', 'a', 'l'], seq!['*']);
    assert(v[2].0 =~= prop_key());
    assert(crate::env::has_key(v, prop_key()));
    let kp = crate::env::key_pos(v, prop_key());
    assert(v[kp].0 == prop_key());
    assert(kp == 2);
    let w = crate::env::env_insert(v, prop_key(), e);
    assert(w == v.update(2, (prop_key(), e.0, e.1)));
    assert forall|a: int, b: int|
        0 <= a < w.len() && 0 <= b < w.len() && a != b implies (#[trigger] w[a]).0 != (
        #[trigger] w[b]).0 by {
        assert(w[a].0 == v[a].0 && w[b].0 == v[b].0);
    }
    assert forall|m: int| 0 <= m < w.len() implies lacks(#[trigger] w[m].0, '}') by {
        assert(w[m].0 == v[m].0);
    }
    lemma_lone_declaration(w, 2, None, None, Seq::empty(), path, reg);
    assert(decl_src(prop_key(), None, None) =~= marker(prop_key()));
    assert(crate::text::decimal(1) =~= seq!['1']);
    assert(header(w[2].2, numbered_name(w[2].1, Seq::empty(), 1), None) =~= seq![
        '*', 'P', 'r', 'o', 'p', 'o', 's', 'a', 'l', ' ', '1', '.', '*',
    ]);
}

/// Scanning never changes or removes a registered label: the first declaration
/// of a label stays registered, however often the label is declared again.
pub proof fn lemma_scan_keeps_labels(
    t: Seq<char>,
    i: int,
    envs: Seq<EnvEntryView>,
    prefix: Seq<char>,
    path: Seq<char>,
    counts: Seq<nat>,
    reg: Map<Seq<char>, LabelInfoView>,
)
    ensures
        forall|l: Seq<char>|
            #![trigger reg.contains_key(l)]
            reg.contains_key(l) ==> scan_from(t, i, envs, prefix, path, counts, reg).1.contains_key(
                l,
            ) && scan_from(t, i, envs, prefix, path, counts, reg).1[l] == reg[l],
    decreases t.len() - i,
{
    if 0 <= i < t.len() {
        match decl_at(t, i, keys_of(envs)) {
            None => {
                lemma_scan_keeps_labels(t, i + 1, envs, prefix, path, counts, reg);
            },
            Some(d) => {
                if i < d.end <= t.len() {
                    let n = counts[d.kind] + 1;
                    let num = numbered_name(envs[d.kind].1, prefix, n);
                    let s = declare(d, num, envs[d.kind].2, path, reg);
                    lemma_scan_keeps_labels(t, d.end, envs, prefix, path, counts.update(d.kind, n), s.1);
                    assert forall|l: Seq<char>| #[trigger] reg.contains_key(l) implies s.1.contains_key(l)
                        && s.1[l] == reg[l] by {
                        match d.label {
                            Some(x) => {
                                if !reg.contains_key(x) {
                                    assert(x != l);
                                }
                            },
                            None => {},
                        }
                    }
                }
            },
        }
    }
}

/// Over a whole book the same holds: the first pass never changes or removes a
/// registered label, so across chapters the first declaration of a label wins.
pub proof fn lemma_pass_one_keeps_labels(
    chs: Seq<crate::preprocessor::ChapterView>,
    envs: Seq<EnvEntryView>,
    with_prefix: bool,
    reg: Map<Seq<char>, LabelInfoView>,
)
    ensures
        forall|l: Seq<char>|
            #![trigger reg.contains_key(l)]
            reg.contains_key(l) ==> pass_one(chs, envs, with_prefix, reg).1.contains_key(l) && pass_one(
                chs,
                envs,
                with_prefix,
                reg,
            ).1[l] == reg[l],
    decreases chs.len(),
{
    if chs.len() > 0 {
        lemma_pass_one_keeps_labels(chs.drop_last(), envs, with_prefix, reg);
        let r = pass_one(chs.drop_last(), envs, with_prefix, reg);
        let c = chs.last();
        match c.1 {
            None => {},
            Some(path) => {
                let prefix = crate::preprocessor::section_prefix(with_prefix, c.2);
                lemma_scan_keeps_labels(c.0, 0, envs, prefix, path, zero_counts(envs.len()), r.1);
                assert forall|l: Seq<char>| #[trigger] reg.contains_key(l) implies pass_one(
                    chs,
                    envs,
                    with_prefix,
                    reg,
                ).1.contains_key(l) && pass_one(chs, envs, with_prefix, reg).1[l] == reg[l] by {
                    assert(r.1.contains_key(l));
                }
            },
        }
    }
}

/// A text in which no declaration starts anywhere is left as it is, with the
/// registry unchanged and nothing reported; so is text that scanning already
/// rewrote, where no marker is left.
pub proof fn lemma_scan_without_declarations(
    t: Seq<char>,
    envs: Seq<EnvEntryView>,
    prefix: Seq<char>,
    path: Seq<char>,
    reg: Map<Seq<char>, LabelInfoView>,
)
    requires
        forall|i: int| 0 <= i < t.len() ==> (#[trigger] decl_at(t, i, keys_of(envs))) is None,
    ensures
        scan(t, envs, prefix, path, reg) == (t, reg, Seq::<DiagnosticView>::empty()),
{
    lemma_scan_plain_from(t, 0, envs, prefix, path, zero_counts(envs.len()), reg);
    assert(t.subrange(0, t.len() as int) =~= t);
}

proof fn lemma_scan_plain_from(
    t: Seq<char>,
    i: int,
    envs: Seq<EnvEntryView>,
    prefix: Seq<char>,
    path: Seq<char>,
    counts: Seq<nat>,
    reg: Map<Seq<char>, LabelInfoView>,
)
    requires
        0 <= i <= t.len(),
        forall|x: int| 0 <= x < t.len() ==> (#[trigger] decl_at(t, x, keys_of(envs))) is None,
    ensures
        scan_from(t, i, envs, prefix, path, counts, reg) == (
            t.subrange(i, t.len() as int),
            reg,
            Seq::<DiagnosticView>::empty(),
        ),
    decreases t.len() - i,
{
    if i < t.len() {
        assert(decl_at(t, i, keys_of(envs)) is None);
        lemma_scan_plain_from(t, i + 1, envs, prefix, path, counts, reg);
        assert(seq![t[i]] + t.subrange(i + 1, t.len() as int) =~= t.subrange(i, t.len() as int));
    } else {
        assert(t.subrange(i, t.len() as int) =~= Seq::<char>::empty());
    }
}

/// `{{ref: label}}`, or `{{tref: label}}` for a title reference.
pub open spec fn ref_src(title_ref: bool, l: Seq<char>) -> Seq<char> {
    (if title_ref { tref_open() } else { ref_open() }) + seq![' '] + l + seq!['}', '}']
}

/// A reference to a registered label becomes a link to it: for `ref:` its
/// text is the numbered name, for `tref:` the title where there is one and the
/// numbered name otherwise; the target is the relative path to the declaring
/// chapter followed by `#label`. A reference to a label that was never
/// registered becomes `**[??]**` and is reported, and nothing else happens.
pub proof fn lemma_reference(
    title_ref: bool,
    l: Seq<char>,
    from: Seq<char>,
    reg: Map<Seq<char>, LabelInfoView>,
)
    requires
        lacks(l, '}'),
        lacks(l, '\n'),
        l.len() > 0 ==> !is_space(l[0]),
    ensures
        ({
            let r = resolve(ref_src(title_ref, l), from, reg);
            if reg.contains_key(l) {
                let info = reg[l];
                &&& r.0 == link(link_text(title_ref, info), rel_path(from, info.1), l)
                &&& r.1.len() == 0
            } else {
                &&& r.0 == unresolved()
                &&& r.1 == seq![DiagnosticView::UnknownReference(l)]
            }
        }),
{
    let t = ref_src(title_ref, l);
    let op = if title_ref { tref_open() } else { ref_open() };
    let o = op.len() as int;
    assert(t == op + seq![' '] + l + seq!['}', '}']);
    assert(t.subrange(0, o) =~= op);
    if title_ref {
        assert(t.subrange(0, 6)[2] != ref_open()[2]);
    }
    assert(t[o] == ' ');
    assert(is_space(' '));
    if l.len() > 0 {
        assert(t[o + 1] == l[0]);
    } else {
        assert(t[o + 1] == '}');
    }
    assert(skip_space(t, o + 1) == o + 1);
    assert(skip_space(t, o) == o + 1);
    let e = o + 1 + l.len();
    assert(t[e] == '}' && t[e + 1] == '}');
    assert forall|x: int| o + 1 <= x < e implies t[x] != '}' && t[x] != '\n' by {
        assert(t[x] == l[x - o - 1]);
    }
    lemma_find_double_close_at(t, o + 1, e);
    assert(t.subrange(o + 1, e) =~= l);
    let m = RefMatch { title_ref, label: l, end: e + 2 };
    assert(ref_at(t, 0) == Some(m));
    assert(e + 2 == t.len());
    let s = render_ref(m, from, reg);
    let r = resolve_from(t, e + 2, from, reg);
    assert(r == (Seq::<char>::empty(), Seq::<DiagnosticView>::empty()));
    assert(s.0 + r.0 =~= s.0);
    assert(s.1 + r.1 =~= s.1);
    assert(resolve_from(t, 0, from, reg) == (s.0 + r.0, s.1 + r.1));
}

/// A reference within one chapter links to `#label` alone.
pub proof fn lemma_same_chapter_link(p: Seq<char>, text: Seq<char>, l: Seq<char>)
    ensures
        rel_path(p, p) == Seq::<char>::empty(),
        link(text, rel_path(p, p), l) == seq!['['] + text + seq![']', '(', '#'] + l + seq![')'],
{
    assert(link(text, rel_path(p, p), l) =~= seq!['['] + text + seq![']', '(', '#'] + l + seq![')']);
}

/// A reference across chapters links through the relative path from the folder
/// of the referring chapter to the declaring one.
pub proof fn lemma_cross_chapter_link(from: Seq<char>, to: Seq<char>)
    requires
        from != to,
        crate::refs::path_diff(to, crate::refs::parent_dir(from)) is Some,
    ensures
        rel_path(from, to) == crate::refs::path_diff(to, crate::refs::parent_dir(from))->0,
{
}

/// Scanning a chapter a second time changes nothing, wherever its first
/// rewriting left no declaration marker behind (the markers are consumed; a
/// title or label that itself holds a marker leaves one).
pub proof fn lemma_rescan_is_identity(
    t: Seq<char>,
    envs: Seq<EnvEntryView>,
    prefix: Seq<char>,
    path: Seq<char>,
    reg: Map<Seq<char>, LabelInfoView>,
)
    requires
        forall|i: int|
            0 <= i < scan(t, envs, prefix, path, reg).0.len() ==> (#[trigger] decl_at(
                scan(t, envs, prefix, path, reg).0,
                i,
                keys_of(envs),
            )) is None,
    ensures
        ({
            let once = scan(t, envs, prefix, path, reg);
            scan(once.0, envs, prefix, path, once.1) == (once.0, once.1, Seq::<DiagnosticView>::empty())
        }),
{
    let once = scan(t, envs, prefix, path, reg);
    lemma_scan_without_declarations(once.0, envs, prefix, path, once.1);
}

/// Display names and emphasis take no part in numbering: two configurations
/// with the same keys find the same declarations in a text, register the same
/// labels and report the same number of diagnostics.
pub proof fn lemma_names_do_not_change_numbering(
    t: Seq<char>,
    i: int,
    v: Seq<EnvEntryView>,
    w: Seq<EnvEntryView>,
    prefix: Seq<char>,
    path: Seq<char>,
    counts: Seq<nat>,
    reg_v: Map<Seq<char>, LabelInfoView>,
    reg_w: Map<Seq<char>, LabelInfoView>,
)
    requires
        keys_of(v) == keys_of(w),
        reg_v.dom() == reg_w.dom(),
    ensures
        scan_from(t, i, v, prefix, path, counts, reg_v).1.dom() == scan_from(
            t,
            i,
            w,
            prefix,
            path,
            counts,
            reg_w,
        ).1.dom(),
        scan_from(t, i, v, prefix, path, counts, reg_v).2.len() == scan_from(
            t,
            i,
            w,
            prefix,
            path,
            counts,
            reg_w,
        ).2.len(),
    decreases t.len() - i,
{
    if 0 <= i < t.len() {
        match decl_at(t, i, keys_of(v)) {
            None => {
                lemma_names_do_not_change_numbering(t, i + 1, v, w, prefix, path, counts, reg_v, reg_w);
            },
            Some(d) => {
                if i < d.end <= t.len() {
                    let n = counts[d.kind] + 1;
                    let sv = declare(d, numbered_name(v[d.kind].1, prefix, n), v[d.kind].2, path, reg_v);
                    let sw = declare(d, numbered_name(w[d.kind].1, prefix, n), w[d.kind].2, path, reg_w);
                    match d.label {
                        Some(l) => {
                            assert(reg_v.contains_key(l) == reg_w.contains_key(l));
                            if !reg_v.contains_key(l) {
                                assert(sv.1.dom() =~= reg_v.dom().insert(l));
                                assert(sw.1.dom() =~= reg_w.dom().insert(l));
                            }
                        },
                        None => {},
                    }
                    lemma_names_do_not_change_numbering(
                        t,
                        d.end,
                        v,
                        w,
                        prefix,
                        path,
                        counts.update(d.kind, n),
                        sv.1,
                        sw.1,
                    );
                }
            },
        }
    }
}

/// A labelled declaration renders its anchor whether or not its label was
/// already registered: a reused label yields a second anchor of the same name.
pub proof fn lemma_anchor_on_conflict(
    d: DeclMatch,
    num: Seq<char>,
    emph: Seq<char>,
    path: Seq<char>,
    reg: Map<Seq<char>, LabelInfoView>,
)
    requires
        d.label is Some,
    ensures
        declare(d, num, emph, path, reg).0 == anchor(d.label->0) + header(emph, num, d.title),
        reg.contains_key(d.label->0) ==> declare(d, num, emph, path, reg).1 == reg,
{
}

} // verus!

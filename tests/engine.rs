use mdbook_numthm::{
    compute_rel_path, decimal_chars, find_and_replace_envs, find_and_replace_refs, Chapter,
    Diagnostic, Env, EnvConfig, EnvMap, LabelInfo, LabelRegistry, NumThmPreprocessor,
};

fn chapter(content: &str, path: Option<&str>, number: Option<&str>) -> Chapter {
    Chapter {
        content: content.to_string(),
        path: path.map(|p| p.to_string()),
        number: number.map(|n| n.to_string()),
    }
}

#[test]
fn lone_prop_without_prefix() {
    let mut refs = LabelRegistry::new();
    let mut diags = Vec::new();
    let out = find_and_replace_envs("{{prop}}", "", "any/where.md", &EnvMap::default(), &mut refs, &mut diags);
    assert_eq!(out, "**Proposition 1.**");
    assert!(refs.is_empty());
    assert!(diags.is_empty());
}

#[test]
fn overridden_kind_keeps_numbering() {
    let mut envs = EnvMap::default();
    envs.insert(String::from("prop"), Env::create("Proposal", "*"));
    let mut refs = LabelRegistry::new();
    let mut diags = Vec::new();
    let out = find_and_replace_envs("{{prop}} {{prop}}", "", "a.md", &envs, &mut refs, &mut diags);
    assert_eq!(out, "*Proposal 1.* *Proposal 2.*");
}

#[test]
fn label_without_title_registers_plain_name() {
    let mut refs = LabelRegistry::new();
    let mut diags = Vec::new();
    let out = find_and_replace_envs("{{prop}}{prop:lagrange}", "", "a.md", &EnvMap::default(), &mut refs, &mut diags);
    assert_eq!(out, "<a name=\"prop:lagrange\"></a>\n**Proposition 1.**");
    assert_eq!(
        *refs.get("prop:lagrange").unwrap(),
        LabelInfo { num_name: "Proposition 1".to_string(), path: "a.md".to_string(), title: None }
    );
}

#[test]
fn counters_are_per_kind_and_per_chapter() {
    let mut refs = LabelRegistry::new();
    let mut diags = Vec::new();
    let envs = EnvMap::default();
    let out = find_and_replace_envs("{{thm}} {{lem}} {{thm}} {{rem}}", "", "a.md", &envs, &mut refs, &mut diags);
    assert_eq!(out, "**Theorem 1.** **Lemma 1.** **Theorem 2.** *Remark 1.*");
    let out = find_and_replace_envs("{{thm}}", "", "b.md", &envs, &mut refs, &mut diags);
    assert_eq!(out, "**Theorem 1.**");
}

#[test]
fn duplicate_label_across_chapters_keeps_first() {
    let mut refs = LabelRegistry::new();
    let mut diags = Vec::new();
    let envs = EnvMap::default();
    let a = find_and_replace_envs("{{thm}}{x}", "", "a.md", &envs, &mut refs, &mut diags);
    let b = find_and_replace_envs("{{lem}}{x}", "", "b.md", &envs, &mut refs, &mut diags);
    assert_eq!(a, "<a name=\"x\"></a>\n**Theorem 1.**");
    assert_eq!(b, "<a name=\"x\"></a>\n**Lemma 1.**");
    assert_eq!(refs.len(), 1);
    assert_eq!(refs.get("x").unwrap().num_name, "Theorem 1");
    assert_eq!(refs.get("x").unwrap().path, "a.md");
    assert_eq!(
        diags,
        vec![Diagnostic::DuplicateLabel { label: "x".to_string(), num_name: "Lemma 1".to_string() }]
    );
}

#[test]
fn unknown_reference_is_a_placeholder() {
    let refs = LabelRegistry::new();
    let mut diags = Vec::new();
    let out = find_and_replace_refs("see {{ref: nowhere}} and {{tref:gone}}.", "a.md", &refs, &mut diags);
    assert_eq!(out, "see **[??]** and **[??]**.");
    assert_eq!(
        diags,
        vec![
            Diagnostic::UnknownReference { label: "nowhere".to_string() },
            Diagnostic::UnknownReference { label: "gone".to_string() },
        ]
    );
}

#[test]
fn rescanning_rewritten_text_changes_nothing() {
    let mut refs = LabelRegistry::new();
    let mut diags = Vec::new();
    let envs = EnvMap::default();
    let once = find_and_replace_envs("{{thm}}{t}[T] text {{def}}", "1.", "a.md", &envs, &mut refs, &mut diags);
    let twice = find_and_replace_envs(&once, "1.", "a.md", &envs, &mut refs, &mut diags);
    assert_eq!(once, twice);
    assert_eq!(refs.len(), 1);
    assert!(diags.is_empty());
}

#[test]
fn malformed_markers_pass_through() {
    let mut refs = LabelRegistry::new();
    let mut diags = Vec::new();
    let input = "{{foo}} {{thm} {{ref:}x} {{prop}}{unclosed\n";
    let out = find_and_replace_envs(input, "", "a.md", &EnvMap::default(), &mut refs, &mut diags);
    assert_eq!(out, "{{foo}} {{thm} {{ref:}x} **Proposition 1.**{unclosed\n");
    let out2 = find_and_replace_refs(&out, "a.md", &refs, &mut diags);
    assert_eq!(out2, out);
}

#[test]
fn same_chapter_has_empty_relative_path() {
    assert_eq!(compute_rel_path("a/b.md", "a/b.md"), "");
    assert_eq!(compute_rel_path("a/b.md", "a/c.md"), "c.md");
    assert_eq!(compute_rel_path("x.md", "a/c.md"), "a/c.md");
    assert_eq!(compute_rel_path("crypto/bls.md", "math/groups.md"), "../math/groups.md");
}

#[test]
fn decimal_digits() {
    assert_eq!(decimal_chars(0), vec!['0']);
    assert_eq!(decimal_chars(407), vec!['4', '0', '7']);
}

#[test]
fn book_end_to_end() {
    let pre = NumThmPreprocessor::default();
    let mut chapters = vec![
        chapter("{{tref: prop:lagrange}}", Some("math/crypto/signatures/bls_signatures.md"), Some("2.1.")),
        chapter("{{prop}}{prop:lagrange}[Lagrange Theorem]", Some("math/algebra/groups.md"), Some("1.2.")),
        chapter("{{ref: prop:lagrange}} {{thm}}", None, None),
    ];
    let mut diags = Vec::new();
    pre.run(&mut chapters, &mut diags);
    assert_eq!(chapters[0].content, "[Lagrange Theorem](../../algebra/groups.md#prop:lagrange)");
    assert_eq!(
        chapters[1].content,
        "<a name=\"prop:lagrange\"></a>\n**Proposition 1 (Lagrange Theorem).**"
    );
    assert_eq!(chapters[2].content, "{{ref: prop:lagrange}} {{thm}}");
    assert!(diags.is_empty());
}

#[test]
fn prefix_mode_uses_section_numbers() {
    let pre = NumThmPreprocessor::new(Some(true), &Vec::new());
    let mut chapters = vec![
        chapter("{{thm}}{a}", Some("a.md"), Some("3.")),
        chapter("{{ref:a}} {{ref: b}}", Some("b.md"), None),
    ];
    let mut diags = Vec::new();
    pre.run(&mut chapters, &mut diags);
    assert_eq!(chapters[0].content, "<a name=\"a\"></a>\n**Theorem 3.1.**");
    assert_eq!(chapters[1].content, "[Theorem 3.1](a.md#a) **[??]**");
    assert_eq!(diags, vec![Diagnostic::UnknownReference { label: "b".to_string() }]);
}

#[test]
fn configuration_overrides() {
    let envs = vec![
        EnvConfig { key: "thm".to_string(), ignore: Some(true), name: None, emph: None },
        EnvConfig { key: "lem".to_string(), ignore: Some(false), name: Some("Lemme".to_string()), emph: None },
        EnvConfig { key: "conj".to_string(), ignore: None, name: None, emph: Some("_".to_string()) },
    ];
    let pre = NumThmPreprocessor::new(None, &envs);
    let mut chapters = vec![chapter("{{thm}} {{lem}} {{conj}} {{rem}}", Some("a.md"), Some("1."))];
    let mut diags = Vec::new();
    pre.run(&mut chapters, &mut diags);
    assert_eq!(chapters[0].content, "{{thm}} **Lemme 1.** _Environment 1._ *Remark 1.*");
}

#[test]
fn env_defaults() {
    assert_eq!(Env::name_default(), "Environment");
    assert_eq!(Env::emph_default(), "**");
    let e = Env::create("Claim", "*");
    assert_eq!(e.name, "Claim");
    assert_eq!(e.emph, "*");
    let mut envs = EnvMap::default();
    assert_eq!(envs.len(), 5);
    envs.remove("rem");
    assert_eq!(envs.len(), 4);
    assert!(envs.get("rem").is_none());
    assert_eq!(envs.get("def").unwrap().name, "Definition");
}

#[test]
fn registry_insert_keeps_first() {
    let mut refs = LabelRegistry::new();
    let first = LabelInfo { num_name: "Lemma 2".to_string(), path: "a.md".to_string(), title: Some("T".to_string()) };
    let second = LabelInfo { num_name: "Lemma 3".to_string(), path: "b.md".to_string(), title: None };
    assert!(refs.insert("l".to_string(), first));
    assert!(!refs.insert("l".to_string(), second));
    assert!(refs.contains_key(&"l".to_string()));
    assert!(!refs.contains_key(&"m".to_string()));
    assert_eq!(refs.get("l").unwrap().num_name, "Lemma 2");
    assert_eq!(refs.get("l").unwrap().title, Some("T".to_string()));
    assert!(refs.get("m").is_none());
}

#[test]
fn whitespace_after_colon_is_optional() {
    let mut refs = LabelRegistry::new();
    let mut diags = Vec::new();
    let envs = EnvMap::default();
    find_and_replace_envs("{{def}}{d}[Group]", "", "alg/groups.md", &envs, &mut refs, &mut diags);
    let out = find_and_replace_refs("{{ref:d}}, {{tref:\t d}}", "alg/rings.md", &refs, &mut diags);
    assert_eq!(out, "[Definition 1](groups.md#d), [Group](groups.md#d)");
}

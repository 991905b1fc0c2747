use mdbook_numthm::{
    find_and_replace_envs, find_and_replace_refs, Env, EnvMap, LabelInfo, LabelRegistry,
};

const SECNUM: &str = "1.2.";
const PATH: &str = "crypto/groups.md";

fn scan(input: &str, prefix: &str, path: &str, envs: &EnvMap, refs: &mut LabelRegistry) -> String {
    let mut diags = Vec::new();
    find_and_replace_envs(input, prefix, path, envs, refs, &mut diags)
}

fn resolve(input: &str, path: &str, refs: &LabelRegistry) -> String {
    let mut diags = Vec::new();
    find_and_replace_refs(input, path, refs, &mut diags)
}

#[test]
fn wo_label_wo_title() {
    let mut refs = LabelRegistry::new();
    let input = String::from(r"{{prop}}");
    let output = scan(&input, SECNUM, PATH, &EnvMap::default(), &mut refs);
    let expected = String::from("**Proposition 1.2.1.**");
    assert_eq!(output, expected);
    assert!(refs.is_empty());
}

#[test]
fn wo_label_wo_title_replace_default() {
    let mut env_map = EnvMap::default();
    env_map.insert(String::from("prop"), Env::create("Proposal", "*"));
    let mut refs = LabelRegistry::new();
    let input = String::from(r"{{prop}}");
    let output = scan(&input, SECNUM, PATH, &env_map, &mut refs);
    let expected = String::from("*Proposal 1.2.1.*");
    assert_eq!(output, expected);
    assert!(refs.is_empty());
}

#[test]
fn with_label_wo_title() {
    let mut refs = LabelRegistry::new();
    let input = String::from(r"{{prop}}{prop:lagrange}");
    let output = scan(&input, SECNUM, PATH, &EnvMap::default(), &mut refs);
    let expected = String::from(
        "<a name=\"prop:lagrange\"></a>\n\
        **Proposition 1.2.1.**",
    );
    assert_eq!(output, expected);
    assert_eq!(refs.len(), 1);
    assert_eq!(
        *refs.get("prop:lagrange").unwrap(),
        LabelInfo {
            num_name: "Proposition 1.2.1".to_string(),
            path: "crypto/groups.md".to_string(),
            title: None,
        }
    )
}

#[test]
fn wo_label_with_title() {
    let mut refs = LabelRegistry::new();
    let input = String::from(r"{{prop}}[Lagrange Theorem]");
    let output = scan(&input, SECNUM, PATH, &EnvMap::default(), &mut refs);
    let expected = String::from("**Proposition 1.2.1 (Lagrange Theorem).**");
    assert_eq!(output, expected);
    assert!(refs.is_empty());
}

#[test]
fn with_label_with_title() {
    let mut refs = LabelRegistry::new();
    let input = String::from(r"{{prop}}{prop:lagrange}[Lagrange Theorem]");
    let output = scan(&input, SECNUM, PATH, &EnvMap::default(), &mut refs);
    let expected = String::from(
        "<a name=\"prop:lagrange\"></a>\n\
        **Proposition 1.2.1 (Lagrange Theorem).**",
    );
    assert_eq!(output, expected);
}

#[test]
fn double_label() {
    let mut refs = LabelRegistry::new();
    let input = String::from(
        r"{{prop}}{prop:lagrange}[Lagrange Theorem] {{thm}}{prop:lagrange}[Another Lagrange Theorem]",
    );
    let output = scan(&input, SECNUM, PATH, &EnvMap::default(), &mut refs);
    let expected = String::from(
        "<a name=\"prop:lagrange\"></a>\n\
        **Proposition 1.2.1 (Lagrange Theorem).** \
        <a name=\"prop:lagrange\"></a>\n\
        **Theorem 1.2.1 (Another Lagrange Theorem).**",
    );
    assert_eq!(output, expected);
    assert_eq!(refs.len(), 1);
}

#[test]
fn label_and_ref_in_same_file() {
    let mut refs = LabelRegistry::new();
    let input = String::from(r"{{prop}}{prop:lagrange}[Lagrange Theorem] {{ref: prop:lagrange}}");
    let output = scan(&input, SECNUM, PATH, &EnvMap::default(), &mut refs);
    let output = resolve(&output, PATH, &refs);
    let expected = String::from(
        "<a name=\"prop:lagrange\"></a>\n\
        **Proposition 1.2.1 (Lagrange Theorem).** \
        [Proposition 1.2.1](#prop:lagrange)",
    );
    assert_eq!(output, expected);
}

#[test]
fn label_and_ref_in_different_files() {
    let mut refs = LabelRegistry::new();
    let label_file = "math/groups.md";
    let ref_file = "crypto/bls_signatures.md";
    let label_input = String::from(r"{{prop}}{prop:lagrange}[Lagrange Theorem]");
    let ref_input = String::from(r"{{ref: prop:lagrange}}");
    let _label_output = scan(&label_input, SECNUM, label_file, &EnvMap::default(), &mut refs);
    let ref_output = resolve(&ref_input, ref_file, &refs);
    let expected = String::from("[Proposition 1.2.1](../math/groups.md#prop:lagrange)");
    assert_eq!(ref_output, expected);
}

#[test]
fn label_and_ref_in_different_files_2() {
    let mut refs = LabelRegistry::new();
    let label_file = "math/algebra/groups.md";
    let ref_file = "math/crypto//signatures/bls_signatures.md";
    let label_input = String::from(r"{{prop}}{prop:lagrange}[Lagrange Theorem]");
    let ref_input = String::from(r"{{ref: prop:lagrange}}");
    let _label_output = scan(&label_input, SECNUM, label_file, &EnvMap::default(), &mut refs);
    let ref_output = resolve(&ref_input, ref_file, &refs);
    let expected = String::from("[Proposition 1.2.1](../../algebra/groups.md#prop:lagrange)");
    assert_eq!(ref_output, expected);
}

#[test]
fn title_ref() {
    let mut refs = LabelRegistry::new();
    let label_file = "math/algebra/groups.md";
    let ref_file = "math/crypto//signatures/bls_signatures.md";
    let label_input = String::from(r"{{prop}}{prop:lagrange}[Lagrange Theorem]");
    let ref_input = String::from(r"{{tref: prop:lagrange}}");
    let _label_output = scan(&label_input, SECNUM, label_file, &EnvMap::default(), &mut refs);
    let ref_output = resolve(&ref_input, ref_file, &refs);
    let expected = String::from("[Lagrange Theorem](../../algebra/groups.md#prop:lagrange)");
    assert_eq!(ref_output, expected);
}

#[test]
fn title_ref_without_title() {
    let mut refs = LabelRegistry::new();
    let label_file = "math/algebra/groups.md";
    let ref_file = "math/crypto//signatures/bls_signatures.md";
    let label_input = String::from(r"{{prop}}{prop:lagrange}");
    let ref_input = String::from(r"{{tref: prop:lagrange}}");
    let _label_output = scan(&label_input, SECNUM, label_file, &EnvMap::default(), &mut refs);
    let ref_output = resolve(&ref_input, ref_file, &refs);
    let expected = String::from("[Proposition 1.2.1](../../algebra/groups.md#prop:lagrange)");
    assert_eq!(ref_output, expected);
}

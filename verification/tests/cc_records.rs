use ruvex::CCVec;
use ruvex::Config;
use ruvex::ConventionalCommit;
use ruvex::ConventionalCommitParseError;
use ruvex::SemVerChangeType;

fn test_cc(cc_message: &str, cc_types: Vec<String>, sha: &str, cc_check: ConventionalCommit) {
    let cc = ConventionalCommit::new(
        cc_message,
        &Config {
            cc_types,
            check: None,
            tag: None,
            minor_trigger: vec!["feat".to_owned()],
            patch_trigger: vec!["fix".to_owned()],
        },
        sha.to_owned(),
    )
    .unwrap();
    assert_eq!(cc, cc_check);
}

fn test_cc_error(
    cc_message: &str,
    cc_types: Vec<String>,
    sha: &str,
    error: ConventionalCommitParseError,
) {
    let cc = ConventionalCommit::new(
        cc_message,
        &Config {
            cc_types,
            check: None,
            tag: None,
            minor_trigger: vec!["feat".to_owned()],
            patch_trigger: vec!["fix".to_owned()],
        },
        sha.to_owned(),
    );
    assert_eq!(cc.unwrap_err(), error);
}

#[test]
fn classic_cc() {
    let cc_message = "feat(optional scope): good commit\nthis is a classic commit";
    let cc_types: Vec<String> = ["feat"].into_iter().map(String::from).collect();
    let sha = "ababa";
    let cc = ConventionalCommit {
        commit_type: "feat".to_owned(),
        short_sha: "ababa".to_owned(),
        scope: Some("optional scope".to_owned()),
        change: SemVerChangeType::Minor,
        short_description: "good commit".to_owned(),
        body: Some("this is a classic commit".to_owned()),
        footer: None,
    };
    test_cc(cc_message, cc_types, sha, cc);
}

#[test]
fn sad_brackets() {
    let cc_message = "feat(opti(onal scope): good commit\nthis is a classic commit";
    let cc_types: Vec<String> = ["feat"].into_iter().map(String::from).collect();
    let sha = "ababa";
    let cc = ConventionalCommit {
        commit_type: "feat".to_owned(),
        short_sha: "ababa".to_owned(),
        scope: Some("optional scope".to_owned()),
        change: SemVerChangeType::Minor,
        short_description: "good commit".to_owned(),
        body: Some("this is a classic commit".to_owned()),
        footer: None,
    };
    test_cc(cc_message, cc_types, sha, cc);
    let cc_message = "feat(opti(onal sco)pe): good commit\nthis is a classic commit";
    let cc_types: Vec<String> = ["feat"].into_iter().map(String::from).collect();
    let sha = "ababa";
    let cc = ConventionalCommit {
        commit_type: "feat".to_owned(),
        short_sha: "ababa".to_owned(),
        scope: Some("optional scope".to_owned()),
        change: SemVerChangeType::Minor,
        short_description: "good commit".to_owned(),
        body: Some("this is a classic commit".to_owned()),
        footer: None,
    };
    test_cc(cc_message, cc_types, sha, cc);
}

#[test]
fn no_body() {
    let cc_message = "feat: good commit\n";
    let cc_types: Vec<String> = ["feat"].into_iter().map(String::from).collect();
    let sha = "ababa";
    let cc = ConventionalCommit {
        commit_type: "feat".to_owned(),
        short_sha: "ababa".to_owned(),
        scope: None,
        change: SemVerChangeType::Minor,
        short_description: "good commit".to_owned(),
        body: None,
        footer: None,
    };
    test_cc(cc_message, cc_types, sha, cc);
}

#[test]
fn breaking_change_symbol() {
    let cc_message = "feat!: good commit\n";
    let cc_types: Vec<String> = ["feat"].into_iter().map(String::from).collect();
    let sha = "ababa";
    let cc = ConventionalCommit {
        commit_type: "feat".to_owned(),
        short_sha: "ababa".to_owned(),
        scope: None,
        change: SemVerChangeType::Major,
        short_description: "good commit".to_owned(),
        body: None,
        footer: None,
    };
    test_cc(cc_message, cc_types, sha, cc);
}

#[test]
fn breaking_change_body() {
    let cc_message = "feat: good commit\nbodyisbody\n\nBREAKING-CHANGE: sad change";
    let cc_types: Vec<String> = ["feat"].into_iter().map(String::from).collect();
    let sha = "ababa";
    let cc = ConventionalCommit {
        commit_type: "feat".to_owned(),
        short_sha: "ababa".to_owned(),
        scope: None,
        change: SemVerChangeType::Major,
        short_description: "good commit".to_owned(),
        body: Some("bodyisbody".to_owned()),
        footer: Some("BREAKING-CHANGE: sad change".to_owned()),
    };
    test_cc(cc_message, cc_types, sha, cc);
}

#[test]
fn footer() {
    let cc_message = "feat: good commit\nbodyisbody\n\nchange: sad change";
    let cc_types: Vec<String> = ["feat"].into_iter().map(String::from).collect();
    let sha = "ababa";
    let cc = ConventionalCommit {
        commit_type: "feat".to_owned(),
        short_sha: "ababa".to_owned(),
        scope: None,
        change: SemVerChangeType::Minor,
        short_description: "good commit".to_owned(),
        body: Some("bodyisbody".to_owned()),
        footer: Some("change: sad change".to_owned()),
    };
    test_cc(cc_message, cc_types, sha, cc);
}

#[test]
fn missing_column() {
    let cc_message = "feat good commit\n";
    let cc_types: Vec<String> = ["feat"].into_iter().map(String::from).collect();
    let sha = "ababa";
    test_cc_error(
        cc_message,
        cc_types,
        sha,
        ConventionalCommitParseError::MissingColumn,
    );
}

#[test]
fn invalid_type() {
    let cc_message = "fea: good commit\n";
    let cc_types: Vec<String> = ["feat"].into_iter().map(String::from).collect();
    let sha = "ababa";
    test_cc_error(
        cc_message,
        cc_types.clone(),
        sha,
        ConventionalCommitParseError::InvalidType {
            expected: cc_types,
            found: "fea".to_owned(),
        },
    );
}

#[test]
fn empty_scope() {
    let cc_message = "feat(): good commit\n";
    let cc_types: Vec<String> = ["feat"].into_iter().map(String::from).collect();
    let sha = "ababa";
    test_cc_error(
        cc_message,
        cc_types.clone(),
        sha,
        ConventionalCommitParseError::EmptyScope,
    );
}

#[test]
fn breaking_change_edge_cases() {
    let cc = ConventionalCommit {
        commit_type: "feat".to_owned(),
        short_sha: "ababa".to_owned(),
        scope: None,
        change: SemVerChangeType::Major,
        short_description: "good commit".to_owned(),
        body: Some("bodyisbody".to_owned()),
        footer: Some("BREAKING-CHANGE: sad change".to_owned()),
    };

    assert!(cc.is_major());
    assert!(!cc.is_minor());
    assert!(!cc.is_patch());
}

#[test]
fn vector_of_cc_major() {
    let cc = ConventionalCommit {
        commit_type: "feat".to_owned(),
        short_sha: "ababa".to_owned(),
        scope: None,
        change: SemVerChangeType::Major,
        short_description: "good commit".to_owned(),
        body: Some("bodyisbody".to_owned()),
        footer: Some("BREAKING-CHANGE: sad change".to_owned()),
    };
    let cc2 = ConventionalCommit {
        commit_type: "feat".to_owned(),
        short_sha: "ababa".to_owned(),
        scope: None,
        change: SemVerChangeType::Minor,
        short_description: "good commit".to_owned(),
        body: Some("bodyisbody".to_owned()),
        footer: Some("BREAKING-CHANGE: sad change".to_owned()),
    };
    let cc3 = ConventionalCommit {
        commit_type: "fix".to_owned(),
        short_sha: "ababa".to_owned(),
        scope: None,
        change: SemVerChangeType::Minor,
        short_description: "good commit".to_owned(),
        body: Some("bodyisbody".to_owned()),
        footer: Some("test".to_owned()),
    };
    let vector: Vec<ConventionalCommit> = vec![cc, cc2, cc3];
    assert!(vector.is_major());
    assert!(!vector.is_minor());
    assert!(!vector.is_patch());
    assert!(vector.max_change() == SemVerChangeType::Major);
}

#[test]
fn vector_of_cc_minor() {
    let cc = ConventionalCommit {
        commit_type: "feat".to_owned(),
        short_sha: "ababa".to_owned(),
        scope: None,
        change: SemVerChangeType::Minor,
        short_description: "good commit".to_owned(),
        body: Some("bodyisbody".to_owned()),
        footer: Some("abababa".to_owned()),
    };
    let cc2 = ConventionalCommit {
        commit_type: "fix".to_owned(),
        short_sha: "ababa".to_owned(),
        scope: None,
        change: SemVerChangeType::Patch,
        short_description: "good commit".to_owned(),
        body: Some("bodyisbody".to_owned()),
        footer: Some("test".to_owned()),
    };
    let vector: Vec<ConventionalCommit> = vec![cc, cc2];
    assert!(!vector.is_major());
    assert!(vector.is_minor());
    assert!(!vector.is_patch());
    assert!(vector.max_change() == SemVerChangeType::Minor);
}

fn taxonomy() -> Config {
    Config {
        cc_types: vec!["feat".to_owned(), "fix".to_owned()],
        check: None,
        tag: None,
        minor_trigger: vec!["feat".to_owned()],
        patch_trigger: vec!["fix".to_owned()],
    }
}

#[test]
fn scoped_breaking_footer_example() {
    let cc = ConventionalCommit::new(
        "feat(scope): add x\nbody\n\nBREAKING-CHANGE: y",
        &taxonomy(),
        "sha".to_owned(),
    )
    .unwrap();
    assert_eq!(cc.commit_type, "feat");
    assert_eq!(cc.scope, Some("scope".to_owned()));
    assert_eq!(cc.change, SemVerChangeType::Major);
    assert_eq!(cc.short_description, "add x");
    assert_eq!(cc.body, Some("body".to_owned()));
    assert_eq!(cc.footer, Some("BREAKING-CHANGE: y".to_owned()));
}

#[test]
fn error_examples() {
    let cfg = taxonomy();
    assert_eq!(
        ConventionalCommit::new("feat good commit", &cfg, "s".to_owned()).unwrap_err(),
        ConventionalCommitParseError::MissingColumn
    );
    assert_eq!(
        ConventionalCommit::new("feat(): x", &cfg, "s".to_owned()).unwrap_err(),
        ConventionalCommitParseError::EmptyScope
    );
    let single: Config = Config {
        cc_types: vec!["feat".to_owned()],
        check: None,
        tag: None,
        minor_trigger: vec!["feat".to_owned()],
        patch_trigger: vec!["fix".to_owned()],
    };
    assert_eq!(
        ConventionalCommit::new("fea: x", &single, "s".to_owned()).unwrap_err(),
        ConventionalCommitParseError::InvalidType {
            expected: vec!["feat".to_owned()],
            found: "fea".to_owned(),
        }
    );
    assert_eq!(
        ConventionalCommit::new("feat:tight", &cfg, "s".to_owned()).unwrap_err(),
        ConventionalCommitParseError::NoSpaceAfterColumn
    );
}

#[test]
fn classification_is_deterministic() {
    let message = "feat(scope)!: twice\nsame body";
    let first = ConventionalCommit::new(message, &taxonomy(), "sha".to_owned());
    let second = ConventionalCommit::new(message, &taxonomy(), "sha".to_owned());
    assert_eq!(first.unwrap(), second.unwrap());
}

#[test]
fn summary_renders_back() {
    let cc = ConventionalCommit::new("feat!: short one\nwith a body", &taxonomy(), "s".to_owned())
        .unwrap();
    assert_eq!(cc.summary(), "feat!: short one\nwith a body");
    let plain = ConventionalCommit::new("fix: patch it", &taxonomy(), "s".to_owned()).unwrap();
    assert_eq!(plain.summary(), "fix: patch it");
}

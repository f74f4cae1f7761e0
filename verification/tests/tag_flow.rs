use ruvex::check_git_error;
use ruvex::check::check_outcome;
use ruvex::check::parse_commit_log;
use ruvex::check::return_nch;
use ruvex::check::CheckVerdict;
use ruvex::tag::latest_tag;
use ruvex::tag::next_version;
use ruvex::tag::parse_tags;
use ruvex::CCVec;
use ruvex::Config;
use ruvex::ConventionalCommit;
use ruvex::SemVer;
use ruvex::SemVerChangeType;
use ruvex::Tag;

fn max_of(tags: &[SemVer]) -> Option<&SemVer> {
    let mut best: Option<&SemVer> = None;
    for t in tags {
        best = match best {
            None => Some(t),
            Some(m) => {
                if t >= m {
                    Some(t)
                } else {
                    Some(m)
                }
            }
        };
    }
    best
}

#[test]
fn test_parse() {
    let control = "0.1.0\ntest";
    let tags = parse_tags(control);
    let result = SemVer {
        major: 0,
        minor: 1,
        patch: 0,
        pre_release: None,
        build_meta: None,
    };
    assert!(tags.len() == 1);
    assert!(tags[0] == result);
}

#[test]
fn test_parse_no_tags() {
    let control = "test\nababa\nnono";
    let tags = parse_tags(control);
    assert!(tags.is_empty());
    assert!(max_of(&tags).is_none());
    let control = "";
    let tags = parse_tags(control);
    assert!(tags.is_empty());
    assert!(max_of(&tags).is_none());
    let control = "0.0.0";
    let tags = parse_tags(control);
    assert!(tags.is_empty());
    assert!(max_of(&tags).is_none());
}

#[test]
fn latest() {
    let mut config = Config::default();
    let mut test_vec = vec![
        SemVer {
            major: 0,
            minor: 1,
            patch: 0,
            pre_release: Some("a1".to_owned()),
            build_meta: None,
        },
        SemVer {
            major: 0,
            minor: 1,
            patch: 0,
            pre_release: None,
            build_meta: None,
        },
    ];

    assert_eq!(test_vec[1], latest_tag(&test_vec, false, &config).unwrap());
    config.tag = Some(Tag {
        ignore_prereleases: None,
        merged: None,
        no_merged: None,
    });
    assert_eq!(test_vec[1], latest_tag(&test_vec, false, &config).unwrap());

    test_vec.push(SemVer {
        major: 0,
        minor: 1,
        patch: 1,
        pre_release: Some("a1".to_owned()),
        build_meta: None,
    });
    assert_eq!(test_vec[2], latest_tag(&test_vec, false, &config).unwrap());
    assert_eq!(test_vec[1], latest_tag(&test_vec, true, &config).unwrap());
    config.tag = Some(Tag {
        ignore_prereleases: Some(true),
        merged: None,
        no_merged: None,
    });
    assert_eq!(test_vec[1], latest_tag(&test_vec, false, &config).unwrap());
    config.tag = Some(Tag {
        ignore_prereleases: Some(false),
        merged: None,
        no_merged: None,
    });
    assert_eq!(test_vec[2], latest_tag(&test_vec, false, &config).unwrap());
}

fn commit_with(change: SemVerChangeType) -> ConventionalCommit {
    ConventionalCommit {
        commit_type: "feat".to_owned(),
        short_sha: "aaaa".to_owned(),
        scope: None,
        change,
        short_description: "d".to_owned(),
        body: None,
        footer: None,
    }
}

#[test]
fn aggregation_examples() {
    let v = vec![
        commit_with(SemVerChangeType::Minor),
        commit_with(SemVerChangeType::Patch),
        commit_with(SemVerChangeType::NoChange),
    ];
    assert_eq!(v.max_change(), SemVerChangeType::Minor);
    let w = vec![
        commit_with(SemVerChangeType::Major),
        commit_with(SemVerChangeType::Minor),
    ];
    assert_eq!(w.max_change(), SemVerChangeType::Major);
    let empty: Vec<ConventionalCommit> = vec![];
    assert_eq!(empty.max_change(), SemVerChangeType::NoChange);
}

#[test]
fn next_version_examples() {
    let base = "1.2.3".parse::<SemVer>().unwrap();
    let next = next_version(Some(base), SemVerChangeType::Minor);
    assert_eq!(next.format(), "1.3.0");

    let from_nothing = next_version(None, SemVerChangeType::Patch);
    assert_eq!(from_nothing.format(), "0.0.1");

    let pre = "1.2.3-rc.1".parse::<SemVer>().unwrap();
    let major = next_version(Some(pre), SemVerChangeType::Major);
    assert_eq!(major.format(), "2.0.0");

    let keep = "1.2.3-rc.1+b5".parse::<SemVer>().unwrap();
    let unchanged = next_version(Some(keep), SemVerChangeType::NoChange);
    assert_eq!(unchanged.format(), "1.2.3-rc.1+b5");
}

#[test]
fn git_error_verdict() {
    assert!(check_git_error(Vec::new()).is_ok());
    let e = check_git_error(b"fatal: not a git repository".to_vec()).unwrap_err();
    assert_eq!(e.stderr, b"fatal: not a git repository".to_vec());
}

#[test]
fn commit_log_partition() {
    let cfg = Config::default();
    let log = "\"abc1\nfeat: add x\"\n\"abc2\nnot conventional\"\n\"abc3\nfix: mend y\"\n";
    let (good, bad) = parse_commit_log(log, &cfg);
    assert_eq!(good.len(), 2);
    assert_eq!(good[0].commit_type, "feat");
    assert_eq!(good[0].short_sha, "abc1");
    assert_eq!(good[1].commit_type, "fix");
    assert_eq!(good[1].change, SemVerChangeType::Patch);
    assert_eq!(bad.len(), 1);
    assert_eq!(bad[0].short_sha, "abc2");
    assert_eq!(bad[0].message, "not conventional");
    assert_eq!(
        bad[0].error,
        ruvex::ConventionalCommitParseError::MissingColumn
    );
}

#[test]
fn outcome_rules() {
    assert_eq!(check_outcome(2, 0, true), CheckVerdict::AllGood);
    assert_eq!(check_outcome(2, 1, true), CheckVerdict::NotCompliant);
    assert_eq!(check_outcome(2, 1, false), CheckVerdict::AllGood);
    assert_eq!(check_outcome(0, 0, false), CheckVerdict::NoCommitsFound);
    assert_eq!(check_outcome(0, 1, false), CheckVerdict::NoCommitsFound);
}

#[test]
fn nch_breaks_lines() {
    assert_eq!(return_nch("abcdefg", 3), "abc\ndef\ng");
    assert_eq!(return_nch("ab", 3), "ab");
    assert_eq!(return_nch("", 5), "");
}

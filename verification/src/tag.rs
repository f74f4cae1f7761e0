//! From a tag list and a bump decision to the next version.

use vstd::prelude::*;
use crate::config::Config;
use crate::semver::SemVer;
use crate::semver::SemVerChangeType;
use crate::semver::SemVerView;
use crate::semver::semver_cmp;
use crate::semver::spec_parse_semver;
use crate::text::chars_to_string;
use crate::text::split_ch;
use crate::text::split_char;
use crate::text::str_to_chars;

verus! {

impl DeepView for SemVer {
    type V = SemVerView;

    open spec fn deep_view(&self) -> SemVerView {
        self@
    }
}

/// The all-zero version with no suffixes, which tag lists discard.
pub open spec fn is_zero_version(v: SemVerView) -> bool {
    &&& v.major == 0
    &&& v.minor == 0
    &&& v.patch == 0
    &&& v.pre_release is None
    &&& v.build_meta is None
}

/// The versions denoted by a list of tag lines: lines that the grammar
/// rejects are discarded, and so is the literal `0.0.0`.
pub open spec fn spec_parse_tags(lines: Seq<Seq<char>>) -> Seq<SemVerView>
    decreases lines.len(),
{
    if lines.len() == 0 {
        Seq::empty()
    } else {
        let front = spec_parse_tags(lines.drop_last());
        match spec_parse_semver(lines.last()) {
            Some(v) => if is_zero_version(v) {
                front
            } else {
                front.push(v)
            },
            None => front,
        }
    }
}

/// Reads a newline-separated tag list into versions, discarding entries the
/// grammar rejects and the literal `0.0.0`.
pub fn parse_tags(to_parse: &str) -> (r: Vec<SemVer>)
    ensures
        r.deep_view() == spec_parse_tags(split_ch(to_parse@, '\n')),
{
    let chars = str_to_chars(to_parse);
    let lines = split_char(&chars, '\n');
    let ghost slines = split_ch(to_parse@, '\n');
    let mut r: Vec<SemVer> = Vec::new();
    let mut k: usize = 0;
    proof {
        assert(slines.take(0) =~= Seq::<Seq<char>>::empty());
        assert(r.deep_view() =~= spec_parse_tags(slines.take(0)));
    }
    while k < lines.len()
        invariant
            k <= slines.len(),
            lines.deep_view() == slines,
            slines == split_ch(to_parse@, '\n'),
            r.deep_view() == spec_parse_tags(slines.take(k as int)),
        decreases slines.len() - k,
    {
        proof {
            assert(lines[k as int]@ == slines[k as int]);
            assert(slines.take(k + 1).drop_last() =~= slines.take(k as int));
            assert(slines.take(k + 1).last() == slines[k as int]);
        }
        let line = chars_to_string(&lines[k]);
        let ghost old_r = r.deep_view();
        match SemVer::parse(line.as_str()) {
            Ok(v) => {
                let zero = v.major == 0 && v.minor == 0 && v.patch == 0 && v.pre_release.is_none()
                    && v.build_meta.is_none();
                if !zero {
                    r.push(v);
                    proof {
                        assert(r.deep_view() =~= old_r.push(r@.last()@));
                    }
                }
            },
            Err(_) => {},
        }
        k = k + 1;
    }
    proof {
        assert(slines.take(slines.len() as int) =~= slines);
    }
    r
}

/// The latest tag of a list, scanned left to right: prerelease tags are
/// skipped when asked, and of tags with equal precedence the later one wins.
pub open spec fn spec_latest(tags: Seq<SemVer>, ignore_pre: bool) -> Option<SemVer>
    decreases tags.len(),
{
    if tags.len() == 0 {
        None
    } else {
        let front = spec_latest(tags.drop_last(), ignore_pre);
        let t = tags.last();
        if ignore_pre && t.pre_release is Some {
            front
        } else {
            match front {
                None => Some(t),
                Some(m) => if semver_cmp(t@, m@) >= 0 {
                    Some(t)
                } else {
                    Some(m)
                },
            }
        }
    }
}

/// Whether a tag takes part in the selection `spec_latest` makes.
pub open spec fn is_candidate(t: SemVer, ignore_pre: bool) -> bool {
    !(ignore_pre && t.pre_release is Some)
}

/// What `spec_latest` selects: nothing exactly when no tag is a candidate,
/// else a candidate that no candidate exceeds.
pub proof fn lemma_spec_latest(tags: Seq<SemVer>, ignore_pre: bool)
    ensures
        spec_latest(tags, ignore_pre) is None <==> forall|i: int|
            0 <= i < tags.len() ==> !is_candidate(#[trigger] tags[i], ignore_pre),
        spec_latest(tags, ignore_pre) matches Some(m) ==> {
            &&& exists|i: int|
                0 <= i < tags.len() && #[trigger] tags[i] == m && is_candidate(m, ignore_pre)
            &&& forall|i: int|
                0 <= i < tags.len() && is_candidate(#[trigger] tags[i], ignore_pre)
                    ==> semver_cmp(tags[i]@, m@) <= 0
        },
    decreases tags.len(),
{
    if tags.len() > 0 {
        lemma_spec_latest(tags.drop_last(), ignore_pre);
        let t = tags.last();
        let front = spec_latest(tags.drop_last(), ignore_pre);
        assert forall|i: int| 0 <= i < tags.len() - 1 implies tags[i]
            == tags.drop_last()[i] by {}
        match spec_latest(tags, ignore_pre) {
            Some(m) => {
                // The selected tag really stands in the list.
                if m == t && is_candidate(t, ignore_pre) {
                    assert(tags[tags.len() - 1] == m);
                } else {
                    assert(front == Some(m));
                    let w = choose|i: int|
                        0 <= i < tags.drop_last().len() && tags.drop_last()[i] == m
                            && is_candidate(m, ignore_pre);
                    assert(tags[w] == m);
                }
                // No candidate exceeds it.
                assert forall|i: int|
                    0 <= i < tags.len() && is_candidate(#[trigger] tags[i], ignore_pre) implies
                    semver_cmp(tags[i]@, m@) <= 0 by {
                    match front {
                        Some(m0) => {
                            crate::semver::lemma_semver_cmp_total(t@, m0@);
                            crate::semver::lemma_semver_cmp_total(t@, m@);
                            crate::semver::lemma_semver_cmp_total(tags[i]@, m@);
                            if i < tags.len() - 1 {
                                crate::semver::lemma_semver_cmp_total(tags[i]@, m0@);
                                crate::semver::lemma_semver_cmp_total(m0@, m@);
                                crate::semver::lemma_semver_cmp_trans(tags[i]@, m0@, m@);
                            }
                        },
                        None => {
                            crate::semver::lemma_semver_cmp_total(tags[i]@, m@);
                        },
                    }
                }
            },
            None => {},
        }
    }
}

/// Selects the latest tag: prereleases are skipped when the flag asks, or
/// when it does not and the configuration's default does.
pub fn latest_tag(tags: &Vec<SemVer>, ignore_prereleases: bool, config: &Config) -> (r: Option<
    SemVer,
>)
    ensures
        ({
            let effective = ignore_prereleases || (config.tag matches Some(t)
                && t.ignore_prereleases == Some(true));
            match r {
                Some(m) => spec_latest(tags@, effective) == Some(m),
                None => spec_latest(tags@, effective) is None,
            }
        }),
{
    let effective: bool = if ignore_prereleases {
        true
    } else {
        match &config.tag {
            Some(t) => match t.ignore_prereleases {
                Some(b) => b,
                None => false,
            },
            None => false,
        }
    };
    let mut best: Option<SemVer> = None;
    let mut i: usize = 0;
    proof {
        assert(tags@.take(0) =~= Seq::<SemVer>::empty());
    }
    while i < tags.len()
        invariant
            i <= tags@.len(),
            effective == (ignore_prereleases || (config.tag matches Some(t)
                && t.ignore_prereleases == Some(true))),
            match best {
                Some(m) => spec_latest(tags@.take(i as int), effective) == Some(m),
                None => spec_latest(tags@.take(i as int), effective) is None,
            },
        decreases tags@.len() - i,
    {
        proof {
            assert(tags@.take(i + 1).drop_last() =~= tags@.take(i as int));
            assert(tags@.take(i + 1).last() == tags@[i as int]);
        }
        let t = &tags[i];
        let skip_this = effective && t.pre_release.is_some();
        if !skip_this {
            match &best {
                None => {
                    best = Some(t.clone());
                },
                Some(m) => {
                    let c = t.compare(m);
                    if !matches!(c, core::cmp::Ordering::Less) {
                        best = Some(t.clone());
                    }
                },
            }
        }
        i = i + 1;
    }
    proof {
        assert(tags@.take(tags@.len() as int) =~= tags@);
    }
    best
}

/// The version that one bump step yields, prerelease and build metadata
/// dropped; no bump leaves the version as it stands.
pub open spec fn spec_next_version(latest: Option<SemVerView>, bump: SemVerChangeType)
    -> SemVerView {
    let base = match latest {
        Some(v) => v,
        None => SemVerView {
            major: 0,
            minor: 0,
            patch: 0,
            pre_release: None,
            build_meta: None,
        },
    };
    match bump {
        SemVerChangeType::Major => SemVerView {
            major: base.major + 1,
            minor: 0,
            patch: 0,
            pre_release: None,
            build_meta: None,
        },
        SemVerChangeType::Minor => SemVerView {
            major: base.major,
            minor: base.minor + 1,
            patch: 0,
            pre_release: None,
            build_meta: None,
        },
        SemVerChangeType::Patch => SemVerView {
            major: base.major,
            minor: base.minor,
            patch: base.patch + 1,
            pre_release: None,
            build_meta: None,
        },
        SemVerChangeType::NoChange => base,
    }
}

/// Raises the major number by one and resets the rest.
pub fn increase_major(to_increase: SemVer) -> (r: SemVer)
    requires
        to_increase.major < u128::MAX,
    ensures
        r@ == spec_next_version(Some(to_increase@), SemVerChangeType::Major),
{
    SemVer {
        major: to_increase.major + 1,
        minor: 0,
        patch: 0,
        pre_release: None,
        build_meta: None,
    }
}

/// Raises the minor number by one and resets what follows it.
pub fn increase_minor(to_increase: SemVer) -> (r: SemVer)
    requires
        to_increase.minor < u128::MAX,
    ensures
        r@ == spec_next_version(Some(to_increase@), SemVerChangeType::Minor),
{
    SemVer {
        major: to_increase.major,
        minor: to_increase.minor + 1,
        patch: 0,
        pre_release: None,
        build_meta: None,
    }
}

/// Raises the patch number by one and drops the suffixes.
pub fn increase_patch(to_increase: SemVer) -> (r: SemVer)
    requires
        to_increase.patch < u128::MAX,
    ensures
        r@ == spec_next_version(Some(to_increase@), SemVerChangeType::Patch),
{
    SemVer {
        major: to_increase.major,
        minor: to_increase.minor,
        patch: to_increase.patch + 1,
        pre_release: None,
        build_meta: None,
    }
}

/// One bump step on a version, as `spec_next_version` describes.
pub fn increase_semver(to_increase: SemVer, change: SemVerChangeType) -> (r: SemVer)
    requires
        change == SemVerChangeType::Major ==> to_increase.major < u128::MAX,
        change == SemVerChangeType::Minor ==> to_increase.minor < u128::MAX,
        change == SemVerChangeType::Patch ==> to_increase.patch < u128::MAX,
    ensures
        r@ == spec_next_version(Some(to_increase@), change),
{
    match change {
        SemVerChangeType::Major => increase_major(to_increase),
        SemVerChangeType::Minor => increase_minor(to_increase),
        SemVerChangeType::Patch => increase_patch(to_increase),
        SemVerChangeType::NoChange => to_increase,
    }
}

/// The next release version from the latest tag, if any, and the aggregated
/// bump; an absent latest tag counts as `0.0.0`.
pub fn next_version(latest: Option<SemVer>, bump: SemVerChangeType) -> (r: SemVer)
    requires
        ({
            let base_major = match latest {
                Some(ref v) => v.major as int,
                None => 0,
            };
            bump == SemVerChangeType::Major ==> base_major < u128::MAX
        }),
        ({
            let base_minor = match latest {
                Some(ref v) => v.minor as int,
                None => 0,
            };
            bump == SemVerChangeType::Minor ==> base_minor < u128::MAX
        }),
        ({
            let base_patch = match latest {
                Some(ref v) => v.patch as int,
                None => 0,
            };
            bump == SemVerChangeType::Patch ==> base_patch < u128::MAX
        }),
    ensures
        r@ == spec_next_version(
            match latest {
                Some(v) => Some(v@),
                None => None,
            },
            bump,
        ),
{
    let base = match latest {
        Some(v) => v,
        None => SemVer {
            major: 0,
            minor: 0,
            patch: 0,
            pre_release: None,
            build_meta: None,
        },
    };
    increase_semver(base, bump)
}

} // verus!

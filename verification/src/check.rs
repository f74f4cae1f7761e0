//! The history check: one raw log, one commit record or one recorded
//! failure per row, and the verdict over the whole partition.

use vstd::prelude::*;
use crate::cc::ConventionalCommit;
use crate::cc::ConventionalCommitView;
use crate::cc::spec_parse_commit;
use crate::config::Config;
use crate::errors::CommitParseErrorView;
use crate::errors::ConventionalCommitParseError;
use crate::text::chars_to_string;
use crate::text::find_first_char;
use crate::text::lemma_prefix_to;
use crate::text::prefix_to;
use crate::text::remove_ch;
use crate::text::remove_char;
use crate::text::split_pat;
use crate::text::split_pattern;
use crate::text::str_to_chars;
use crate::text::subvec;

verus! {

/// Re-breaks a message by inserting a line break before every `n`-th
/// character, counting from the start.
pub open spec fn nch_from(s: Seq<char>, n: nat, i: nat) -> Seq<char>
    recommends
        n > 0,
    decreases s.len(),
{
    if s.len() == 0 {
        s
    } else {
        (if i != 0 && i % n == 0 {
            seq!['\n']
        } else {
            Seq::<char>::empty()
        }) + seq![s[0]] + nch_from(s.drop_first(), n, i + 1)
    }
}

/// Breaks long report lines: a line break goes in before every `n_char`-th
/// character.
pub fn return_nch(to_parse: &str, n_char: usize) -> (r: String)
    requires
        n_char > 0,
    ensures
        r@ == nch_from(to_parse@, n_char as nat, 0),
{
    let chars = str_to_chars(to_parse);
    let ghost s = to_parse@;
    let mut out: Vec<char> = Vec::new();
    let mut i: usize = 0;
    proof {
        assert(s.skip(0) =~= s);
        assert(out@ + nch_from(s, n_char as nat, 0) =~= nch_from(s, n_char as nat, 0));
    }
    while i < chars.len()
        invariant
            n_char > 0,
            i <= s.len(),
            chars@ == s,
            nch_from(s, n_char as nat, 0) == out@ + nch_from(s.skip(i as int), n_char as nat,
                i as nat,
            ),
        decreases s.len() - i,
    {
        let ghost old_out = out@;
        proof {
            assert(s.skip(i as int)[0] == s[i as int]);
            assert(s.skip(i as int).drop_first() =~= s.skip(i + 1));
        }
        if i != 0 && i % n_char == 0 {
            out.push('\n');
        }
        out.push(chars[i]);
        proof {
            if i != 0 && i as nat % n_char as nat == 0 {
                assert(out@ =~= old_out + seq!['\n'] + seq![s[i as int]]);
            } else {
                assert(out@ =~= old_out + seq![s[i as int]]);
            }
            assert(out@ + nch_from(s.skip(i + 1), n_char as nat, (i + 1) as nat) =~= old_out
                + nch_from(s.skip(i as int), n_char as nat, i as nat));
        }
        i = i + 1;
    }
    proof {
        assert(s.skip(s.len() as int) =~= Seq::<char>::empty());
        assert(out@ =~= nch_from(s, n_char as nat, 0));
    }
    chars_to_string(&out)
}

/// One commit the check could not parse: its identifier, the raw message,
/// and why it was refused.
#[derive(Debug, PartialEq)]
pub struct BadCommit {
    pub short_sha: String,
    pub message: String,
    pub error: ConventionalCommitParseError,
}

/// Mathematical model of a recorded failure.
pub struct BadCommitView {
    pub short_sha: Seq<char>,
    pub message: Seq<char>,
    pub error: CommitParseErrorView,
}

impl View for BadCommit {
    type V = BadCommitView;

    open spec fn view(&self) -> BadCommitView {
        BadCommitView {
            short_sha: self.short_sha@,
            message: self.message@,
            error: self.error@,
        }
    }
}

impl DeepView for BadCommit {
    type V = BadCommitView;

    open spec fn deep_view(&self) -> BadCommitView {
        self@
    }
}

/// A well-formed log: every row before the first empty one carries a line
/// break between the identifier and the message.
pub open spec fn rows_wf(rows: Seq<Seq<char>>) -> bool
    decreases rows.len(),
{
    if rows.len() == 0 {
        true
    } else if rows[0].len() == 0 {
        true
    } else {
        rows[0].contains('\n') && rows_wf(rows.drop_first())
    }
}

/// The partition a log's rows denote: rows are read in order until the
/// first empty one; each row splits at its first line break into an
/// identifier, cleared of quotes, and a message, which parses into a commit
/// record or a recorded failure.
pub open spec fn spec_partition_rows(
    rows: Seq<Seq<char>>,
    cc_types: Seq<Seq<char>>,
    minor_trigger: Seq<Seq<char>>,
    patch_trigger: Seq<Seq<char>>,
) -> (Seq<ConventionalCommitView>, Seq<BadCommitView>)
    decreases rows.len(),
{
    if rows.len() == 0 {
        (Seq::empty(), Seq::empty())
    } else if rows[0].len() == 0 || !rows[0].contains('\n') {
        (Seq::empty(), Seq::empty())
    } else {
        let row = rows[0];
        let nl = prefix_to(row, '\n') as int;
        let sha = remove_ch(row.take(nl), '"');
        let m = row.skip(nl + 1);
        let rest = spec_partition_rows(rows.drop_first(), cc_types, minor_trigger, patch_trigger);
        match spec_parse_commit(m, cc_types, minor_trigger, patch_trigger, sha) {
            Ok(c) => (seq![c] + rest.0, rest.1),
            Err(e) => (
                rest.0,
                seq![BadCommitView { short_sha: sha, message: m, error: e }] + rest.1,
            ),
        }
    }
}

/// Reads a raw log into commit records and recorded failures, as
/// `spec_partition_rows` describes over the log's quote-delimited rows.
pub fn parse_commit_log(result: &str, config: &Config) -> (r: (
    Vec<ConventionalCommit>,
    Vec<BadCommit>,
))
    requires
        rows_wf(split_pat(result@, "\"\n"@)),
    ensures
        ({
            let parts = spec_partition_rows(
                split_pat(result@, "\"\n"@),
                config.cc_types.deep_view(),
                config.minor_trigger.deep_view(),
                config.patch_trigger.deep_view(),
            );
            r.0.deep_view() == parts.0 && r.1.deep_view() == parts.1
        }),
{
    let chars = str_to_chars(result);
    let row_sep = str_to_chars("\"\n");
    proof {
        reveal_strlit("\"\n");
    }
    let rows = split_pattern(&chars, &row_sep);
    let ghost srows = split_pat(result@, "\"\n"@);
    let ghost ty = config.cc_types.deep_view();
    let ghost mi = config.minor_trigger.deep_view();
    let ghost pa = config.patch_trigger.deep_view();

    let mut good: Vec<ConventionalCommit> = Vec::new();
    let mut bad: Vec<BadCommit> = Vec::new();
    let mut k: usize = 0;
    let mut done = false;
    proof {
        assert(srows.skip(0) =~~= srows);
        assert(good.deep_view() + spec_partition_rows(srows, ty, mi, pa).0
            =~~= spec_partition_rows(srows, ty, mi, pa).0);
        assert(bad.deep_view() + spec_partition_rows(srows, ty, mi, pa).1
            =~~= spec_partition_rows(srows, ty, mi, pa).1);
    }
    while !done && k < rows.len()
        invariant
            k <= srows.len(),
            rows.deep_view() == srows,
            srows == split_pat(result@, "\"\n"@),
            ty == config.cc_types.deep_view(),
            mi == config.minor_trigger.deep_view(),
            pa == config.patch_trigger.deep_view(),
            !done ==> rows_wf(srows.skip(k as int)),
            !done ==> spec_partition_rows(srows, ty, mi, pa).0 == good.deep_view()
                + spec_partition_rows(srows.skip(k as int), ty, mi, pa).0,
            !done ==> spec_partition_rows(srows, ty, mi, pa).1 == bad.deep_view()
                + spec_partition_rows(srows.skip(k as int), ty, mi, pa).1,
            done ==> spec_partition_rows(srows, ty, mi, pa).0 == good.deep_view(),
            done ==> spec_partition_rows(srows, ty, mi, pa).1 == bad.deep_view(),
        decreases srows.len() - k, if done { 0int } else { 1int },
    {
        proof {
            assert(srows.skip(k as int)[0] == srows[k as int]);
            assert(srows.skip(k as int).drop_first() =~= srows.skip(k + 1));
            assert(rows[k as int]@ == srows[k as int]);
        }
        let row = &rows[k];
        if row.len() == 0 {
            done = true;
            proof {
                assert(spec_partition_rows(srows.skip(k as int), ty, mi, pa).0
                    =~= Seq::<ConventionalCommitView>::empty());
                assert(good.deep_view() + spec_partition_rows(srows.skip(k as int), ty, mi, pa).0
                    =~~= good.deep_view());
                assert(bad.deep_view() + spec_partition_rows(srows.skip(k as int), ty, mi, pa).1
                    =~~= bad.deep_view());
            }
        } else {
            let ghost srow = srows[k as int];
            let nl_opt = find_first_char(row, '\n');
            let nl = match nl_opt {
                Some(i) => i,
                None => {
                    proof {
                        assert(false);
                    }
                    0
                },
            };
            proof {
                lemma_prefix_to(srow, '\n');
                assert(prefix_to(srow, '\n') == nl as int) by {
                    let q = prefix_to(srow, '\n');
                    if q < nl as int {
                        assert(srow[q as int] == '\n');
                    }
                }
            }
            let rl = row.len();
            let sha_raw = subvec(row, 0, nl);
            let m = subvec(row, nl + 1, rl);
            proof {
                assert(sha_raw@ =~= srow.take(nl as int));
                assert(m@ =~= srow.skip(nl + 1));
            }
            let sha_chars = remove_char(&sha_raw, '"');
            let sha_str = chars_to_string(&sha_chars);
            let m_str = chars_to_string(&m);
            let ghost old_good = good.deep_view();
            let ghost old_bad = bad.deep_view();
            match ConventionalCommit::new(m_str.as_str(), config, sha_str) {
                Ok(c) => {
                    good.push(c);
                    proof {
                        assert(good.deep_view() =~~= old_good.push(good@.last()@));
                        assert(old_good + (seq![good@.last()@] + spec_partition_rows(
                            srows.skip(k + 1),
                            ty,
                            mi,
                            pa,
                        ).0) =~~= good.deep_view() + spec_partition_rows(
                            srows.skip(k + 1),
                            ty,
                            mi,
                            pa,
                        ).0);
                    }
                },
                Err(e) => {
                    let sha_str2 = chars_to_string(&sha_chars);
                    let m_str2 = chars_to_string(&m);
                    bad.push(BadCommit { short_sha: sha_str2, message: m_str2, error: e });
                    proof {
                        assert(bad.deep_view() =~~= old_bad.push(bad@.last()@));
                        assert(old_bad + (seq![bad@.last()@] + spec_partition_rows(
                            srows.skip(k + 1),
                            ty,
                            mi,
                            pa,
                        ).1) =~~= bad.deep_view() + spec_partition_rows(
                            srows.skip(k + 1),
                            ty,
                            mi,
                            pa,
                        ).1);
                    }
                },
            }
            k = k + 1;
        }
    }
    proof {
        if !done {
            assert(srows.skip(k as int).len() == 0);
            assert(spec_partition_rows(srows.skip(k as int), ty, mi, pa).0
                =~= Seq::<ConventionalCommitView>::empty());
            assert(good.deep_view() + spec_partition_rows(srows.skip(k as int), ty, mi, pa).0
                =~~= good.deep_view());
            assert(bad.deep_view() + spec_partition_rows(srows.skip(k as int), ty, mi, pa).1
                =~~= bad.deep_view());
        }
    }
    (good, bad)
}

/// What a finished check amounts to.
#[derive(Debug, Clone, Copy, PartialEq, Eq, Structural)]
pub enum CheckVerdict {
    /// Every commit parsed and none was refused, or failures are tolerated.
    AllGood,
    /// Failures were found and the caller asked them to count.
    NotCompliant,
    /// Nothing parsed at all: the log yielded no commit.
    NoCommitsFound,
}

/// The verdict over a finished partition: failures count only when asked;
/// with none counting, an empty yield is its own failure.
pub fn check_outcome(n_good: usize, n_bad: usize, raise_error: bool) -> (r: CheckVerdict)
    ensures
        r == CheckVerdict::NotCompliant <==> n_bad > 0 && raise_error,
        r == CheckVerdict::NoCommitsFound <==> !(n_bad > 0 && raise_error) && n_good == 0,
        r == CheckVerdict::AllGood <==> !(n_bad > 0 && raise_error) && n_good > 0,
{
    if n_bad > 0 && raise_error {
        CheckVerdict::NotCompliant
    } else if n_good == 0 {
        CheckVerdict::NoCommitsFound
    } else {
        CheckVerdict::AllGood
    }
}

} // verus!

//! The conventional-commit record and its parser, with the per-commit
//! change classification.

use vstd::prelude::*;
use crate::config::contains_str;
use crate::config::Config;
use crate::errors::CommitParseErrorView;
use crate::errors::ConventionalCommitParseError;
use crate::semver::SemVerChangeType;
use crate::semver::opt_view;
use crate::text::chars_to_string;
use crate::text::clone_string_vec;
use crate::text::contains_char;
use crate::text::contains_pat;
use crate::text::contains_seq;
use crate::text::find_first_char;
use crate::text::find_last_char;
use crate::text::find_pat;
use crate::text::first_match;
use crate::text::last_ix;
use crate::text::lemma_first_match;
use crate::text::lemma_last_ix;
use crate::text::lemma_prefix_to;
use crate::text::prefix_to;
use crate::text::remove_ch;
use crate::text::remove_char;
use crate::text::str_to_chars;
use crate::text::subvec;

verus! {

/// One commit message, parsed into its conventional-commit parts and
/// classified by the severity of the change it announces.
#[derive(Debug, PartialEq)]
pub struct ConventionalCommit {
    pub commit_type: String,
    pub short_sha: String,
    pub scope: Option<String>,
    pub change: SemVerChangeType,
    pub short_description: String,
    pub body: Option<String>,
    pub footer: Option<String>,
}

/// Mathematical model of a commit record, over character sequences.
pub struct ConventionalCommitView {
    pub commit_type: Seq<char>,
    pub short_sha: Seq<char>,
    pub scope: Option<Seq<char>>,
    pub change: SemVerChangeType,
    pub short_description: Seq<char>,
    pub body: Option<Seq<char>>,
    pub footer: Option<Seq<char>>,
}

impl DeepView for ConventionalCommit {
    type V = ConventionalCommitView;

    open spec fn deep_view(&self) -> ConventionalCommitView {
        self@
    }
}

impl View for ConventionalCommit {
    type V = ConventionalCommitView;

    open spec fn view(&self) -> ConventionalCommitView {
        ConventionalCommitView {
            commit_type: self.commit_type@,
            short_sha: self.short_sha@,
            scope: opt_view(self.scope),
            change: self.change,
            short_description: self.short_description@,
            body: opt_view(self.body),
            footer: opt_view(self.footer),
        }
    }
}

/// Scope extraction from the header before the colon: the span from the
/// first `(` to the last `)` after it is cut out of the header, and the
/// scope is that span with all parentheses removed.
pub open spec fn spec_extract_scope(h: Seq<char>) -> (Seq<char>, Option<Seq<char>>) {
    let i = prefix_to(h, '(') as int;
    let j = last_ix(h, ')');
    if i < h.len() && j > i {
        (
            h.take(i) + h.skip(j + 1),
            Some(remove_ch(remove_ch(h.subrange(i, j + 1), '('), ')')),
        )
    } else {
        (h, None)
    }
}

/// What a raw message denotes under a taxonomy. In order: a message without
/// `:` is refused; one holding a literal `()` is refused; the message splits
/// at the first `": "` into header and remainder, or is refused; the header
/// loses its parenthesized scope; a trailing `!` marks a breaking change and
/// every `!` leaves the type token, which must then be an allowed type;
/// otherwise the trigger sets classify the change; the remainder splits at
/// the first line break into description and body, the body at the first
/// blank line into body and footer, empty halves normalizing to absent; a
/// breaking-change marker in the footer overrides the classification.
pub open spec fn spec_parse_commit(
    msg: Seq<char>,
    cc_types: Seq<Seq<char>>,
    minor_trigger: Seq<Seq<char>>,
    patch_trigger: Seq<Seq<char>>,
    sha: Seq<char>,
) -> Result<ConventionalCommitView, CommitParseErrorView> {
    if !msg.contains(':') {
        Err(CommitParseErrorView::MissingColumn)
    } else if contains_seq(msg, "()"@) {
        Err(CommitParseErrorView::EmptyScope)
    } else {
        match first_match(msg, ": "@) {
            None => Err(CommitParseErrorView::NoSpaceAfterColumn),
            Some(ix) => {
                let header = msg.take(ix);
                let rest = msg.skip(ix + 2);
                let (stripped, scope) = spec_extract_scope(header);
                let bang = stripped.len() > 0 && stripped.last() == '!';
                let ctype = if bang {
                    remove_ch(stripped, '!')
                } else {
                    stripped
                };
                let base_change = if bang {
                    SemVerChangeType::Major
                } else if contains_str(minor_trigger, ctype) {
                    SemVerChangeType::Minor
                } else if contains_str(patch_trigger, ctype) {
                    SemVerChangeType::Patch
                } else {
                    SemVerChangeType::NoChange
                };
                if !contains_str(cc_types, ctype) {
                    Err(CommitParseErrorView::InvalidType { expected: cc_types, found: ctype })
                } else {
                    let dp = prefix_to(rest, '\n') as int;
                    let desc = rest.take(dp);
                    let long = rest.skip(dp + 1);
                    let body0 = if dp < rest.len() && long.len() > 0 {
                        Some(long)
                    } else {
                        None
                    };
                    let split = match body0 {
                        Some(text) => match first_match(text, "\n\n"@) {
                            Some(fp) => {
                                let tail = text.skip(fp + 2);
                                (
                                    Some(text.take(fp)),
                                    if tail.len() == 0 {
                                        None
                                    } else {
                                        Some(tail)
                                    },
                                )
                            },
                            None => (Some(text), None),
                        },
                        None => (None, None),
                    };
                    let change = match split.1 {
                        Some(ft) => if contains_seq(ft, "BREAKING-CHANGE: "@) || contains_seq(
                            ft,
                            "BREAKING CHANGE: "@,
                        ) {
                            SemVerChangeType::Major
                        } else {
                            base_change
                        },
                        None => base_change,
                    };
                    Ok(
                        ConventionalCommitView {
                            commit_type: ctype,
                            short_sha: sha,
                            scope,
                            change,
                            short_description: desc,
                            body: split.0,
                            footer: split.1,
                        },
                    )
                }
            },
        }
    }
}

/// Classifying a message is a function of the message, the taxonomy and the
/// identifier alone: two results of the same inputs are the same result.
pub proof fn lemma_parse_commit_deterministic(
    msg: Seq<char>,
    cc_types: Seq<Seq<char>>,
    minor_trigger: Seq<Seq<char>>,
    patch_trigger: Seq<Seq<char>>,
    sha: Seq<char>,
    r1: Result<ConventionalCommitView, CommitParseErrorView>,
    r2: Result<ConventionalCommitView, CommitParseErrorView>,
)
    requires
        r1 == spec_parse_commit(msg, cc_types, minor_trigger, patch_trigger, sha),
        r2 == spec_parse_commit(msg, cc_types, minor_trigger, patch_trigger, sha),
    ensures
        r1 == r2,
{
}

impl ConventionalCommit {
    /// True when this commit was classified as a patch-level change
    /// (mirroring the historical reading of the minor classification).
    pub fn is_patch(&self) -> (b: bool)
        ensures
            b == (self.change == SemVerChangeType::Minor),
    {
        self.change == SemVerChangeType::Minor
    }

    /// True when this commit was classified as a minor change.
    pub fn is_minor(&self) -> (b: bool)
        ensures
            b == (self.change == SemVerChangeType::Minor),
    {
        self.change == SemVerChangeType::Minor
    }

    /// True when this commit announces a breaking change.
    pub fn is_major(&self) -> (b: bool)
        ensures
            b == (self.change == SemVerChangeType::Major),
    {
        self.change == SemVerChangeType::Major
    }

    /// Parses one raw commit message against the configured taxonomy, as
    /// `spec_parse_commit` describes.
    pub fn new(to_parse: &str, config: &Config, short_sha: String) -> (r: Result<
        Self,
        ConventionalCommitParseError,
    >)
        ensures
            match r {
                Ok(c) => spec_parse_commit(
                    to_parse@,
                    config.cc_types.deep_view(),
                    config.minor_trigger.deep_view(),
                    config.patch_trigger.deep_view(),
                    short_sha@,
                ) == Ok::<ConventionalCommitView, CommitParseErrorView>(c@),
                Err(e) => spec_parse_commit(
                    to_parse@,
                    config.cc_types.deep_view(),
                    config.minor_trigger.deep_view(),
                    config.patch_trigger.deep_view(),
                    short_sha@,
                ) == Err::<ConventionalCommitView, CommitParseErrorView>(e@),
            },
    {
        let chars = str_to_chars(to_parse);
        let ghost msg = to_parse@;

        if !contains_char(&chars, ':') {
            return Err(ConventionalCommitParseError::MissingColumn);
        }
        let empty_scope_pat = str_to_chars("()");
        if contains_pat(&chars, &empty_scope_pat) {
            return Err(ConventionalCommitParseError::EmptyScope);
        }
        let sep = str_to_chars(": ");
        let ix = match find_pat(&chars, &sep) {
            Some(i) => i,
            None => {
                return Err(ConventionalCommitParseError::NoSpaceAfterColumn);
            },
        };
        let n = chars.len();
        proof {
            reveal_strlit(": ");
            lemma_first_match(msg, ": "@);
            assert(ix + 2 <= msg.len());
        }
        let header = subvec(&chars, 0, ix);
        let rest = subvec(&chars, ix + 2, n);
        proof {
            assert(header@ =~= msg.take(ix as int));
            assert(rest@ =~= msg.skip(ix + 2));
        }

        // Cut the parenthesized scope out of the header.
        let i_opt = find_first_char(&header, '(');
        let j_opt = find_last_char(&header, ')');
        proof {
            lemma_prefix_to(header@, '(');
            lemma_last_ix(header@, ')');
            match i_opt {
                Some(i) => {
                    assert(prefix_to(header@, '(') == i as int) by {
                        let k = prefix_to(header@, '(');
                        if k < i as int {
                            assert(header@[k as int] == '(');
                        }
                    }
                },
                None => {
                    assert(prefix_to(header@, '(') == header@.len()) by {
                        let k = prefix_to(header@, '(');
                        if k < header@.len() {
                            assert(header@.contains('(')) by {
                                assert(header@[k as int] == '(');
                            }
                        }
                    }
                },
            }
            match j_opt {
                Some(j) => {
                    assert(header@.contains(')')) by {
                        assert(header@[j as int] == ')');
                    }
                    assert(last_ix(header@, ')') == j as int) by {
                        let k = last_ix(header@, ')');
                        if k > j as int {
                            assert(header@[k as int] == ')');
                        }
                    }
                },
                None => {
                    assert(last_ix(header@, ')') == -1);
                },
            }
        }
        let (stripped, scope_chars): (Vec<char>, Option<Vec<char>>) = match (i_opt, j_opt) {
            (Some(i), Some(j)) => {
                if j > i {
                    let mut left = subvec(&header, 0, i);
                    let mut right = subvec(&header, j + 1, header.len());
                    left.append(&mut right);
                    let span = subvec(&header, i, j + 1);
                    let cleaned = remove_char(&remove_char(&span, '('), ')');
                    proof {
                        assert(left@ =~= header@.take(i as int) + header@.skip(j + 1));
                    }
                    (left, Some(cleaned))
                } else {
                    (header, None)
                }
            },
            _ => (header, None),
        };
        let ghost spec_scope = spec_extract_scope(msg.take(ix as int));
        proof {
            assert(stripped@ == spec_scope.0);
            match &scope_chars {
                Some(sc) => {
                    assert(spec_scope.1 == Some(sc@));
                },
                None => {
                    assert(spec_scope.1 is None);
                },
            }
        }

        // A trailing '!' marks a breaking change and every '!' leaves the
        // type token.
        let bang = stripped.len() > 0 && stripped[stripped.len() - 1] == '!';
        let ctype = if bang {
            remove_char(&stripped, '!')
        } else {
            stripped
        };

        let base_change = if bang {
            SemVerChangeType::Major
        } else if crate::config::list_contains_chars(&config.minor_trigger, &ctype) {
            SemVerChangeType::Minor
        } else if crate::config::list_contains_chars(&config.patch_trigger, &ctype) {
            SemVerChangeType::Patch
        } else {
            SemVerChangeType::NoChange
        };

        if !crate::config::list_contains_chars(&config.cc_types, &ctype) {
            return Err(
                ConventionalCommitParseError::InvalidType {
                    expected: clone_string_vec(&config.cc_types),
                    found: chars_to_string(&ctype),
                },
            );
        }

        // Description, body and footer.
        let dp_opt = find_first_char(&rest, '\n');
        let dp = match dp_opt {
            Some(i) => i,
            None => rest.len(),
        };
        proof {
            lemma_prefix_to(rest@, '\n');
            match dp_opt {
                Some(i) => {
                    assert(prefix_to(rest@, '\n') == i as int) by {
                        let k = prefix_to(rest@, '\n');
                        if k < i as int {
                            assert(rest@[k as int] == '\n');
                        }
                    }
                },
                None => {
                    assert(prefix_to(rest@, '\n') == rest@.len()) by {
                        let k = prefix_to(rest@, '\n');
                        if k < rest@.len() {
                            assert(rest@.contains('\n')) by {
                                assert(rest@[k as int] == '\n');
                            }
                        }
                    }
                },
            }
        }
        let desc = subvec(&rest, 0, dp);
        proof {
            assert(desc@ =~= rest@.take(dp as int));
            if dp < rest.len() {
                assert(rest@.skip(dp + 1) =~= rest@.subrange(dp + 1, rest@.len() as int));
            }
        }
        let body0: Option<Vec<char>> = if dp < rest.len() && rest.len() - (dp + 1) > 0 {
            Some(subvec(&rest, dp + 1, rest.len()))
        } else {
            None
        };
        proof {
            if dp < rest.len() && rest@.skip(dp + 1).len() > 0 {
                assert(body0->Some_0@ =~= rest@.skip(dp + 1));
            }
        }

        let blank = str_to_chars("\n\n");
        let (body, footer): (Option<Vec<char>>, Option<Vec<char>>) = match &body0 {
            Some(text) => {
                match find_pat(text, &blank) {
                    Some(fp) => {
                        proof {
                            reveal_strlit("\n\n");
                            lemma_first_match(text@, "\n\n"@);
                        }
                        let short = subvec(text, 0, fp);
                        let tail_len = text.len() - (fp + 2);
                        proof {
                            assert(short@ =~= text@.take(fp as int));
                            assert(text@.skip(fp + 2) =~= text@.subrange(
                                fp + 2,
                                text@.len() as int,
                            ));
                        }
                        if tail_len == 0 {
                            (Some(short), None)
                        } else {
                            let tail = subvec(text, fp + 2, text.len());
                            proof {
                                assert(tail@ =~= text@.skip(fp + 2));
                            }
                            (Some(short), Some(tail))
                        }
                    },
                    None => (Some(subvec(text, 0, text.len())), None),
                }
            },
            None => (None, None),
        };
        proof {
            match &body0 {
                Some(text) => {
                    assert(text@.subrange(0, text@.len() as int) =~= text@);
                },
                None => {},
            }
        }

        // A breaking-change marker in the footer overrides the
        // classification.
        let marker_a = str_to_chars("BREAKING-CHANGE: ");
        let marker_b = str_to_chars("BREAKING CHANGE: ");
        let change = match &footer {
            Some(ft) => {
                if contains_pat(ft, &marker_a) || contains_pat(ft, &marker_b) {
                    SemVerChangeType::Major
                } else {
                    base_change
                }
            },
            None => base_change,
        };

        let scope: Option<String> = match &scope_chars {
            Some(sc) => Some(chars_to_string(sc)),
            None => None,
        };
        let body_str: Option<String> = match &body {
            Some(b) => Some(chars_to_string(b)),
            None => None,
        };
        let footer_str: Option<String> = match &footer {
            Some(f) => Some(chars_to_string(f)),
            None => None,
        };
        Ok(
            ConventionalCommit {
                commit_type: chars_to_string(&ctype),
                short_sha,
                scope,
                change,
                short_description: chars_to_string(&desc),
                body: body_str,
                footer: footer_str,
            },
        )
    }
}

impl Clone for ConventionalCommit {
    /// A clone carries exactly the same seven components.
    fn clone(&self) -> (res: Self)
        ensures
            res == *self,
    {
        ConventionalCommit {
            commit_type: self.commit_type.clone(),
            short_sha: self.short_sha.clone(),
            scope: match &self.scope {
                Some(s) => Some(s.clone()),
                None => None,
            },
            change: self.change,
            short_description: self.short_description.clone(),
            body: match &self.body {
                Some(b) => Some(b.clone()),
                None => None,
            },
            footer: match &self.footer {
                Some(f) => Some(f.clone()),
                None => None,
            },
        }
    }
}

/// The highest change severity across a sequence of commits; an empty
/// sequence counts as no change.
pub open spec fn spec_max_change(s: Seq<ConventionalCommit>) -> SemVerChangeType
    decreases s.len(),
{
    if s.len() == 0 {
        SemVerChangeType::NoChange
    } else {
        let rest = spec_max_change(s.drop_first());
        if s[0].change.rank() >= rest.rank() {
            s[0].change
        } else {
            rest
        }
    }
}

/// Aggregate classification of a whole commit range.
pub trait CCVec {
    /// True when every commit in the range is a patch-level change.
    fn is_patch(&self) -> bool;

    /// True when some commit is a minor change and none is breaking.
    fn is_minor(&self) -> bool;

    /// True when some commit announces a breaking change.
    fn is_major(&self) -> bool;

    /// The highest change severity across the range.
    fn max_change(&self) -> SemVerChangeType;
}

impl CCVec for Vec<ConventionalCommit> {
    fn is_patch(&self) -> (b: bool)
        ensures
            b == ((forall|i: int|
                0 <= i < self@.len() ==> (#[trigger] self@[i]).change
                    == SemVerChangeType::Minor) && !(exists|i: int|
                0 <= i < self@.len() && (#[trigger] self@[i]).change
                    == SemVerChangeType::Major)),
    {
        let mut i: usize = 0;
        let mut all_patch = true;
        while i < self.len()
            invariant
                i <= self@.len(),
                all_patch == forall|j: int|
                    0 <= j < i ==> (#[trigger] self@[j]).change == SemVerChangeType::Minor,
            decreases self@.len() - i,
        {
            if !(self[i].change == SemVerChangeType::Minor) {
                all_patch = false;
            }
            i = i + 1;
        }
        all_patch && !self.is_major()
    }

    fn is_minor(&self) -> (b: bool)
        ensures
            b == ((exists|i: int|
                0 <= i < self@.len() && (#[trigger] self@[i]).change
                    == SemVerChangeType::Minor) && !(exists|i: int|
                0 <= i < self@.len() && (#[trigger] self@[i]).change
                    == SemVerChangeType::Major)),
    {
        let mut i: usize = 0;
        let mut any_minor = false;
        while i < self.len()
            invariant
                i <= self@.len(),
                any_minor == exists|j: int|
                    0 <= j < i && (#[trigger] self@[j]).change == SemVerChangeType::Minor,
            decreases self@.len() - i,
        {
            if self[i].change == SemVerChangeType::Minor {
                any_minor = true;
            }
            i = i + 1;
        }
        any_minor && !self.is_major()
    }

    fn is_major(&self) -> (b: bool)
        ensures
            b == exists|i: int|
                0 <= i < self@.len() && (#[trigger] self@[i]).change == SemVerChangeType::Major,
    {
        let mut i: usize = 0;
        while i < self.len()
            invariant
                i <= self@.len(),
                forall|j: int|
                    0 <= j < i ==> (#[trigger] self@[j]).change != SemVerChangeType::Major,
            decreases self@.len() - i,
        {
            if self[i].change == SemVerChangeType::Major {
                return true;
            }
            i = i + 1;
        }
        false
    }

    fn max_change(&self) -> (r: SemVerChangeType)
        ensures
            r == spec_max_change(self@),
    {
        let mut i: usize = self.len();
        let mut r = SemVerChangeType::NoChange;
        proof {
            assert(self@.skip(self@.len() as int) =~= Seq::<ConventionalCommit>::empty());
        }
        while i > 0
            invariant
                i <= self@.len(),
                r == spec_max_change(self@.skip(i as int)),
            decreases i,
        {
            i = i - 1;
            proof {
                assert(self@.skip(i as int)[0] == self@[i as int]);
                assert(self@.skip(i as int).drop_first() =~= self@.skip(i + 1));
            }
            r = self[i].change.max_severity(r);
        }
        proof {
            assert(self@.skip(0) =~= self@);
        }
        r
    }
}


/// The one-line summary of a commit: the type token, an exclamation mark on
/// a breaking change, the description, and the body on its own line.
pub open spec fn spec_summary(c: ConventionalCommitView) -> Seq<char> {
    c.commit_type + (if c.change == SemVerChangeType::Major {
        seq!['!']
    } else {
        Seq::<char>::empty()
    }) + ": "@ + c.short_description + (match c.body {
        Some(b) => seq!['\n'] + b,
        None => Seq::<char>::empty(),
    })
}

impl ConventionalCommit {
    /// Writes the commit back in its short conventional form.
    pub fn summary(&self) -> (r: String)
        ensures
            r@ == spec_summary(self@),
    {
        let mut out = str_to_chars(self.commit_type.as_str());
        if self.is_major() {
            out.push('!');
        }
        let mut sep2 = str_to_chars(": ");
        out.append(&mut sep2);
        let mut desc = str_to_chars(self.short_description.as_str());
        out.append(&mut desc);
        match &self.body {
            Some(b) => {
                out.push('\n');
                let mut body_part = str_to_chars(b.as_str());
                out.append(&mut body_part);
            },
            None => {},
        }
        proof {
            assert(out@ =~= spec_summary(self@));
        }
        chars_to_string(&out)
    }
}

/// The aggregate severity over a commit range never falls below any single
/// commit's severity, and is itself the severity of some commit in the
/// range whenever the range is not empty.
pub proof fn lemma_max_change_bounds(s: Seq<ConventionalCommit>)
    ensures
        forall|i: int|
            0 <= i < s.len() ==> (#[trigger] s[i]).change.rank() <= spec_max_change(s).rank(),
        s.len() > 0 ==> exists|i: int| 0 <= i < s.len() && (#[trigger] s[i]).change
            == spec_max_change(s),
    decreases s.len(),
{
    if s.len() > 0 {
        lemma_max_change_bounds(s.drop_first());
        assert forall|i: int| 1 <= i < s.len() implies s[i] == s.drop_first()[i - 1] by {}
        let rest = spec_max_change(s.drop_first());
        if s.drop_first().len() > 0 {
            let w = choose|i: int|
                0 <= i < s.drop_first().len() && s.drop_first()[i].change == rest;
            if s[0].change.rank() >= rest.rank() {
                assert(s[0].change == spec_max_change(s));
            } else {
                assert(s[w + 1].change == spec_max_change(s));
            }
        }
    }
}

} // verus!

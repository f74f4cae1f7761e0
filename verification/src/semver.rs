//! The semantic-version value type: grammar, exact-format round trip and
//! change classification.

use vstd::prelude::*;
use crate::numerals::all_digits;
use crate::numerals::digits_of;
use crate::numerals::digits_val;
use crate::numerals::is_digit;
use crate::numerals::is_num_id;
use crate::numerals::parse_u128;
use crate::numerals::u128_to_chars;
use crate::numerals::lemma_digits_of_val;
use crate::text::chars_to_string;
use crate::text::find_first_char;
use crate::text::lemma_prefix_to;
use crate::text::lemma_lex_cmp_basic;
use crate::text::lemma_lex_cmp_trans;
use crate::text::lemma_split_ch_sep_free;
use crate::text::prefix_to;
use crate::text::split_ch;
use crate::text::split_char;
use crate::text::str_to_chars;
use crate::text::subvec;
use crate::text::lex_cmp;
use crate::text::lex_compare;
use crate::numerals::is_numeric;
use crate::numerals::compare_numeric;

verus! {

/// Severity of a change, ordered from neutral to breaking:
/// `NoChange < Patch < Minor < Major`.
#[derive(Debug, Clone, Copy, PartialEq, Eq, Structural, PartialOrd, Ord)]
pub enum SemVerChangeType {
    NoChange,
    Patch,
    Minor,
    Major,
}

impl SemVerChangeType {
    /// Numeric severity rank; the larger, the more severe the change.
    pub open spec fn rank(self) -> int {
        match self {
            SemVerChangeType::NoChange => 0,
            SemVerChangeType::Patch => 1,
            SemVerChangeType::Minor => 2,
            SemVerChangeType::Major => 3,
        }
    }

    /// The more severe of two change classifications.
    pub fn max_severity(self, other: Self) -> (r: Self)
        ensures
            r.rank() == if self.rank() >= other.rank() { self.rank() } else { other.rank() },
            r == self || r == other,
    {
        let self_rank: u8 = match self {
            SemVerChangeType::NoChange => 0,
            SemVerChangeType::Patch => 1,
            SemVerChangeType::Minor => 2,
            SemVerChangeType::Major => 3,
        };
        let other_rank: u8 = match other {
            SemVerChangeType::NoChange => 0,
            SemVerChangeType::Patch => 1,
            SemVerChangeType::Minor => 2,
            SemVerChangeType::Major => 3,
        };
        if self_rank >= other_rank {
            self
        } else {
            other
        }
    }
}

/// A parsed semantic version: `MAJOR.MINOR.PATCH[-PRERELEASE][+BUILD]`.
#[derive(Debug)]
pub struct SemVer {
    pub major: u128,
    pub minor: u128,
    pub patch: u128,
    pub pre_release: Option<String>,
    pub build_meta: Option<String>,
}

/// Mathematical model of a [`SemVer`]: the three numeric components and the
/// two optional suffixes as character sequences.
pub struct SemVerView {
    pub major: int,
    pub minor: int,
    pub patch: int,
    pub pre_release: Option<Seq<char>>,
    pub build_meta: Option<Seq<char>>,
}

/// The view of an optional string: its character sequence, if present.
pub open spec fn opt_view(o: Option<String>) -> Option<Seq<char>> {
    match o {
        Some(s) => Some(s@),
        None => None,
    }
}

impl View for SemVer {
    type V = SemVerView;

    open spec fn view(&self) -> SemVerView {
        SemVerView {
            major: self.major as int,
            minor: self.minor as int,
            patch: self.patch as int,
            pre_release: opt_view(self.pre_release),
            build_meta: opt_view(self.build_meta),
        }
    }
}

impl SemVer {
    /// Builds a version value from its five components.
    pub fn new(
        major: u128,
        minor: u128,
        patch: u128,
        pre_release: Option<String>,
        build_meta: Option<String>,
    ) -> (r: Self)
        ensures
            r@.major == major,
            r@.minor == minor,
            r@.patch == patch,
            r@.pre_release == opt_view(pre_release),
            r@.build_meta == opt_view(build_meta),
    {
        Self { major, minor, patch, pre_release, build_meta }
    }
}

/// A string that the semantic-version grammar rejects.
#[derive(Debug)]
pub struct SemVerParseError {
    pub text: String,
}

/// True for characters allowed in prerelease and build identifiers:
/// ASCII letters, digits and hyphen.
pub open spec fn is_id_char(c: char) -> bool {
    is_digit(c) || ('a' <= c && c <= 'z') || ('A' <= c && c <= 'Z') || c == '-'
}

/// A prerelease identifier: non-empty, identifier characters only, and no
/// leading zero when it is all digits.
pub open spec fn is_pre_id(s: Seq<char>) -> bool {
    &&& s.len() > 0
    &&& forall|i: int| 0 <= i < s.len() ==> is_id_char(#[trigger] s[i])
    &&& all_digits(s) ==> is_num_id(s)
}

/// A build-metadata identifier: non-empty, identifier characters only.
pub open spec fn is_build_id(s: Seq<char>) -> bool {
    &&& s.len() > 0
    &&& forall|i: int| 0 <= i < s.len() ==> is_id_char(#[trigger] s[i])
}

/// A valid prerelease suffix: dot-separated prerelease identifiers.
pub open spec fn is_valid_pre(s: Seq<char>) -> bool {
    forall|k: int|
        0 <= k < split_ch(s, '.').len() ==> is_pre_id(#[trigger] split_ch(s, '.')[k])
}

/// A valid build-metadata suffix: dot-separated build identifiers.
pub open spec fn is_valid_build(s: Seq<char>) -> bool {
    forall|k: int|
        0 <= k < split_ch(s, '.').len() ==> is_build_id(#[trigger] split_ch(s, '.')[k])
}

impl SemVerView {
    /// A well-formed version: numeric components within machine range and
    /// valid optional suffixes.
    pub open spec fn wf(self) -> bool {
        &&& 0 <= self.major <= u128::MAX
        &&& 0 <= self.minor <= u128::MAX
        &&& 0 <= self.patch <= u128::MAX
        &&& (self.pre_release matches Some(p) ==> is_valid_pre(p))
        &&& (self.build_meta matches Some(b) ==> is_valid_build(b))
    }

    /// The canonical text of a version:
    /// `MAJOR.MINOR.PATCH`, then `-PRERELEASE` and `+BUILD` when present.
    pub open spec fn render(self) -> Seq<char> {
        digits_of(self.major as nat) + seq!['.'] + digits_of(self.minor as nat) + seq!['.']
            + digits_of(self.patch as nat) + (match self.pre_release {
            Some(p) => seq!['-'] + p,
            None => Seq::<char>::empty(),
        }) + (match self.build_meta {
            Some(b) => seq!['+'] + b,
            None => Seq::<char>::empty(),
        })
    }
}

/// What a version string denotes: the string splits at its first `+` into
/// the version proper and build metadata, the version proper splits at its
/// first `-` into the numeric core and the prerelease, and the core must be
/// three canonical numerals separated by dots.
pub open spec fn spec_parse_semver(s: Seq<char>) -> Option<SemVerView> {
    let bp = prefix_to(s, '+') as int;
    let before_build = s.take(bp);
    let build = if bp < s.len() {
        Some(s.skip(bp + 1))
    } else {
        None
    };
    let dp = prefix_to(before_build, '-') as int;
    let core = before_build.take(dp);
    let pre = if dp < before_build.len() {
        Some(before_build.skip(dp + 1))
    } else {
        None
    };
    let parts = split_ch(core, '.');
    if {
        &&& parts.len() == 3
        &&& is_num_id(parts[0])
        &&& is_num_id(parts[1])
        &&& is_num_id(parts[2])
        &&& digits_val(parts[0]) <= u128::MAX
        &&& digits_val(parts[1]) <= u128::MAX
        &&& digits_val(parts[2]) <= u128::MAX
        &&& (pre matches Some(p) ==> is_valid_pre(p))
        &&& (build matches Some(b) ==> is_valid_build(b))
    } {
        Some(
            SemVerView {
                major: digits_val(parts[0]),
                minor: digits_val(parts[1]),
                patch: digits_val(parts[2]),
                pre_release: pre,
                build_meta: build,
            },
        )
    } else {
        None
    }
}

/// True when every character of `v` is an identifier character.
fn all_id_chars(v: &Vec<char>) -> (b: bool)
    ensures
        b == forall|i: int| 0 <= i < v@.len() ==> is_id_char(#[trigger] v@[i]),
{
    let mut i: usize = 0;
    while i < v.len()
        invariant
            i <= v@.len(),
            forall|j: int| 0 <= j < i ==> is_id_char(#[trigger] v@[j]),
        decreases v@.len() - i,
    {
        let c = v[i];
        let ok = (c >= '0' && c <= '9') || (c >= 'a' && c <= 'z') || (c >= 'A' && c <= 'Z') || c
            == '-';
        if !ok {
            return false;
        }
        i = i + 1;
    }
    true
}

/// True when every character of `v` is a digit.
fn all_digit_chars(v: &Vec<char>) -> (b: bool)
    ensures
        b == all_digits(v@),
{
    let mut i: usize = 0;
    while i < v.len()
        invariant
            i <= v@.len(),
            forall|j: int| 0 <= j < i ==> is_digit(#[trigger] v@[j]),
        decreases v@.len() - i,
    {
        let c = v[i];
        if !(c >= '0' && c <= '9') {
            return false;
        }
        i = i + 1;
    }
    true
}

/// True for a canonical numeral: digits, no leading zero but for `0` itself.
fn is_num_id_chars(v: &Vec<char>) -> (b: bool)
    ensures
        b == is_num_id(v@),
{
    if v.len() == 0 {
        return false;
    }
    if !all_digit_chars(v) {
        return false;
    }
    v.len() == 1 || v[0] != '0'
}

/// True for a valid prerelease identifier.
fn is_pre_id_chars(v: &Vec<char>) -> (b: bool)
    ensures
        b == is_pre_id(v@),
{
    if v.len() == 0 {
        return false;
    }
    if !all_id_chars(v) {
        return false;
    }
    if all_digit_chars(v) {
        v.len() == 1 || v[0] != '0'
    } else {
        true
    }
}

/// True for a valid dot-separated prerelease suffix.
fn is_valid_pre_chars(v: &Vec<char>) -> (b: bool)
    ensures
        b == is_valid_pre(v@),
{
    let parts = split_char(v, '.');
    let ghost sparts = split_ch(v@, '.');
    let mut k: usize = 0;
    while k < parts.len()
        invariant
            parts.deep_view() == sparts,
            sparts == split_ch(v@, '.'),
            k <= parts@.len(),
            forall|j: int| 0 <= j < k ==> is_pre_id(#[trigger] sparts[j]),
        decreases parts@.len() - k,
    {
        let ok = is_pre_id_chars(&parts[k]);
        proof {
            assert(parts[k as int]@ == sparts[k as int]);
        }
        if !ok {
            return false;
        }
        k = k + 1;
    }
    true
}

/// True for a valid dot-separated build-metadata suffix.
fn is_valid_build_chars(v: &Vec<char>) -> (b: bool)
    ensures
        b == is_valid_build(v@),
{
    let parts = split_char(v, '.');
    let ghost sparts = split_ch(v@, '.');
    let mut k: usize = 0;
    while k < parts.len()
        invariant
            parts.deep_view() == sparts,
            sparts == split_ch(v@, '.'),
            k <= parts@.len(),
            forall|j: int| 0 <= j < k ==> is_build_id(#[trigger] sparts[j]),
        decreases parts@.len() - k,
    {
        let nonempty = parts[k].len() > 0;
        let ok = nonempty && all_id_chars(&parts[k]);
        proof {
            assert(parts[k as int]@ == sparts[k as int]);
        }
        if !ok {
            return false;
        }
        k = k + 1;
    }
    true
}

impl SemVer {
    /// Reads a version from its text. Returns the parsed value exactly when
    /// the text obeys the grammar in `spec_parse_semver`; the error keeps the
    /// offending text.
    pub fn parse(s: &str) -> (r: Result<SemVer, SemVerParseError>)
        ensures
            r matches Ok(v) ==> spec_parse_semver(s@) == Some(v@),
            r is Ok <==> spec_parse_semver(s@) is Some,
            r matches Err(e) ==> spec_parse_semver(s@) is None && e.text@ == s@,
    {
        let chars = str_to_chars(s);
        let ghost sv = s@;

        // Split off build metadata at the first '+'.
        let bp_opt = find_first_char(&chars, '+');
        let bp: usize = match bp_opt {
            Some(i) => i,
            None => chars.len(),
        };
        proof {
            lemma_prefix_to(sv, '+');
            match bp_opt {
                Some(i) => {
                    assert(prefix_to(sv, '+') == i as int) by {
                        let k = prefix_to(sv, '+');
                        if k < i as int {
                            assert(sv[k as int] == '+');
                        }
                    }
                },
                None => {
                    assert(prefix_to(sv, '+') == sv.len()) by {
                        let k = prefix_to(sv, '+');
                        if k < sv.len() {
                            assert(sv.contains('+')) by {
                                assert(sv[k as int] == '+');
                            }
                        }
                    }
                },
            }
        }
        let before_build = subvec(&chars, 0, bp);
        proof {
            assert(before_build@ =~= sv.take(bp as int));
        }
        let build: Option<Vec<char>> = if bp < chars.len() {
            Some(subvec(&chars, bp + 1, chars.len()))
        } else {
            None
        };
        proof {
            if bp < chars.len() {
                assert(build->Some_0@ =~= sv.skip(bp + 1));
            }
        }

        // Split off the prerelease at the first '-' before the build part.
        let dp_opt = find_first_char(&before_build, '-');
        let dp: usize = match dp_opt {
            Some(i) => i,
            None => before_build.len(),
        };
        proof {
            let bb = sv.take(bp as int);
            lemma_prefix_to(bb, '-');
            match dp_opt {
                Some(i) => {
                    assert(prefix_to(bb, '-') == i as int) by {
                        let k = prefix_to(bb, '-');
                        if k < i as int {
                            assert(bb[k as int] == '-');
                        }
                    }
                },
                None => {
                    assert(prefix_to(bb, '-') == bb.len()) by {
                        let k = prefix_to(bb, '-');
                        if k < bb.len() {
                            assert(bb.contains('-')) by {
                                assert(bb[k as int] == '-');
                            }
                        }
                    }
                },
            }
        }
        let core = subvec(&before_build, 0, dp);
        proof {
            assert(core@ =~= sv.take(bp as int).take(dp as int));
        }
        let pre: Option<Vec<char>> = if dp < before_build.len() {
            Some(subvec(&before_build, dp + 1, before_build.len()))
        } else {
            None
        };
        proof {
            if dp < before_build.len() {
                assert(pre->Some_0@ =~= sv.take(bp as int).skip(dp + 1));
            }
        }

        // The core must be three canonical numerals separated by dots.
        let parts = split_char(&core, '.');
        proof {
            assert(parts.deep_view() == split_ch(core@, '.'));
        }
        if parts.len() != 3 {
            return Err(SemVerParseError { text: chars_to_string(&chars) });
        }
        proof {
            assert(parts[0]@ == split_ch(core@, '.')[0]);
            assert(parts[1]@ == split_ch(core@, '.')[1]);
            assert(parts[2]@ == split_ch(core@, '.')[2]);
        }
        if !is_num_id_chars(&parts[0]) || !is_num_id_chars(&parts[1]) || !is_num_id_chars(
            &parts[2],
        ) {
            return Err(SemVerParseError { text: chars_to_string(&chars) });
        }
        let major = match parse_u128(&parts[0]) {
            Some(n) => n,
            None => {
                return Err(SemVerParseError { text: chars_to_string(&chars) });
            },
        };
        let minor = match parse_u128(&parts[1]) {
            Some(n) => n,
            None => {
                return Err(SemVerParseError { text: chars_to_string(&chars) });
            },
        };
        let patch = match parse_u128(&parts[2]) {
            Some(n) => n,
            None => {
                return Err(SemVerParseError { text: chars_to_string(&chars) });
            },
        };
        let pre_release: Option<String> = match &pre {
            Some(p) => {
                if !is_valid_pre_chars(p) {
                    return Err(SemVerParseError { text: chars_to_string(&chars) });
                }
                Some(chars_to_string(p))
            },
            None => None,
        };
        let build_meta: Option<String> = match &build {
            Some(b) => {
                if !is_valid_build_chars(b) {
                    return Err(SemVerParseError { text: chars_to_string(&chars) });
                }
                Some(chars_to_string(b))
            },
            None => None,
        };
        Ok(SemVer { major, minor, patch, pre_release, build_meta })
    }

    /// Writes the version in its canonical text form.
    pub fn format(&self) -> (r: String)
        ensures
            r@ == self@.render(),
    {
        let mut out = u128_to_chars(self.major);
        out.push('.');
        let mut minor_part = u128_to_chars(self.minor);
        out.append(&mut minor_part);
        out.push('.');
        let mut patch_part = u128_to_chars(self.patch);
        out.append(&mut patch_part);
        match &self.pre_release {
            Some(p) => {
                out.push('-');
                let mut pre_part = str_to_chars(p.as_str());
                out.append(&mut pre_part);
            },
            None => {},
        }
        match &self.build_meta {
            Some(b) => {
                out.push('+');
                let mut build_part = str_to_chars(b.as_str());
                out.append(&mut build_part);
            },
            None => {},
        }
        proof {
            assert(out@ =~= self@.render());
        }
        chars_to_string(&out)
    }
}

impl core::str::FromStr for SemVer {
    type Err = SemVerParseError;

    fn from_str(s: &str) -> Result<Self, Self::Err> {
        SemVer::parse(s)
    }
}

/// The sign of an integer: `-1`, `0` or `1`.
pub open spec fn sign_of(d: int) -> int {
    if d < 0 {
        -1
    } else if d > 0 {
        1
    } else {
        0
    }
}

/// Precedence of two prerelease identifiers: numeric ones compare by value,
/// a numeric one ranks below an alphanumeric one, and alphanumeric ones
/// compare lexicographically.
pub open spec fn id_cmp(a: Seq<char>, b: Seq<char>) -> int {
    if is_numeric(a) && is_numeric(b) {
        sign_of(digits_val(a) - digits_val(b))
    } else if is_numeric(a) {
        -1
    } else if is_numeric(b) {
        1
    } else {
        lex_cmp(a, b)
    }
}

/// Precedence of two identifier lists: element by element, and a strict
/// prefix ranks below the longer list.
pub open spec fn ids_cmp(a: Seq<Seq<char>>, b: Seq<Seq<char>>) -> int
    decreases a.len(),
{
    if a.len() == 0 && b.len() == 0 {
        0
    } else if a.len() == 0 {
        -1
    } else if b.len() == 0 {
        1
    } else if id_cmp(a[0], b[0]) != 0 {
        id_cmp(a[0], b[0])
    } else {
        ids_cmp(a.drop_first(), b.drop_first())
    }
}

/// Precedence of two optional prerelease suffixes: a version without one
/// ranks above any version with one; two suffixes compare by their
/// dot-separated identifier lists.
pub open spec fn pre_cmp(a: Option<Seq<char>>, b: Option<Seq<char>>) -> int {
    match (a, b) {
        (Option::None, Option::None) => 0,
        (Option::None, Option::Some(_)) => 1,
        (Option::Some(_), Option::None) => -1,
        (Option::Some(x), Option::Some(y)) => ids_cmp(split_ch(x, '.'), split_ch(y, '.')),
    }
}

/// Precedence of two versions: major, minor and patch numerically, then the
/// prerelease rule; build metadata never counts.
pub open spec fn semver_cmp(a: SemVerView, b: SemVerView) -> int {
    if a.major != b.major {
        sign_of(a.major - b.major)
    } else if a.minor != b.minor {
        sign_of(a.minor - b.minor)
    } else if a.patch != b.patch {
        sign_of(a.patch - b.patch)
    } else {
        pre_cmp(a.pre_release, b.pre_release)
    }
}

/// The integer reading of an `Ordering`.
pub open spec fn ord_int(o: core::cmp::Ordering) -> int {
    match o {
        core::cmp::Ordering::Less => -1,
        core::cmp::Ordering::Equal => 0,
        core::cmp::Ordering::Greater => 1,
    }
}

/// The `Ordering` of an integer comparison outcome.
pub open spec fn int_ord(d: int) -> core::cmp::Ordering {
    if d < 0 {
        core::cmp::Ordering::Less
    } else if d > 0 {
        core::cmp::Ordering::Greater
    } else {
        core::cmp::Ordering::Equal
    }
}

/// Precedence of two prerelease identifiers, as `id_cmp` describes.
fn id_compare(a: &Vec<char>, b: &Vec<char>) -> (r: i8)
    ensures
        r as int == id_cmp(a@, b@),
        -1 <= r <= 1,
{
    let na = a.len() > 0 && all_digit_chars(a);
    let nb = b.len() > 0 && all_digit_chars(b);
    if na && nb {
        compare_numeric(a, b)
    } else if na {
        -1
    } else if nb {
        1
    } else {
        lex_compare(a, b)
    }
}

/// Precedence of two identifier lists, as `ids_cmp` describes.
fn ids_compare(a: &Vec<Vec<char>>, b: &Vec<Vec<char>>) -> (r: i8)
    ensures
        r as int == ids_cmp(a.deep_view(), b.deep_view()),
        -1 <= r <= 1,
{
    let ghost sa = a.deep_view();
    let ghost sb = b.deep_view();
    let mut i: usize = 0;
    proof {
        assert(sa.skip(0) =~= sa);
        assert(sb.skip(0) =~= sb);
    }
    while i < a.len() && i < b.len()
        invariant
            i <= sa.len(),
            i <= sb.len(),
            sa == a.deep_view(),
            sb == b.deep_view(),
            ids_cmp(sa, sb) == ids_cmp(sa.skip(i as int), sb.skip(i as int)),
        decreases sa.len() - i,
    {
        proof {
            assert(sa.skip(i as int)[0] == sa[i as int]);
            assert(sb.skip(i as int)[0] == sb[i as int]);
            assert(a[i as int]@ =~= sa[i as int]);
            assert(b[i as int]@ =~= sb[i as int]);
        }
        let c = id_compare(&a[i], &b[i]);
        if c != 0 {
            return c;
        }
        proof {
            assert(sa.skip(i as int).drop_first() =~= sa.skip(i + 1));
            assert(sb.skip(i as int).drop_first() =~= sb.skip(i + 1));
        }
        i = i + 1;
    }
    proof {
        assert(sa.skip(i as int).len() == 0 || sb.skip(i as int).len() == 0);
    }
    if a.len() == b.len() {
        0
    } else if a.len() < b.len() {
        -1
    } else {
        1
    }
}

/// Precedence of two optional prerelease suffixes, as `pre_cmp` describes.
pub fn cmp_prerelease(pre_a: Option<String>, pre_b: Option<String>) -> (r: core::cmp::Ordering)
    ensures
        ord_int(r) == pre_cmp(opt_view(pre_a), opt_view(pre_b)),
{
    match (&pre_a, &pre_b) {
        (Option::None, Option::None) => core::cmp::Ordering::Equal,
        (Option::None, Option::Some(_)) => core::cmp::Ordering::Greater,
        (Option::Some(_), Option::None) => core::cmp::Ordering::Less,
        (Option::Some(x), Option::Some(y)) => {
            let xv = str_to_chars(x.as_str());
            let yv = str_to_chars(y.as_str());
            let xp = split_char(&xv, '.');
            let yp = split_char(&yv, '.');
            let c = ids_compare(&xp, &yp);
            if c < 0 {
                core::cmp::Ordering::Less
            } else if c > 0 {
                core::cmp::Ordering::Greater
            } else {
                core::cmp::Ordering::Equal
            }
        },
    }
}

impl SemVer {
    /// Precedence of `self` against `other`, as `semver_cmp` describes.
    pub fn compare(&self, other: &SemVer) -> (r: core::cmp::Ordering)
        ensures
            ord_int(r) == semver_cmp(self@, other@),
    {
        if self.major != other.major {
            if self.major < other.major {
                core::cmp::Ordering::Less
            } else {
                core::cmp::Ordering::Greater
            }
        } else if self.minor != other.minor {
            if self.minor < other.minor {
                core::cmp::Ordering::Less
            } else {
                core::cmp::Ordering::Greater
            }
        } else if self.patch != other.patch {
            if self.patch < other.patch {
                core::cmp::Ordering::Less
            } else {
                core::cmp::Ordering::Greater
            }
        } else {
            let pa = match &self.pre_release {
                Some(p) => Some(p.clone()),
                None => None,
            };
            let pb = match &other.pre_release {
                Some(p) => Some(p.clone()),
                None => None,
            };
            cmp_prerelease(pa, pb)
        }
    }
}

/// Structural equality of two versions: all five components equal, with the
/// string components compared by contents.
pub open spec fn sv_eq(a: SemVer, b: SemVer) -> bool {
    &&& a.major == b.major
    &&& a.minor == b.minor
    &&& a.patch == b.patch
    &&& opt_view(a.pre_release) == opt_view(b.pre_release)
    &&& opt_view(a.build_meta) == opt_view(b.build_meta)
}

/// Equality of two optional strings by contents.
fn opt_string_eq(a: &Option<String>, b: &Option<String>) -> (r: bool)
    ensures
        r == (opt_view(*a) == opt_view(*b)),
{
    match (a, b) {
        (Option::None, Option::None) => true,
        (Option::Some(x), Option::Some(y)) => {
            let e = x.eq(y);
            proof {
                if x@ == y@ {
                    assert(opt_view(*a) == opt_view(*b));
                } else {
                    assert(opt_view(*a) != opt_view(*b));
                }
            }
            e
        },
        _ => {
            proof {
                assert(opt_view(*a) != opt_view(*b));
            }
            false
        },
    }
}

impl PartialEq for SemVer {
    fn eq(&self, other: &Self) -> (r: bool) {
        self.major == other.major && self.minor == other.minor && self.patch == other.patch
            && opt_string_eq(&self.pre_release, &other.pre_release) && opt_string_eq(
            &self.build_meta,
            &other.build_meta,
        )
    }
}

impl vstd::std_specs::cmp::PartialEqSpecImpl for SemVer {
    open spec fn obeys_eq_spec() -> bool {
        true
    }

    open spec fn eq_spec(&self, other: &SemVer) -> bool {
        sv_eq(*self, *other)
    }
}

impl PartialOrd for SemVer {
    fn partial_cmp(&self, other: &Self) -> (r: Option<core::cmp::Ordering>) {
        Some(self.compare(other))
    }
}

impl vstd::std_specs::cmp::PartialOrdSpecImpl for SemVer {
    open spec fn obeys_partial_cmp_spec() -> bool {
        true
    }

    open spec fn partial_cmp_spec(&self, other: &SemVer) -> Option<core::cmp::Ordering> {
        Some(int_ord(semver_cmp(self@, other@)))
    }
}

impl Clone for SemVer {
    /// A clone carries exactly the same five components.
    fn clone(&self) -> (res: Self)
        ensures
            res == *self,
    {
        SemVer {
            major: self.major,
            minor: self.minor,
            patch: self.patch,
            pre_release: match &self.pre_release {
                Some(p) => Some(p.clone()),
                None => None,
            },
            build_meta: match &self.build_meta {
                Some(b) => Some(b.clone()),
                None => None,
            },
        }
    }
}

/// Round trip: any string the grammar accepts is reproduced, character for
/// character, by rendering the version it denotes; and that version is
/// well-formed.
pub proof fn lemma_parse_render_round_trip(s: Seq<char>)
    requires
        spec_parse_semver(s) is Some,
    ensures
        (spec_parse_semver(s)->Some_0).render() == s,
        (spec_parse_semver(s)->Some_0).wf(),
{
    let v = spec_parse_semver(s)->Some_0;
    let bp = prefix_to(s, '+') as int;
    let before_build = s.take(bp);
    let dp = prefix_to(before_build, '-') as int;
    let core = before_build.take(dp);
    let parts = split_ch(core, '.');
    lemma_prefix_to(s, '+');
    lemma_prefix_to(before_build, '-');

    // The three numerals render back to their own text.
    lemma_digits_of_val(parts[0]);
    lemma_digits_of_val(parts[1]);
    lemma_digits_of_val(parts[2]);

    // The core is its three pieces joined by dots.
    let k0 = prefix_to(core, '.') as int;
    lemma_prefix_to(core, '.');
    assert(k0 < core.len()) by {
        if k0 >= core.len() {
            assert(parts.len() == 1);
        }
    }
    let r1 = core.skip(k0 + 1);
    let k1 = prefix_to(r1, '.') as int;
    lemma_prefix_to(r1, '.');
    lemma_split_ch_sep_free(r1, '.');
    assert(k1 < r1.len()) by {
        if k1 >= r1.len() {
            assert(parts.len() == 2);
        }
    }
    let r2 = r1.skip(k1 + 1);
    assert(parts == seq![core.take(k0)] + (seq![r1.take(k1)] + split_ch(r2, '.')));
    assert(prefix_to(r2, '.') >= r2.len()) by {
        if prefix_to(r2, '.') < r2.len() {
            let k2 = prefix_to(r2, '.') as int;
            lemma_split_ch_sep_free(r2.skip(k2 + 1), '.');
            assert(split_ch(r2, '.').len() >= 2);
            assert(parts.len() >= 4);
        }
    }
    assert(split_ch(r2, '.') == seq![r2]);
    assert(parts[0] == core.take(k0) && parts[1] == r1.take(k1) && parts[2] == r2);
    assert(core =~= core.take(k0) + seq!['.'] + r1) by {
        assert(core[k0] == '.');
    }
    assert(r1 =~= r1.take(k1) + seq!['.'] + r2) by {
        assert(r1[k1] == '.');
    }
    assert(core =~= parts[0] + seq!['.'] + parts[1] + seq!['.'] + parts[2]);

    // The version proper is the core, then the prerelease after a dash.
    if dp < before_build.len() {
        assert(before_build =~= core + seq!['-'] + before_build.skip(dp + 1)) by {
            assert(before_build[dp] == '-');
        }
    } else {
        assert(core =~= before_build);
    }

    // The whole string is the version proper, then the build after a plus.
    if bp < s.len() {
        assert(s =~= before_build + seq!['+'] + s.skip(bp + 1)) by {
            assert(s[bp] == '+');
        }
    } else {
        assert(before_build =~= s);
    }
    assert(v.render() =~= s);
}

/// `id_cmp` stays within `-1..=1` and is antisymmetric.
proof fn lemma_id_cmp_basic(a: Seq<char>, b: Seq<char>)
    ensures
        -1 <= id_cmp(a, b) <= 1,
        id_cmp(b, a) == -id_cmp(a, b),
        id_cmp(a, a) == 0,
{
    lemma_lex_cmp_basic(a, b);
    lemma_lex_cmp_basic(b, a);
    lemma_lex_cmp_basic(a, a);
}

/// `id_cmp` is transitive, strictly and weakly, and as an equivalence.
proof fn lemma_id_cmp_trans(a: Seq<char>, b: Seq<char>, c: Seq<char>)
    ensures
        id_cmp(a, b) <= 0 && id_cmp(b, c) <= 0 ==> id_cmp(a, c) <= 0,
        id_cmp(a, b) <= 0 && id_cmp(b, c) < 0 ==> id_cmp(a, c) < 0,
        id_cmp(a, b) < 0 && id_cmp(b, c) <= 0 ==> id_cmp(a, c) < 0,
        id_cmp(a, b) == 0 && id_cmp(b, c) == 0 ==> id_cmp(a, c) == 0,
{
    lemma_id_cmp_basic(a, b);
    lemma_id_cmp_basic(b, c);
    lemma_id_cmp_basic(a, c);
    lemma_lex_cmp_trans(a, b, c);
    lemma_lex_cmp_trans(c, b, a);
}

/// `ids_cmp` is reflexively zero.
proof fn lemma_ids_cmp_refl(a: Seq<Seq<char>>)
    ensures
        ids_cmp(a, a) == 0,
    decreases a.len(),
{
    if a.len() > 0 {
        lemma_id_cmp_basic(a[0], a[0]);
        lemma_ids_cmp_refl(a.drop_first());
    }
}

/// `ids_cmp` stays within `-1..=1` and is antisymmetric.
proof fn lemma_ids_cmp_basic(a: Seq<Seq<char>>, b: Seq<Seq<char>>)
    ensures
        -1 <= ids_cmp(a, b) <= 1,
        ids_cmp(b, a) == -ids_cmp(a, b),
    decreases a.len() + b.len(),
{
    if a.len() > 0 && b.len() > 0 {
        lemma_id_cmp_basic(a[0], b[0]);
        lemma_ids_cmp_basic(a.drop_first(), b.drop_first());
    }
}

/// `ids_cmp` is transitive, strictly and weakly.
proof fn lemma_ids_cmp_trans(a: Seq<Seq<char>>, b: Seq<Seq<char>>, c: Seq<Seq<char>>)
    ensures
        ids_cmp(a, b) <= 0 && ids_cmp(b, c) <= 0 ==> ids_cmp(a, c) <= 0,
        ids_cmp(a, b) <= 0 && ids_cmp(b, c) < 0 ==> ids_cmp(a, c) < 0,
        ids_cmp(a, b) < 0 && ids_cmp(b, c) <= 0 ==> ids_cmp(a, c) < 0,
    decreases a.len() + b.len() + c.len(),
{
    lemma_ids_cmp_basic(a, b);
    lemma_ids_cmp_basic(b, c);
    lemma_ids_cmp_basic(a, c);
    if a.len() > 0 && b.len() > 0 && c.len() > 0 {
        lemma_id_cmp_basic(a[0], b[0]);
        lemma_id_cmp_basic(b[0], c[0]);
        lemma_id_cmp_basic(a[0], c[0]);
        lemma_id_cmp_trans(a[0], b[0], c[0]);
        lemma_id_cmp_trans(c[0], b[0], a[0]);
        lemma_ids_cmp_trans(a.drop_first(), b.drop_first(), c.drop_first());
    }
}

/// `pre_cmp` stays within `-1..=1` and is antisymmetric.
proof fn lemma_pre_cmp_basic(a: Option<Seq<char>>, b: Option<Seq<char>>)
    ensures
        -1 <= pre_cmp(a, b) <= 1,
        pre_cmp(b, a) == -pre_cmp(a, b),
        pre_cmp(a, a) == 0,
{
    match (a, b) {
        (Option::Some(x), Option::Some(y)) => {
            lemma_ids_cmp_basic(split_ch(x, '.'), split_ch(y, '.'));
        },
        _ => {},
    }
    match a {
        Option::Some(x) => {
            lemma_ids_cmp_refl(split_ch(x, '.'));
        },
        Option::None => {},
    }
}

/// Total order on versions: the comparison stays within `-1..=1`, is
/// antisymmetric and reflexively zero, so exactly one of "below", "equal"
/// and "above" holds of any pair.
pub proof fn lemma_semver_cmp_total(a: SemVerView, b: SemVerView)
    ensures
        -1 <= semver_cmp(a, b) <= 1,
        semver_cmp(b, a) == -semver_cmp(a, b),
        semver_cmp(a, a) == 0,
{
    lemma_pre_cmp_basic(a.pre_release, b.pre_release);
    lemma_pre_cmp_basic(a.pre_release, a.pre_release);
}

/// Total order on versions: "below" is transitive, strictly and weakly.
pub proof fn lemma_semver_cmp_trans(a: SemVerView, b: SemVerView, c: SemVerView)
    ensures
        semver_cmp(a, b) <= 0 && semver_cmp(b, c) <= 0 ==> semver_cmp(a, c) <= 0,
        semver_cmp(a, b) <= 0 && semver_cmp(b, c) < 0 ==> semver_cmp(a, c) < 0,
        semver_cmp(a, b) < 0 && semver_cmp(b, c) <= 0 ==> semver_cmp(a, c) < 0,
{
    lemma_pre_cmp_basic(a.pre_release, b.pre_release);
    lemma_pre_cmp_basic(b.pre_release, c.pre_release);
    lemma_pre_cmp_basic(a.pre_release, c.pre_release);
    match (a.pre_release, b.pre_release, c.pre_release) {
        (Option::Some(x), Option::Some(y), Option::Some(z)) => {
            lemma_ids_cmp_trans(split_ch(x, '.'), split_ch(y, '.'), split_ch(z, '.'));
        },
        _ => {},
    }
}

/// Build metadata never takes part in precedence: versions that agree on
/// everything but their build metadata compare equal.
pub proof fn lemma_build_meta_irrelevant(a: SemVerView, b: SemVerView)
    requires
        a.major == b.major,
        a.minor == b.minor,
        a.patch == b.patch,
        a.pre_release == b.pre_release,
    ensures
        semver_cmp(a, b) == 0,
{
    lemma_pre_cmp_basic(a.pre_release, b.pre_release);
}

} // verus!

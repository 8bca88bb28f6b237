//! Semantic versions: what one holds, when its identifiers are well formed,
//! and how it is written.

use crate::decimal::{decimal_text, push_decimal};
use vstd::prelude::*;
use vstd::string::*;

verus! {

/// A version as contracts speak of it: three numbers, the pre-release
/// identifiers and the build metadata, the last two empty when absent.
pub ghost struct VersionView {
    pub major: nat,
    pub minor: nat,
    pub patch: nat,
    pub pre: Seq<char>,
    pub build: Seq<char>,
}

/// A digit, a letter of either case, or a hyphen.
pub open spec fn is_identifier_char(c: char) -> bool {
    ||| '0' <= c <= '9'
    ||| 'a' <= c <= 'z'
    ||| 'A' <= c <= 'Z'
    ||| c == '-'
}

/// An identifier begins at `i`: at the start of the text or right after a dot.
pub open spec fn begins_identifier(text: Seq<char>, i: int) -> bool {
    0 <= i < text.len() && (i == 0 || text[i - 1] == '.')
}

/// An identifier ends before `j`: at the end of the text or right before a dot.
pub open spec fn ends_identifier(text: Seq<char>, j: int) -> bool {
    0 < j <= text.len() && (j == text.len() || text[j] == '.')
}

/// Every character from `i` up to `j` is a digit.
pub open spec fn all_digits(text: Seq<char>, i: int, j: int) -> bool {
    forall|k: int| i <= k < j ==> '0' <= #[trigger] text[k] <= '9'
}

/// `text` is a run of identifiers separated by single dots, or empty. Each
/// identifier is non-empty and made of digits, letters and hyphens.
pub open spec fn dotted_identifiers(text: Seq<char>) -> bool {
    &&& forall|k: int|
        0 <= k < text.len() ==> is_identifier_char(#[trigger] text[k]) || text[k] == '.'
    &&& text.len() > 0 ==> text[0] != '.' && text[text.len() - 1] != '.'
    &&& forall|k: int| 0 < k < text.len() && #[trigger] text[k] == '.' ==> text[k - 1] != '.'
}

/// No identifier of `text` that is a number of two or more digits begins
/// with a zero.
pub open spec fn no_leading_zeros(text: Seq<char>) -> bool {
    forall|i: int, j: int|
        #![trigger begins_identifier(text, i), ends_identifier(text, j)]
        begins_identifier(text, i) && ends_identifier(text, j) && i + 1 < j && all_digits(
            text,
            i,
            j,
        ) ==> text[i] != '0'
}

impl VersionView {
    /// The pre-release identifiers and the build metadata are dotted
    /// identifiers, and no pre-release number has a leading zero.
    pub open spec fn wf(self) -> bool {
        &&& dotted_identifiers(self.pre)
        &&& no_leading_zeros(self.pre)
        &&& dotted_identifiers(self.build)
    }

    /// The version as it is written: the three numbers joined by dots, then
    /// a hyphen and the pre-release identifiers where there are any, then a
    /// plus sign and the build metadata where there is any.
    pub open spec fn text(self) -> Seq<char> {
        decimal_text(self.major) + seq!['.'] + decimal_text(self.minor) + seq!['.'] + decimal_text(
            self.patch,
        ) + (if self.pre.len() > 0 {
            seq!['-'] + self.pre
        } else {
            Seq::<char>::empty()
        }) + (if self.build.len() > 0 {
            seq!['+'] + self.build
        } else {
            Seq::<char>::empty()
        })
    }
}

/// A semantic version whose identifiers are well formed.
pub struct Version {
    pub(crate) major: u64,
    pub(crate) minor: u64,
    pub(crate) patch: u64,
    pub(crate) pre: String,
    pub(crate) build: String,
}

impl View for Version {
    type V = VersionView;

    closed spec fn view(&self) -> VersionView {
        VersionView {
            major: self.major as nat,
            minor: self.minor as nat,
            patch: self.patch as nat,
            pre: self.pre@,
            build: self.build@,
        }
    }
}

impl Version {
    #[verifier::type_invariant]
    pub closed spec fn wf(&self) -> bool {
        self@.wf()
    }

    /// The version with these numbers and identifiers, where the
    /// identifiers are well formed; `pre` and `build` are empty for a version
    /// without them.
    pub fn new(major: u64, minor: u64, patch: u64, pre: &str, build: &str) -> (r: Option<Version>)
        ensures
            r is Some <==> (VersionView {
                major: major as nat,
                minor: minor as nat,
                patch: patch as nat,
                pre: pre@,
                build: build@,
            }).wf(),
            r matches Some(v) ==> v@ == (VersionView {
                major: major as nat,
                minor: minor as nat,
                patch: patch as nat,
                pre: pre@,
                build: build@,
            }),
    {
        if check_identifiers(pre, true) && check_identifiers(build, false) {
            Some(
                Version {
                    major,
                    minor,
                    patch,
                    pre: String::from_str(pre),
                    build: String::from_str(build),
                },
            )
        } else {
            None
        }
    }

    pub fn major(&self) -> (r: u64)
        ensures
            r == self@.major,
    {
        self.major
    }

    pub fn minor(&self) -> (r: u64)
        ensures
            r == self@.minor,
    {
        self.minor
    }

    pub fn patch(&self) -> (r: u64)
        ensures
            r == self@.patch,
    {
        self.patch
    }

    /// The pre-release identifiers, empty where the version has none.
    pub fn pre(&self) -> (r: &str)
        ensures
            r@ == self@.pre,
    {
        self.pre.as_str()
    }

    /// The build metadata, empty where the version has none.
    pub fn build(&self) -> (r: &str)
        ensures
            r@ == self@.build,
    {
        self.build.as_str()
    }

    /// Whether the two versions agree in every part.
    pub fn same(&self, other: &Version) -> (r: bool)
        ensures
            r == (self@ == other@),
    {
        self.major == other.major && self.minor == other.minor && self.patch == other.patch
            && self.pre == other.pre && self.build == other.build
    }

    /// A copy of this version.
    pub fn duplicate(&self) -> (r: Version)
        ensures
            r@ == self@,
    {
        proof {
            use_type_invariant(self);
        }
        Version {
            major: self.major,
            minor: self.minor,
            patch: self.patch,
            pre: self.pre.clone(),
            build: self.build.clone(),
        }
    }

    /// Appends the version, as it is written, to `out`.
    pub fn push_text(&self, out: &mut String)
        ensures
            final(out)@ == old(out)@ + self@.text(),
    {
        push_decimal(out, self.major);
        out.append(".");
        push_decimal(out, self.minor);
        out.append(".");
        push_decimal(out, self.patch);
        if !self.pre.as_str().is_empty() {
            out.append("-");
            out.append(self.pre.as_str());
        }
        if !self.build.as_str().is_empty() {
            out.append("+");
            out.append(self.build.as_str());
        }
        proof {
            reveal_strlit(".");
            reveal_strlit("-");
            reveal_strlit("+");
            assert("."@ =~= seq!['.']);
            assert("-"@ =~= seq!['-']);
            assert("+"@ =~= seq!['+']);
            assert(final(out)@ =~= old(out)@ + self@.text());
        }
    }
}

const DOT: u8 = 46;

const HYPHEN: u8 = 45;

const DIGIT_ZERO: u8 = 48;

const DIGIT_NINE: u8 = 57;

const UPPER_A: u8 = 65;

const UPPER_Z: u8 = 90;

const LOWER_A: u8 = 97;

const LOWER_Z: u8 = 122;

/// Whether the byte of an ASCII character is that of a digit, a letter or
/// a hyphen.
fn is_identifier_byte(b: u8) -> (r: bool)
    requires
        b <= 0x7f,
    ensures
        r == is_identifier_char(b as char),
{
    (DIGIT_ZERO <= b && b <= DIGIT_NINE) || (LOWER_A <= b && b <= LOWER_Z) || (UPPER_A <= b && b
        <= UPPER_Z) || b == HYPHEN
}

/// Decides whether `text` is a run of dotted identifiers and, where
/// `strict_numbers` is set, whether none of its numbers has a leading zero.
pub fn check_identifiers(text: &str, strict_numbers: bool) -> (ok: bool)
    ensures
        ok == (dotted_identifiers(text@) && (strict_numbers ==> no_leading_zeros(text@))),
{
    if !text.is_ascii() {
        return false;
    }
    let n: usize = text.unicode_len();
    let mut i: usize = 0;
    let mut start: usize = 0;
    let mut numeric: bool = true;
    let mut zero_first: bool = false;
    while i < n
        invariant
            text.is_ascii(),
            n == text@.len(),
            start <= i <= n,
            start == 0 || text@[start - 1] == '.',
            forall|k: int| start <= k < i ==> #[trigger] text@[k] != '.',
            numeric == all_digits(text@, start as int, i as int),
            zero_first == (start < i && text@[start as int] == '0'),
            forall|k: int|
                0 <= k < i ==> is_identifier_char(#[trigger] text@[k]) || text@[k] == '.',
            i > 0 ==> text@[0] != '.',
            forall|k: int| 0 < k < i && #[trigger] text@[k] == '.' ==> text@[k - 1] != '.',
            strict_numbers ==> forall|p: int, q: int|
                #![trigger begins_identifier(text@, p), ends_identifier(text@, q)]
                begins_identifier(text@, p) && ends_identifier(text@, q) && p + 1 < q && q < i
                    && all_digits(text@, p, q) ==> text@[p] != '0',
        decreases n - i,
    {
        let b: u8 = text.get_ascii(i);
        let ghost c: char = text@[i as int];
        assert(c <= '\u{7f}');
        assert(b as char == c);
        if b == DOT {
            if i == start {
                return false;
            }
            if strict_numbers && numeric && zero_first && i - start > 1 {
                assert(begins_identifier(text@, start as int) && ends_identifier(text@, i as int));
                return false;
            }
            assert forall|p: int, q: int|
                #![trigger begins_identifier(text@, p), ends_identifier(text@, q)]
                strict_numbers && begins_identifier(text@, p) && ends_identifier(text@, q) && p + 1
                    < q && q < i + 1 && all_digits(text@, p, q) implies text@[p] != '0' by {
                if q == i {
                    if p < start {
                        assert(text@[start - 1] == '.');
                    } else if p > start {
                        assert(text@[p - 1] == '.');
                    }
                } else if q > start {
                    assert(text@[q] == '.');
                }
            }
            start = i + 1;
            numeric = true;
            zero_first = false;
        } else if is_identifier_byte(b) {
            if !(DIGIT_ZERO <= b && b <= DIGIT_NINE) {
                numeric = false;
            }
            if i == start {
                zero_first = b == DIGIT_ZERO;
            }
            assert forall|p: int, q: int|
                #![trigger begins_identifier(text@, p), ends_identifier(text@, q)]
                strict_numbers && begins_identifier(text@, p) && ends_identifier(text@, q) && p + 1
                    < q && q < i + 1 && all_digits(text@, p, q) implies text@[p] != '0' by {
                if q > start && q < i {
                    assert(text@[q] == '.');
                }
            }
        } else {
            return false;
        }
        i += 1;
    }
    if n > 0 {
        if start == n {
            return false;
        }
        if strict_numbers && numeric && zero_first && n - start > 1 {
            assert(begins_identifier(text@, start as int) && ends_identifier(text@, n as int));
            return false;
        }
    }
    proof {
        if strict_numbers {
            assert forall|p: int, q: int|
                #![trigger begins_identifier(text@, p), ends_identifier(text@, q)]
                begins_identifier(text@, p) && ends_identifier(text@, q) && p + 1 < q && all_digits(
                    text@,
                    p,
                    q,
                ) implies text@[p] != '0' by {
                if q == n {
                    if p < start {
                        assert(text@[start - 1] == '.');
                    } else if p > start {
                        assert(text@[p - 1] == '.');
                    }
                } else if q > start {
                    assert(text@[q] == '.');
                }
            }
        }
    }
    true
}

} // verus!

//! Numbering styles — the pair of delimiter characters that bracket the
//! numeric suffix of a duplicate, e.g. `a(1).txt`, `a[1].txt`, `a（1）.txt` —
//! and the detection and rendering of such suffixes.

use vstd::prelude::*;

verus! {

/// A bracketing style for numeric duplicate suffixes.
#[derive(Debug, Clone, Copy, PartialEq, Eq, Structural)]
pub enum NumberStyle {
    /// Round parentheses: `a(1).txt` — the default.
    Round,
    /// Square brackets: `a[1].txt`.
    Square,
    /// Curly braces: `a{1}.txt`.
    Curly,
    /// Full-width (ideographic) parentheses: `a（1）.txt`.
    FullWidthRound,
    /// Full-width square brackets: `a［1］.txt`.
    FullWidthSquare,
    /// Lenticular (CJK book) brackets: `a【1】.txt`.
    ChineseBracket,
    /// Corner brackets: `a「1」.txt`.
    CornerBracket,
}

/// The opening delimiter of a style, as a character.
pub open spec fn open_char(style: NumberStyle) -> char {
    match style {
        NumberStyle::Round => '(',
        NumberStyle::Square => '[',
        NumberStyle::Curly => '{',
        NumberStyle::FullWidthRound => '（',
        NumberStyle::FullWidthSquare => '［',
        NumberStyle::ChineseBracket => '【',
        NumberStyle::CornerBracket => '「',
    }
}

/// The closing delimiter of a style, as a character.
pub open spec fn close_char(style: NumberStyle) -> char {
    match style {
        NumberStyle::Round => ')',
        NumberStyle::Square => ']',
        NumberStyle::Curly => '}',
        NumberStyle::FullWidthRound => '）',
        NumberStyle::FullWidthSquare => '］',
        NumberStyle::ChineseBracket => '】',
        NumberStyle::CornerBracket => '」',
    }
}

/// The order in which the styles are probed when parsing an existing name.
pub open spec fn probe_order(i: int) -> NumberStyle {
    if i == 0 {
        NumberStyle::Round
    } else if i == 1 {
        NumberStyle::Square
    } else if i == 2 {
        NumberStyle::Curly
    } else if i == 3 {
        NumberStyle::FullWidthRound
    } else if i == 4 {
        NumberStyle::FullWidthSquare
    } else if i == 5 {
        NumberStyle::ChineseBracket
    } else {
        NumberStyle::CornerBracket
    }
}

/// The style whose closing delimiter is `c`, if any.
pub open spec fn style_closed_by(c: char) -> Option<NumberStyle> {
    if c == ')' {
        Some(NumberStyle::Round)
    } else if c == ']' {
        Some(NumberStyle::Square)
    } else if c == '}' {
        Some(NumberStyle::Curly)
    } else if c == '）' {
        Some(NumberStyle::FullWidthRound)
    } else if c == '］' {
        Some(NumberStyle::FullWidthSquare)
    } else if c == '】' {
        Some(NumberStyle::ChineseBracket)
    } else if c == '」' {
        Some(NumberStyle::CornerBracket)
    } else {
        None
    }
}

impl NumberStyle {
    /// The default style used when a duplicate has no existing number: `a(1).txt`.
    pub const DEFAULT: NumberStyle = NumberStyle::Round;

    /// The style probed at position `i` (`0 <= i < 7`) when parsing an
    /// existing name: round, square, curly, full-width round, full-width
    /// square, lenticular, corner.
    pub fn probed(i: usize) -> (r: NumberStyle)
        requires
            i < 7,
        ensures
            r == probe_order(i as int),
    {
        if i == 0 {
            NumberStyle::Round
        } else if i == 1 {
            NumberStyle::Square
        } else if i == 2 {
            NumberStyle::Curly
        } else if i == 3 {
            NumberStyle::FullWidthRound
        } else if i == 4 {
            NumberStyle::FullWidthSquare
        } else if i == 5 {
            NumberStyle::ChineseBracket
        } else {
            NumberStyle::CornerBracket
        }
    }

    /// The opening delimiter.
    pub fn open(self) -> (r: &'static str)
        ensures
            r@ == seq![open_char(self)],
    {
        match self {
            NumberStyle::Round => {
                proof {
                    reveal_strlit("(");
                }
                "("
            },
            NumberStyle::Square => {
                proof {
                    reveal_strlit("[");
                }
                "["
            },
            NumberStyle::Curly => {
                proof {
                    reveal_strlit("{");
                }
                "{"
            },
            NumberStyle::FullWidthRound => {
                proof {
                    reveal_strlit("（");
                }
                "（"
            },
            NumberStyle::FullWidthSquare => {
                proof {
                    reveal_strlit("［");
                }
                "［"
            },
            NumberStyle::ChineseBracket => {
                proof {
                    reveal_strlit("【");
                }
                "【"
            },
            NumberStyle::CornerBracket => {
                proof {
                    reveal_strlit("「");
                }
                "「"
            },
        }
    }

    /// The closing delimiter.
    pub fn close(self) -> (r: &'static str)
        ensures
            r@ == seq![close_char(self)],
    {
        match self {
            NumberStyle::Round => {
                proof {
                    reveal_strlit(")");
                }
                ")"
            },
            NumberStyle::Square => {
                proof {
                    reveal_strlit("]");
                }
                "]"
            },
            NumberStyle::Curly => {
                proof {
                    reveal_strlit("}");
                }
                "}"
            },
            NumberStyle::FullWidthRound => {
                proof {
                    reveal_strlit("）");
                }
                "）"
            },
            NumberStyle::FullWidthSquare => {
                proof {
                    reveal_strlit("］");
                }
                "］"
            },
            NumberStyle::ChineseBracket => {
                proof {
                    reveal_strlit("】");
                }
                "】"
            },
            NumberStyle::CornerBracket => {
                proof {
                    reveal_strlit("」");
                }
                "」"
            },
        }
    }
}

/// A version suffix that was detected on an existing name.
///
/// For example in `report[042].txt` the detected value is `style = Square`,
/// `number = 42` and `pad = Some(3)` (so the leading zeros are preserved as
/// `report[043].txt` rather than collapsing to `report[43].txt`).
#[derive(Debug, Clone, Copy, PartialEq, Eq, Structural)]
pub struct Version {
    /// The bracket style the version was found in.
    pub style: NumberStyle,
    /// The parsed number.
    pub number: u64,
    /// Minimum digit width to preserve, set only when the original number was
    /// zero-padded (e.g. `007`).
    pub pad: Option<usize>,
}

/// An ASCII decimal digit.
pub open spec fn is_digit(c: char) -> bool {
    '0' <= c && c <= '9'
}

/// Every character is an ASCII decimal digit.
pub open spec fn all_digits(s: Seq<char>) -> bool {
    forall|i: int| 0 <= i < s.len() ==> is_digit(#[trigger] s[i])
}

/// The value of one decimal digit.
pub open spec fn digit_value(c: char) -> nat {
    (c as int - '0' as int) as nat
}

/// The number that a string of decimal digits denotes.
pub open spec fn digits_value(s: Seq<char>) -> nat
    decreases s.len(),
{
    if s.len() == 0 {
        0
    } else {
        digits_value(s.drop_last()) * 10 + digit_value(s.last())
    }
}

/// The character of a decimal digit `d < 10`.
pub open spec fn digit_char(d: nat) -> char {
    ('0' as nat + d) as char
}

/// The shortest decimal representation of `n` (`0` for zero).
pub open spec fn decimal(n: nat) -> Seq<char>
    decreases n,
{
    if n < 10 {
        seq![digit_char(n)]
    } else {
        decimal(n / 10).push(digit_char(n % 10))
    }
}

/// `k` zero characters.
pub open spec fn zeros(k: nat) -> Seq<char> {
    Seq::new(k, |i: int| '0')
}

/// `digits` left-padded with zeros to the width that `pad` asks for, when it
/// asks for more than one digit.
pub open spec fn padded(digits: Seq<char>, pad: Option<usize>) -> Seq<char> {
    match pad {
        Some(width) => if width > 1 && digits.len() < width {
            zeros((width - digits.len()) as nat) + digits
        } else {
            digits
        },
        None => digits,
    }
}

/// The text `open + digits + close` of a numeric suffix.
pub open spec fn spec_render(style: NumberStyle, number: u64, pad: Option<usize>) -> Seq<char> {
    seq![open_char(style)] + padded(decimal(number as nat), pad) + seq![close_char(style)]
}

/// The one-character string of a decimal digit.
fn digit_str(d: u64) -> (r: &'static str)
    requires
        d < 10,
    ensures
        r@ == seq![digit_char(d as nat)],
{
    if d == 0 {
        proof { reveal_strlit("0"); }
        "0"
    } else if d == 1 {
        proof { reveal_strlit("1"); }
        "1"
    } else if d == 2 {
        proof { reveal_strlit("2"); }
        "2"
    } else if d == 3 {
        proof { reveal_strlit("3"); }
        "3"
    } else if d == 4 {
        proof { reveal_strlit("4"); }
        "4"
    } else if d == 5 {
        proof { reveal_strlit("5"); }
        "5"
    } else if d == 6 {
        proof { reveal_strlit("6"); }
        "6"
    } else if d == 7 {
        proof { reveal_strlit("7"); }
        "7"
    } else if d == 8 {
        proof { reveal_strlit("8"); }
        "8"
    } else {
        proof { reveal_strlit("9"); }
        "9"
    }
}

/// The decimal representation of `n`.
fn decimal_string(n: u64) -> (r: String)
    ensures
        r@ == decimal(n as nat),
        r@.len() >= 1,
{
    let mut acc = String::from_str(digit_str(n % 10));
    let mut m: u64 = n / 10;
    while m > 0
        invariant
            m > 0 ==> decimal(n as nat) == decimal(m as nat) + acc@,
            m == 0 ==> decimal(n as nat) == acc@,
            acc@.len() >= 1,
        decreases m,
    {
        let head = String::from_str(digit_str(m % 10));
        let next = head.concat(acc.as_str());
        proof {
            if m >= 10 {
                assert(decimal(m as nat) == decimal((m / 10) as nat).push(digit_char((m % 10) as nat)));
                assert(decimal(m as nat) + acc@ =~= decimal((m / 10) as nat) + next@);
            } else {
                assert(decimal(m as nat) =~= seq![digit_char((m % 10) as nat)]);
                assert(decimal(m as nat) + acc@ =~= next@);
            }
        }
        acc = next;
        m = m / 10;
    }
    acc
}

/// Format a version into the text `open + digits + close`, applying
/// zero-padding only when `pad` requests it.
pub fn render(style: NumberStyle, number: u64, pad: Option<usize>) -> (r: String)
    ensures
        r@ == spec_render(style, number, pad),
{
    let digits = decimal_string(number);
    let ghost dec = digits@;
    let digits = match pad {
        Some(width) => if width > 1 {
            let mut s = digits;
            let mut len: usize = s.as_str().unicode_len();
            while len < width
                invariant
                    len == s@.len(),
                    dec.len() <= len,
                    len <= width || len == dec.len(),
                    s@ == zeros((len - dec.len()) as nat) + dec,
                decreases width - len,
            {
                let z = String::from_str(digit_str(0));
                s = z.concat(s.as_str());
                proof {
                    assert(s@ =~= zeros((len + 1 - dec.len()) as nat) + dec);
                }
                len = len + 1;
            }
            proof {
                if dec.len() < width {
                    assert(s@ == padded(dec, pad));
                } else {
                    assert(s@ =~= dec);
                }
            }
            s
        } else {
            digits
        },
        None => digits,
    };
    let r = String::from_str(style.open()).concat(digits.as_str()).concat(style.close());
    proof {
        assert(r@ =~= spec_render(style, number, pad));
    }
    r
}


/// The position of the last occurrence of `c` in `s` (what `rfind` finds).
pub open spec fn last_index_of(s: Seq<char>, c: char) -> Option<int>
    decreases s.len(),
{
    if s.len() == 0 {
        None
    } else if s.last() == c {
        Some(s.len() - 1)
    } else {
        last_index_of(s.drop_last(), c)
    }
}

/// The version suffix at the very end of `base`, with the name in front of
/// it: `base` ends in `<open><digits><close>` for one of the styles, the open
/// delimiter being the last one before the digits, the digits non-empty and
/// their value within `u64`. A zero-padded number (more than one digit, the
/// first a `0`) records its width.
pub open spec fn spec_detect_version(base: Seq<char>) -> Option<(Seq<char>, Version)> {
    if base.len() == 0 {
        None
    } else {
        match style_closed_by(base.last()) {
            None => None,
            Some(style) => {
                let prefix = base.drop_last();
                match last_index_of(prefix, open_char(style)) {
                    None => None,
                    Some(idx) => {
                        let digits = prefix.subrange(idx + 1, prefix.len() as int);
                        if digits.len() == 0 || !all_digits(digits) || digits_value(digits)
                            > u64::MAX {
                            None
                        } else {
                            Some(
                                (
                                    prefix.subrange(0, idx),
                                    Version {
                                        style,
                                        number: digits_value(digits) as u64,
                                        pad: if digits.len() > 1 && digits[0] == '0' {
                                            Some(digits.len() as usize)
                                        } else {
                                            None
                                        },
                                    },
                                ),
                            )
                        }
                    },
                }
            },
        }
    }
}

pub proof fn lemma_last_index_of(s: Seq<char>, c: char)
    ensures
        match last_index_of(s, c) {
            Some(i) => 0 <= i < s.len() && s[i] == c && forall|j: int| i < j < s.len() ==> s[j] != c,
            None => forall|j: int| 0 <= j < s.len() ==> s[j] != c,
        },
    decreases s.len(),
{
    if s.len() > 0 && s.last() != c {
        lemma_last_index_of(s.drop_last(), c);
        assert forall|j: int| 0 <= j < s.len() - 1 implies s[j] == s.drop_last()[j] by {}
    }
}

/// A prefix of a digit string never denotes more than the whole string.
proof fn lemma_digits_value_prefix(s: Seq<char>, k: int)
    requires
        0 <= k <= s.len(),
    ensures
        digits_value(s.subrange(0, k)) <= digits_value(s),
    decreases s.len(),
{
    if k < s.len() {
        assert(s.drop_last().subrange(0, k) =~= s.subrange(0, k));
        lemma_digits_value_prefix(s.drop_last(), k);
    } else {
        assert(s.subrange(0, k) =~= s);
    }
}

/// If `base` ends in `<open><digits><close>` for any known style, return the
/// name *without* that suffix together with the parsed [`Version`].
///
/// Only a suffix at the very end is treated as a version number, so a name
/// such as `photo(2)` is interpreted as a duplicate of `photo` (and will be
/// continued as `photo(3)`), while `notes_2024` is left untouched.
pub fn detect_version(base: &str) -> (r: Option<(String, Version)>)
    ensures
        match r {
            None => spec_detect_version(base@) is None,
            Some((core, version)) => spec_detect_version(base@) == Some((core@, version)),
        },
{
    let n = base.unicode_len();
    let mut k: usize = 0;
    while k < 7
        invariant
            n == base@.len(),
            k <= 7,
            forall|j: int|
                0 <= j < k ==> (n == 0 || close_char(probe_order(j)) != base@.last()
                    || spec_detect_version(base@) is None),
        decreases 7 - k,
    {
        let style = NumberStyle::probed(k);
        let close = style.close();
        if n == 0 || base.get_char(n - 1) != close.get_char(0) {
            k = k + 1;
            continue;
        }
        let ghost prefix = base@.drop_last();
        assert(style_closed_by(base@.last()) == Some(style));
        let open = style.open().get_char(0);
        // Find the last opening delimiter before the closing one.
        let mut j: usize = n - 1;
        proof {
            assert(prefix.subrange(0, j as int) =~= prefix);
        }
        while j > 0 && base.get_char(j - 1) != open
            invariant
                n == base@.len(),
                n > 0,
                j <= n - 1,
                prefix == base@.drop_last(),
                last_index_of(prefix, open) == last_index_of(prefix.subrange(0, j as int), open),
            decreases j,
        {
            proof {
                assert(prefix.subrange(0, j as int).drop_last() =~= prefix.subrange(0, j - 1));
            }
            j = j - 1;
        }
        if j == 0 {
            proof {
                assert(prefix.subrange(0, 0) =~= Seq::<char>::empty());
            }
            k = k + 1;
            continue;
        }
        let idx = j - 1;
        proof {
            assert(last_index_of(prefix, open) == Some(idx as int));
        }
        let start = idx + 1;
        let end = n - 1;
        let ghost digits = prefix.subrange(start as int, end as int);
        if start == end {
            k = k + 1;
            continue;
        }
        // Every character between the delimiters must be a decimal digit.
        let mut i: usize = start;
        let mut ok = true;
        while i < end
            invariant
                n == base@.len(),
                start <= i <= end,
                end == n - 1,
                prefix == base@.drop_last(),
                digits == prefix.subrange(start as int, end as int),
                ok ==> forall|m: int| start <= m < i ==> is_digit(#[trigger] prefix[m]),
                !ok ==> !all_digits(digits),
            decreases end - i,
        {
            let c = base.get_char(i);
            if !(c >= '0' && c <= '9') {
                proof {
                    assert(!is_digit(digits[i - start]));
                }
                ok = false;
            }
            i = i + 1;
        }
        if !ok {
            k = k + 1;
            continue;
        }
        proof {
            assert(all_digits(digits)) by {
                assert forall|m: int| 0 <= m < digits.len() implies is_digit(#[trigger] digits[m]) by {
                    assert(digits[m] == prefix[start + m]);
                }
            }
        }
        // Parse the digits as a `u64`; a value out of range is no version.
        proof {
            assert(spec_detect_version(base@) is None <==> digits_value(digits) > u64::MAX);
        }
        let mut value: u64 = 0;
        let mut i: usize = start;
        while i < end
            invariant
                n == base@.len(),
                start <= i <= end,
                end == n - 1,
                prefix == base@.drop_last(),
                digits == prefix.subrange(start as int, end as int),
                all_digits(digits),
                spec_detect_version(base@) is None <==> digits_value(digits) > u64::MAX,
                value == digits_value(prefix.subrange(start as int, i as int)),
            decreases end - i,
        {
            let c = base.get_char(i);
            let ghost part = prefix.subrange(start as int, i + 1);
            proof {
                assert(part.drop_last() =~= prefix.subrange(start as int, i as int));
                assert(is_digit(digits[i - start]));
                assert(part =~= digits.subrange(0, i + 1 - start));
                lemma_digits_value_prefix(digits, i + 1 - start);
            }
            let d = (c as u32 - '0' as u32) as u64;
            let next = match value.checked_mul(10) {
                Some(v) => v.checked_add(d),
                None => None,
            };
            match next {
                Some(v) => {
                    value = v;
                },
                None => {
                    proof {
                        assert(d == digit_value(c));
                        assert(digits_value(part) > u64::MAX);
                        assert(digits_value(digits) > u64::MAX);
                    }
                    return None;
                },
            }
            i = i + 1;
        }
        proof {
            assert(prefix.subrange(start as int, end as int) == digits);
        }
        let core = String::from_str(base.substring_char(0, idx));
        let len = end - start;
        let pad = if len > 1 && base.get_char(start) == '0' {
            Some(len)
        } else {
            None
        };
        proof {
            assert(core@ =~= prefix.subrange(0, idx as int));
        }
        return Some((core, Version { style, number: value, pad }));
    }
    proof {
        if n > 0 {
            assert(close_char(probe_order(0)) != base@.last() || spec_detect_version(base@) is None);
            assert(close_char(probe_order(1)) != base@.last() || spec_detect_version(base@) is None);
            assert(close_char(probe_order(2)) != base@.last() || spec_detect_version(base@) is None);
            assert(close_char(probe_order(3)) != base@.last() || spec_detect_version(base@) is None);
            assert(close_char(probe_order(4)) != base@.last() || spec_detect_version(base@) is None);
            assert(close_char(probe_order(5)) != base@.last() || spec_detect_version(base@) is None);
            assert(close_char(probe_order(6)) != base@.last() || spec_detect_version(base@) is None);
        }
    }
    None
}

/// The number of decimal digits of `n` (one for zero).
pub open spec fn digit_count(n: nat) -> nat
    decreases n,
{
    if n < 10 {
        1
    } else {
        1 + digit_count(n / 10)
    }
}

/// How many digits a rendered number shows: its digit count, or the
/// padding width when that is larger.
pub open spec fn digits_width(number: u64, pad: Option<usize>) -> nat {
    match pad {
        Some(width) => if width > digit_count(number as nat) {
            width as nat
        } else {
            digit_count(number as nat)
        },
        None => digit_count(number as nat),
    }
}

proof fn lemma_decimal_len(n: nat)
    ensures
        decimal(n).len() == digit_count(n),
    decreases n,
{
    if n >= 10 {
        lemma_decimal_len(n / 10);
    }
}

/// The digits of a rendered suffix: decimal digits denoting the number,
/// as many as `digits_width` says.
pub proof fn lemma_render_digits(number: u64, pad: Option<usize>)
    ensures
        padded(decimal(number as nat), pad).len() == digits_width(number, pad),
        all_digits(padded(decimal(number as nat), pad)),
        digits_value(padded(decimal(number as nat), pad)) == number,
{
    let dec = decimal(number as nat);
    lemma_decimal(number as nat);
    lemma_decimal_len(number as nat);
    if padded(dec, pad) != dec {
        lemma_zeros_value((pad->0 - dec.len()) as nat, dec);
        lemma_zeros_digits((pad->0 - dec.len()) as nat, dec);
    }
}

/// A rendered suffix holds at least the two delimiters and one digit.
pub proof fn lemma_render_len(style: NumberStyle, number: u64, pad: Option<usize>)
    ensures
        spec_render(style, number, pad).len() >= 3,
{
    lemma_decimal(number as nat);
}

/// The width that a rendered suffix shows when it is read back: the
/// requested one when zeros were put in front of the number, none otherwise.
pub open spec fn kept_pad(number: u64, pad: Option<usize>) -> Option<usize> {
    match pad {
        Some(width) => if width > 1 && decimal(number as nat).len() < width {
            pad
        } else {
            None
        },
        None => None,
    }
}

proof fn lemma_style_closed_by(style: NumberStyle)
    ensures
        style_closed_by(close_char(style)) == Some(style),
        !is_digit(open_char(style)),
{
}

/// No delimiter is a path separator, a colon or a dot.
pub proof fn lemma_delimiters(style: NumberStyle)
    ensures
        open_char(style) != '/' && open_char(style) != '\\' && open_char(style) != ':',
        close_char(style) != '/' && close_char(style) != '\\' && close_char(style) != ':',
{
}

proof fn lemma_closed_by_close(c: char)
    ensures
        style_closed_by(c) matches Some(style) ==> close_char(style) == c,
{
}

proof fn lemma_decimal(n: nat)
    ensures
        decimal(n).len() >= 1,
        all_digits(decimal(n)),
        digits_value(decimal(n)) == n,
        n > 0 ==> decimal(n)[0] != '0',
    decreases n,
{
    if n >= 10 {
        lemma_decimal(n / 10);
        let d = decimal(n);
        assert(d.drop_last() =~= decimal(n / 10));
        assert(digit_value(digit_char(n % 10)) == n % 10);
        assert(d.last() == digit_char(n % 10));
        assert((n / 10) * 10 + n % 10 == n);
        assert(digits_value(d) == digits_value(d.drop_last()) * 10 + digit_value(d.last()));
        assert(digits_value(d) == n);
        assert forall|i: int| 0 <= i < d.len() implies is_digit(#[trigger] d[i]) by {
            if i < d.len() - 1 {
                assert(d[i] == decimal(n / 10)[i]);
            }
        }
    } else {
        assert(decimal(n).drop_last() =~= Seq::<char>::empty());
        assert(digit_value(digit_char(n)) == n);
        assert(digits_value(decimal(n)) == digits_value(decimal(n).drop_last()) * 10 + digit_value(decimal(n).last()));
    }
}

proof fn lemma_zeros_value(k: nat, s: Seq<char>)
    ensures
        digits_value(zeros(k) + s) == digits_value(s),
    decreases s.len(), k,
{
    if s.len() > 0 {
        assert((zeros(k) + s).drop_last() =~= zeros(k) + s.drop_last());
        lemma_zeros_value(k, s.drop_last());
    } else if k > 0 {
        assert((zeros(k) + s).drop_last() =~= zeros((k - 1) as nat) + s);
        lemma_zeros_value((k - 1) as nat, s);
    } else {
        assert(zeros(k) + s =~= s);
    }
}

proof fn lemma_zeros_digits(k: nat, s: Seq<char>)
    requires
        all_digits(s),
    ensures
        all_digits(zeros(k) + s),
{
    assert forall|i: int| 0 <= i < (zeros(k) + s).len() implies is_digit(#[trigger] (zeros(k) + s)[i]) by {
        if i >= k {
            assert((zeros(k) + s)[i] == s[i - k]);
        }
    }
}

/// A digit string is the decimal form of its value with zeros in front.
proof fn lemma_digits_canonical(d: Seq<char>)
    requires
        d.len() > 0,
        all_digits(d),
    ensures
        decimal(digits_value(d)).len() <= d.len(),
        zeros((d.len() - decimal(digits_value(d)).len()) as nat) + decimal(digits_value(d)) == d,
    decreases d.len(),
{
    let p = d.drop_last();
    let c = d.last();
    assert(is_digit(d[d.len() - 1]));
    lemma_decimal(digits_value(d));
    if p.len() == 0 {
        assert(digits_value(p) == 0);
        assert(decimal(digits_value(d)) =~= seq![c]);
        assert(d =~= seq![c]);
        assert(zeros(0) + seq![c] =~= d);
    } else {
        assert forall|i: int| 0 <= i < p.len() implies is_digit(#[trigger] p[i]) by {
            assert(p[i] == d[i]);
        }
        lemma_digits_canonical(p);
        let vp = digits_value(p);
        lemma_decimal(vp);
        if vp == 0 {
            assert(decimal(0) =~= seq!['0']);
            assert(decimal(digits_value(d)) =~= seq![c]);
            assert(p =~= zeros((p.len() - 1) as nat) + seq!['0']);
            assert(d =~= p.push(c));
            assert(zeros((d.len() - 1) as nat) + seq![c] =~= d);
        } else {
            let v = digits_value(d);
            assert(v == vp * 10 + digit_value(c));
            assert(v / 10 == vp);
            assert(v % 10 == digit_value(c));
            assert(decimal(v) == decimal(vp).push(digit_char(digit_value(c))));
            assert(digit_char(digit_value(c)) == c);
            assert(d =~= p.push(c));
            assert(zeros((d.len() - decimal(v).len()) as nat) + decimal(v) =~= d);
        }
    }
}

/// `last_index_of` skips a tail that does not hold the character.
proof fn lemma_last_index_of_skip(s: Seq<char>, t: Seq<char>, c: char)
    requires
        forall|i: int| 0 <= i < t.len() ==> t[i] != c,
    ensures
        last_index_of(s + t, c) == last_index_of(s, c),
    decreases t.len(),
{
    if t.len() > 0 {
        assert((s + t).drop_last() =~= s + t.drop_last());
        assert((s + t).last() == t[t.len() - 1]);
        lemma_last_index_of_skip(s, t.drop_last(), c);
    } else {
        assert(s + t =~= s);
    }
}

/// Reading back a rendered suffix: whatever name stands in front of it, the
/// suffix is detected as a version with the style and number that were
/// rendered, and with the requested width exactly when zeros were added.
pub proof fn law_detect_rendered(core: Seq<char>, style: NumberStyle, number: u64, pad: Option<usize>)
    ensures
        spec_detect_version(core + spec_render(style, number, pad)) == Some(
            (core, Version { style, number, pad: kept_pad(number, pad) }),
        ),
{
    let dec = decimal(number as nat);
    lemma_decimal(number as nat);
    let p = padded(dec, pad);
    let o = open_char(style);
    let base = core + spec_render(style, number, pad);
    lemma_style_closed_by(style);
    if p != dec {
        lemma_zeros_value((pad->0 - dec.len()) as nat, dec);
        lemma_zeros_digits((pad->0 - dec.len()) as nat, dec);
    }
    assert(all_digits(p));
    assert(digits_value(p) == number);
    let prefix = base.drop_last();
    assert(base.last() == close_char(style));
    assert(prefix =~= (core + seq![o]) + p);
    assert forall|i: int| 0 <= i < p.len() implies p[i] != o by {
        assert(is_digit(p[i]));
    }
    lemma_last_index_of_skip(core + seq![o], p, o);
    assert(last_index_of(core + seq![o], o) == Some(core.len() as int));
    assert(prefix.subrange(core.len() as int + 1, prefix.len() as int) =~= p);
    assert(prefix.subrange(0, core.len() as int) =~= core);
    if p == dec {
        assert(p.len() > 1 ==> number > 0);
    } else {
        assert(p[0] == '0');
    }
}

/// Rendering a detected version gives back the name it was detected in: the
/// bracket style, the number and its zero-padding are all kept.
pub proof fn law_render_detected(base: Seq<char>)
    requires
        base.len() <= usize::MAX,
        spec_detect_version(base) is Some,
    ensures
        ({
            let (core, version) = spec_detect_version(base)->0;
            core + spec_render(version.style, version.number, version.pad) == base
        }),
{
    let style = style_closed_by(base.last())->0;
    lemma_closed_by_close(base.last());
    let prefix = base.drop_last();
    let idx = last_index_of(prefix, open_char(style))->0;
    lemma_last_index_of(prefix, open_char(style));
    let digits = prefix.subrange(idx + 1, prefix.len() as int);
    let (core, version) = spec_detect_version(base)->0;
    let dec = decimal(digits_value(digits));
    lemma_digits_canonical(digits);
    lemma_decimal(digits_value(digits));
    assert(version.number as nat == digits_value(digits));
    if digits.len() > 1 && digits[0] == '0' {
        if dec.len() == digits.len() {
            assert(dec == digits);
            assert(digits_value(digits) == 0);
        }
        assert(padded(dec, version.pad) == digits);
    } else {
        if dec.len() < digits.len() {
            assert(digits[0] == (zeros((digits.len() - dec.len()) as nat) + dec)[0]);
        }
        assert(zeros(0) + dec =~= dec);
        assert(padded(dec, version.pad) == digits);
    }
    assert(core + spec_render(version.style, version.number, version.pad) =~= base);
}

} // verus!

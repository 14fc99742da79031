//! How numbers are written and read, and texts are trimmed and padded.

use vstd::prelude::*;

use crate::text::{chars, decimal, digit_char, push_char, push_decimal, push_str, string_between};

verus! {

/// The characters with the Unicode property White_Space.
pub open spec fn white_space(c: char) -> bool {
    let n = c as u32;
    ||| 0x09 <= n <= 0x0d
    ||| n == 0x20
    ||| n == 0x85
    ||| n == 0xa0
    ||| n == 0x1680
    ||| 0x2000 <= n <= 0x200a
    ||| n == 0x2028
    ||| n == 0x2029
    ||| n == 0x202f
    ||| n == 0x205f
    ||| n == 0x3000
}

pub(crate) fn is_white_space(c: char) -> (b: bool)
    ensures
        b == white_space(c),
{
    let n: u32 = c as u32;
    (0x09 <= n && n <= 0x0d) || n == 0x20 || n == 0x85 || n == 0xa0 || n == 0x1680 || (0x2000 <= n
        && n <= 0x200a) || n == 0x2028 || n == 0x2029 || n == 0x202f || n == 0x205f || n == 0x3000
}

/// A text without the white space it begins with.
pub open spec fn trim_start(s: Seq<char>) -> Seq<char>
    decreases s.len(),
{
    if s.len() > 0 && white_space(s[0]) {
        trim_start(s.skip(1))
    } else {
        s
    }
}

/// A text without the white space it ends with.
pub open spec fn trim_end(s: Seq<char>) -> Seq<char>
    decreases s.len(),
{
    if s.len() > 0 && white_space(s.last()) {
        trim_end(s.drop_last())
    } else {
        s
    }
}

/// A text without the white space around it.
pub open spec fn trimmed(s: Seq<char>) -> Seq<char> {
    trim_end(trim_start(s))
}

/// Cuts the white space around a text.
pub fn trim(s: &str) -> (r: String)
    ensures
        r@ == trimmed(s@),
{
    let cs = chars(s);
    let mut from: usize = 0;
    assert(s@.skip(0) =~= s@);
    while from < cs.len() && is_white_space(cs[from])
        invariant
            from <= cs@.len(),
            cs@ == s@,
            trim_start(s@) == trim_start(s@.skip(from as int)),
        decreases cs@.len() - from,
    {
        assert(s@.skip(from as int).skip(1) =~= s@.skip(from + 1));
        from = from + 1;
    }
    let ghost rest = s@.skip(from as int);
    assert(trim_start(s@) == rest) by {
        if from < cs@.len() {
            assert(rest[0] == s@[from as int]);
        }
    }
    let mut to: usize = cs.len();
    assert(s@.subrange(from as int, to as int) =~= rest);
    while to > from && is_white_space(cs[to - 1])
        invariant
            from <= to <= cs@.len(),
            cs@ == s@,
            trim_end(rest) == trim_end(s@.subrange(from as int, to as int)),
        decreases to,
    {
        let ghost part = s@.subrange(from as int, to as int);
        assert(part.last() == s@[to - 1]);
        assert(part.drop_last() =~= s@.subrange(from as int, to - 1));
        to = to - 1;
    }
    proof {
        let part = s@.subrange(from as int, to as int);
        if from < to {
            assert(part.last() == s@[to - 1]);
        }
        assert(trim_end(part) == part);
    }
    string_between(cs.as_slice(), from, to)
}

/// `n` times the character `c`.
pub open spec fn repeated(c: char, n: nat) -> Seq<char> {
    Seq::new(n, |i: int| c)
}

/// Appends a character `n` times.
pub fn push_repeated(s: &mut String, c: char, n: usize)
    ensures
        final(s)@ == old(s)@ + repeated(c, n as nat),
{
    let mut i: usize = 0;
    assert(s@ =~= old(s)@ + repeated(c, 0));
    while i < n
        invariant
            i <= n,
            s@ == old(s)@ + repeated(c, i as nat),
        decreases n - i,
    {
        push_char(s, c);
        assert(s@ =~= old(s)@ + repeated(c, (i + 1) as nat));
        i = i + 1;
    }
}

/// How much `width` is more than `len`.
pub open spec fn missing(width: nat, len: nat) -> nat {
    if len < width {
        (width - len) as nat
    } else {
        0
    }
}

/// A number with at least `width` characters, zeros in front of its digits.
#[verifier::opaque]
pub open spec fn zero_padded(n: int, width: nat) -> Seq<char> {
    if n < 0 {
        let d = decimal((-n) as nat);
        seq!['-'] + repeated('0', missing(width, d.len() + 1)) + d
    } else {
        let d = decimal(n as nat);
        repeated('0', missing(width, d.len())) + d
    }
}

/// Appends a number with at least `width` characters, with zeros in front of
/// its digits.
pub fn push_zero_padded(s: &mut String, n: i64, width: usize)
    ensures
        final(s)@ == old(s)@ + zero_padded(n as int, width as nat),
{
    reveal(zero_padded);
    let mut d = String::new();
    let magnitude: u64 = if n < 0 {
        push_char(s, '-');
        (-(n + 1)) as u64 + 1
    } else {
        n as u64
    };
    push_decimal(&mut d, magnitude);
    assert(d@ =~= decimal(magnitude as nat));
    let taken: usize = if n < 0 {
        1
    } else {
        0
    };
    let len: usize = chars(d.as_str()).len();
    let zeros: usize = if len <= width && taken <= width - len {
        width - len - taken
    } else {
        0
    };
    push_repeated(s, '0', zeros);
    push_str(s, d.as_str());
    assert(s@ =~= old(s)@ + zero_padded(n as int, width as nat));
}

/// Appends a number at the right end of a column of `width` characters.
pub fn push_right(s: &mut String, n: u64, width: usize)
    ensures
        final(s)@ == old(s)@ + repeated(' ', missing(width as nat, decimal(n as nat).len()))
            + decimal(n as nat),
{
    let mut d = String::new();
    push_decimal(&mut d, n);
    assert(d@ =~= decimal(n as nat));
    let len: usize = chars(d.as_str()).len();
    if len < width {
        push_repeated(s, ' ', width - len);
    } else {
        assert(repeated(' ', 0) =~= Seq::<char>::empty());
    }
    push_str(s, d.as_str());
    assert(s@ =~= old(s)@ + repeated(' ', missing(width as nat, decimal(n as nat).len()))
        + decimal(n as nat));
}

/// The lower-case hexadecimal digit of `d`, for `d < 16`.
pub open spec fn hex_digit(d: nat) -> char {
    if d < 10 {
        (('0' as u8) + d) as char
    } else {
        (('a' as u8) + d - 10) as char
    }
}

/// The character for a hexadecimal digit.
pub fn hex_char(d: u8) -> (c: char)
    requires
        d < 16,
    ensures
        c == hex_digit(d as nat),
{
    if d < 10 {
        digit_char(d)
    } else {
        (87u8 + d) as char
    }
}

/// Octets in hexadecimal notation, two digits each.
pub open spec fn hex_text(bytes: Seq<u8>) -> Seq<char>
    decreases bytes.len(),
{
    if bytes.len() == 0 {
        Seq::empty()
    } else {
        hex_text(bytes.drop_last()).push(hex_digit((bytes.last() / 16) as nat)).push(
            hex_digit((bytes.last() % 16) as nat),
        )
    }
}

/// Writes octets in hexadecimal notation.
pub fn hex(bytes: &[u8]) -> (s: String)
    ensures
        s@ == hex_text(bytes@),
{
    let mut s = String::new();
    let mut i: usize = 0;
    assert(bytes@.take(0) =~= Seq::<u8>::empty());
    while i < bytes.len()
        invariant
            i <= bytes@.len(),
            s@ == hex_text(bytes@.take(i as int)),
        decreases bytes@.len() - i,
    {
        push_char(&mut s, hex_char(bytes[i] / 16));
        push_char(&mut s, hex_char(bytes[i] % 16));
        assert(bytes@.take(i + 1).drop_last() =~= bytes@.take(i as int));
        i = i + 1;
    }
    assert(bytes@.take(i as int) =~= bytes@);
    s
}

/// The value of decimal digits.
pub open spec fn digits_value(s: Seq<char>) -> nat
    decreases s.len(),
{
    if s.len() == 0 {
        0
    } else {
        digits_value(s.drop_last()) * 10 + (s.last() as u32 - 48) as nat
    }
}

/// Whether a text is made of decimal digits, one at least.
pub open spec fn is_digits(s: Seq<char>) -> bool {
    s.len() > 0 && forall|i: int| 0 <= i < s.len() ==> '0' <= #[trigger] s[i] <= '9'
}

/// The number that a text writes: digits behind an optional plus sign, or also
/// behind a minus sign where the number may be negative.
pub open spec fn number(s: Seq<char>, signed: bool) -> Option<int> {
    if is_digits(s) {
        Some(digits_value(s) as int)
    } else if s.len() > 0 && s[0] == '+' && is_digits(s.skip(1)) {
        Some(digits_value(s.skip(1)) as int)
    } else if signed && s.len() > 0 && s[0] == '-' && is_digits(s.skip(1)) {
        Some(-digits_value(s.skip(1)))
    } else {
        None
    }
}

/// What `i64::from_str` says of a text that it refuses.
pub uninterp spec fn i64_complaint(s: Seq<char>) -> Seq<char>;

/// Reads a signed number: `i64::from_str`. A text is read where it is a number
/// in range; otherwise the message of the failure is handed out.
#[verifier::external_body]
pub(crate) fn parse_i64(s: &str) -> (r: Result<i64, String>)
    ensures
        match r {
            Ok(n) => number(s@, true) == Some(n as int),
            Err(e) => {
                &&& e@ == i64_complaint(s@)
                &&& number(s@, true) matches Some(n) ==> !(i64::MIN <= n <= i64::MAX)
            },
        },
{
    s.parse::<i64>().map_err(|e| e.to_string())
}

/// What `u32::from_str` says of a text that it refuses.
pub uninterp spec fn u32_complaint(s: Seq<char>) -> Seq<char>;

/// Reads an unsigned number: `u32::from_str`. A text is read where it is a
/// number in range; otherwise the message of the failure is handed out.
#[verifier::external_body]
pub(crate) fn parse_u32(s: &str) -> (r: Result<u32, String>)
    ensures
        match r {
            Ok(n) => number(s@, false) == Some(n as int),
            Err(e) => {
                &&& e@ == u32_complaint(s@)
                &&& number(s@, false) matches Some(n) ==> n > u32::MAX
            },
        },
{
    s.parse::<u32>().map_err(|e| e.to_string())
}

/// The text that `str::to_lowercase` makes of a text.
pub uninterp spec fn lowercase(s: Seq<char>) -> Seq<char>;

/// Maps a text to lower case: `str::to_lowercase`.
#[verifier::external_body]
pub(crate) fn to_lowercase(s: &str) -> (r: String)
    ensures
        r@ == lowercase(s@),
{
    s.to_lowercase()
}

/// A number reads back from its decimal notation.
pub proof fn a_decimal_reads_back(n: nat)
    ensures
        is_digits(decimal(n)),
        digits_value(decimal(n)) == n,
    decreases n,
{
    let s = decimal(n);
    if n < 10 {
        assert(s.drop_last() =~= Seq::<char>::empty());
        assert(digits_value(s.drop_last()) == 0);
    } else {
        a_decimal_reads_back(n / 10);
        assert(s.drop_last() =~= decimal(n / 10));
        assert forall|i: int| 0 <= i < s.len() implies '0' <= #[trigger] s[i] <= '9' by {
            if i < s.len() - 1 {
                assert(s[i] == decimal(n / 10)[i]);
            }
        }
    }
}

/// Trimming cuts white space alone, from both sides, and all of it there.
pub proof fn trimming_cuts_the_white_space_around(s: Seq<char>)
    ensures
        trimmed(s).len() > 0 ==> !white_space(trimmed(s)[0]) && !white_space(trimmed(s).last()),
        exists|a: Seq<char>, b: Seq<char>|
            #![trigger a + trimmed(s) + b]
            s == a + trimmed(s) + b && (forall|i: int|
                0 <= i < a.len() ==> white_space(#[trigger] a[i])) && (forall|i: int|
                0 <= i < b.len() ==> white_space(#[trigger] b[i])),
{
    let a = lemma_trim_start(s);
    let b = lemma_trim_end(trim_start(s));
    assert(s =~= a + trimmed(s) + b);
    if trimmed(s).len() > 0 {
        assert(trimmed(s)[0] == trim_start(s)[0]);
    }
}

proof fn lemma_trim_start(s: Seq<char>) -> (a: Seq<char>)
    ensures
        s == a + trim_start(s),
        forall|i: int| 0 <= i < a.len() ==> white_space(#[trigger] a[i]),
        trim_start(s).len() > 0 ==> !white_space(trim_start(s)[0]),
    decreases s.len(),
{
    if s.len() > 0 && white_space(s[0]) {
        let a = lemma_trim_start(s.skip(1));
        let whole = seq![s[0]] + a;
        assert(s =~= whole + trim_start(s)) by {
            assert(s =~= seq![s[0]] + s.skip(1));
        }
        assert forall|i: int| 0 <= i < whole.len() implies white_space(#[trigger] whole[i]) by {
            if i > 0 {
                assert(whole[i] == a[i - 1]);
            }
        }
        whole
    } else {
        assert(s =~= Seq::<char>::empty() + s);
        Seq::empty()
    }
}

proof fn lemma_trim_end(s: Seq<char>) -> (b: Seq<char>)
    ensures
        s == trim_end(s) + b,
        forall|i: int| 0 <= i < b.len() ==> white_space(#[trigger] b[i]),
        trim_end(s).len() > 0 ==> !white_space(trim_end(s).last()),
    decreases s.len(),
{
    if s.len() > 0 && white_space(s.last()) {
        let b = lemma_trim_end(s.drop_last());
        let whole = b.push(s.last());
        assert(s =~= trim_end(s) + whole) by {
            assert(s =~= s.drop_last().push(s.last()));
        }
        assert forall|i: int| 0 <= i < whole.len() implies white_space(#[trigger] whole[i]) by {
            if i < b.len() {
                assert(whole[i] == b[i]);
            }
        }
        whole
    } else {
        assert(s =~= s + Seq::<char>::empty());
        Seq::empty()
    }
}

/// Of the ASCII characters the blank, the tab and the line ends are white
/// space, and nothing that shows.
pub proof fn what_shows_is_no_white_space(c: char)
    requires
        c as u32 <= 0x7f,
    ensures
        white_space(c) <==> c == ' ' || c == '\t' || c == '\n' || c == '\r' || c as u32 == 0x0b
            || c as u32 == 0x0c,
{
}

/// Padding a number leaves its value, and gives it the width unless it is wider
/// by itself.
pub proof fn padding_leaves_the_value(n: nat, width: nat)
    ensures
        is_digits(zero_padded(n as int, width)),
        digits_value(zero_padded(n as int, width)) == n,
        zero_padded(n as int, width).len() >= width,
        zero_padded(n as int, width).len() > width ==> zero_padded(n as int, width) == decimal(n),
        n > 0 ==> zero_padded(-n, width)[0] == '-',
        n > 0 ==> number(zero_padded(-n, width), true) == Some(-n),
        n > 0 ==> zero_padded(-n, width).len() >= width,
{
    reveal(zero_padded);
    a_decimal_reads_back(n);
    lemma_zeros_in_front(missing(width, decimal(n).len()), decimal(n));
    lemma_zeros_in_front(missing(width, decimal(n).len() + 1), decimal(n));
    if decimal(n).len() >= width {
        assert(repeated('0', 0) + decimal(n) =~= decimal(n));
    }
    if n > 0 {
        let z = zero_padded(-n, width);
        let d = repeated('0', missing(width, decimal(n).len() + 1)) + decimal(n);
        assert(z =~= seq!['-'] + d);
        assert(z.skip(1) =~= d);
        assert(!is_digits(z)) by {
            assert(z[0] == '-');
        }
    }
}

proof fn lemma_zeros_in_front(k: nat, d: Seq<char>)
    requires
        is_digits(d),
    ensures
        is_digits(repeated('0', k) + d),
        digits_value(repeated('0', k) + d) == digits_value(d),
    decreases d.len(),
{
    let s = repeated('0', k) + d;
    assert forall|i: int| 0 <= i < s.len() implies '0' <= #[trigger] s[i] <= '9' by {
        if i >= k {
            assert(s[i] == d[i - k]);
        }
    }
    assert(s.last() == d.last());
    assert(s.drop_last() =~= repeated('0', k) + d.drop_last());
    if d.len() > 1 {
        assert(is_digits(d.drop_last()));
        lemma_zeros_in_front(k, d.drop_last());
    } else {
        lemma_zeros_are_nothing(k);
        assert(s.drop_last() =~= repeated('0', k));
        assert(d.drop_last() =~= Seq::<char>::empty());
    }
}

proof fn lemma_zeros_are_nothing(k: nat)
    ensures
        digits_value(repeated('0', k)) == 0,
    decreases k,
{
    if k > 0 {
        lemma_zeros_are_nothing((k - 1) as nat);
        assert(repeated('0', k).drop_last() =~= repeated('0', (k - 1) as nat));
    }
}

/// A number reads back from its digits, also behind a plus sign; behind a minus
/// sign it is negative, where it may be; and nothing at all is no number.
pub proof fn a_number_reads_back_with_its_sign(n: nat, signed: bool)
    ensures
        number(decimal(n), signed) == Some(n as int),
        number(seq!['+'] + decimal(n), signed) == Some(n as int),
        number(seq!['-'] + decimal(n), true) == Some(-n),
        number(seq!['-'] + decimal(n), false) is None,
        number(Seq::empty(), signed) is None,
        number(seq!['+'], signed) is None,
        number(seq!['-'], signed) is None,
{
    a_decimal_reads_back(n);
    let plus = seq!['+'] + decimal(n);
    let minus = seq!['-'] + decimal(n);
    assert(plus.skip(1) =~= decimal(n));
    assert(minus.skip(1) =~= decimal(n));
    assert(plus[0] == '+' && minus[0] == '-');
    assert(seq!['+'][0] == '+' && seq!['-'][0] == '-');
}

/// Each octet is written as two hexadecimal digits, its upper half first.
pub proof fn an_octet_is_written_as_two_digits(bytes: Seq<u8>, i: int)
    requires
        0 <= i < bytes.len(),
    ensures
        hex_text(bytes).len() == 2 * bytes.len(),
        hex_text(bytes)[2 * i] == "0123456789abcdef"@[bytes[i] as int / 16],
        hex_text(bytes)[2 * i + 1] == "0123456789abcdef"@[bytes[i] as int % 16],
    decreases bytes.len(),
{
    reveal_strlit("0123456789abcdef");
    lemma_hex_len(bytes);
    lemma_hex_len(bytes.drop_last());
    if i < bytes.len() - 1 {
        an_octet_is_written_as_two_digits(bytes.drop_last(), i);
    } else {
        lemma_hex_digit((bytes[i] / 16) as nat);
        lemma_hex_digit((bytes[i] % 16) as nat);
    }
}

proof fn lemma_hex_len(bytes: Seq<u8>)
    ensures
        hex_text(bytes).len() == 2 * bytes.len(),
    decreases bytes.len(),
{
    if bytes.len() > 0 {
        lemma_hex_len(bytes.drop_last());
    }
}

proof fn lemma_hex_digit(d: nat)
    requires
        d < 16,
    ensures
        hex_digit(d) == "0123456789abcdef"@[d as int],
{
    reveal_strlit("0123456789abcdef");
}

} // verus!

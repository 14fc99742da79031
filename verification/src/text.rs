//! Small text helpers whose results are pinned down over `Seq<char>`.

use vstd::prelude::*;

verus! {

/// The decimal digit of `d`, for `d < 10`.
pub open spec fn digit(d: nat) -> char {
    (('0' as u8) + d) as char
}

/// The decimal notation of `n`, without leading zeros.
pub open spec fn decimal(n: nat) -> Seq<char>
    decreases n,
{
    if n < 10 {
        seq![digit(n)]
    } else {
        decimal(n / 10).push(digit(n % 10))
    }
}

/// Appends one character to a string: `String::push`.
#[verifier::external_body]
pub(crate) fn push_char(s: &mut String, c: char)
    ensures
        final(s)@ == old(s)@.push(c),
{
    s.push(c);
}

/// The text that `String::from_utf8_lossy` makes of octets.
pub uninterp spec fn utf8_lossy(b: Seq<u8>) -> Seq<char>;

/// Decodes octets as UTF-8, putting replacement characters where they are not:
/// `String::from_utf8_lossy`. Octets that are valid UTF-8 give exactly the
/// characters that they encode.
#[verifier::external_body]
pub(crate) fn from_utf8_lossy(b: &[u8]) -> (s: String)
    ensures
        s@ == utf8_lossy(b@),
        vstd::utf8::valid_utf8(b@) ==> s@ == vstd::utf8::decode_utf8(b@),
{
    String::from_utf8_lossy(b).into_owned()
}

/// Appends `t` to `s`.
pub(crate) fn push_str(s: &mut String, t: &str)
    ensures
        final(s)@ == old(s)@ + t@,
{
    s.append(t);
}

/// The character for a decimal digit.
pub(crate) fn digit_char(d: u8) -> (c: char)
    requires
        d < 10,
    ensures
        c == digit(d as nat),
{
    (48u8 + d) as char
}

/// Appends the decimal notation of `n` to `s`.
pub fn push_decimal(s: &mut String, n: u64)
    ensures
        final(s)@ == old(s)@ + decimal(n as nat),
    decreases n,
{
    if n < 10 {
        push_char(s, digit_char(n as u8));
        assert(s@ =~= old(s)@ + decimal(n as nat));
    } else {
        push_decimal(s, n / 10);
        push_char(s, digit_char((n % 10) as u8));
        assert(s@ =~= old(s)@ + decimal(n as nat));
    }
}

/// Reports whether two texts hold the same characters.
pub fn same(a: &str, b: &str) -> (r: bool)
    ensures
        r == (a@ == b@),
{
    let x = a.as_bytes();
    let y = b.as_bytes();
    proof {
        vstd::utf8::encode_utf8_decode_utf8(a@);
        vstd::utf8::encode_utf8_decode_utf8(b@);
    }
    if x.len() != y.len() {
        return false;
    }
    let mut i: usize = 0;
    while i < x.len()
        invariant
            i <= x@.len() == y@.len(),
            x@ == vstd::utf8::encode_utf8(a@),
            y@ == vstd::utf8::encode_utf8(b@),
            forall|j: int| 0 <= j < i ==> x@[j] == y@[j],
        decreases x@.len() - i,
    {
        if x[i] != y[i] {
            return false;
        }
        i = i + 1;
    }
    assert(x@ =~= y@);
    true
}

/// What each of some texts holds.
pub open spec fn texts(v: Seq<String>) -> Seq<Seq<char>> {
    Seq::new(v.len(), |i: int| v[i]@)
}

/// Returns the characters of a text.
pub fn chars(s: &str) -> (v: Vec<char>)
    ensures
        v@ == s@,
{
    let mut v: Vec<char> = Vec::new();
    for c in it: s.chars()
        invariant
            v@ == it.seq().take(it.index()),
            it.seq() == s@,
    {
        v.push(c);
        assert(v@ =~= it.seq().take(it.index() + 1));
    }
    assert(v@ =~= s@);
    v
}

/// Makes a text of the characters from `from` up to `to`.
pub fn string_between(cs: &[char], from: usize, to: usize) -> (s: String)
    requires
        from <= to <= cs@.len(),
    ensures
        s@ == cs@.subrange(from as int, to as int),
{
    let mut s = String::new();
    let mut i: usize = from;
    while i < to
        invariant
            from <= i <= to <= cs@.len(),
            s@ == cs@.subrange(from as int, i as int),
        decreases to - i,
    {
        push_char(&mut s, cs[i]);
        assert(s@ =~= cs@.subrange(from as int, i + 1));
        i = i + 1;
    }
    s
}

/// The position of the first `c` in `s`, or the length where there is none.
pub open spec fn first_of(s: Seq<char>, c: char) -> nat
    decreases s.len(),
{
    if s.len() == 0 || s[0] == c {
        0
    } else {
        1 + first_of(s.skip(1), c)
    }
}

/// `first_of` is the first position that holds `c`.
pub proof fn lemma_first_of(s: Seq<char>, c: char)
    ensures
        first_of(s, c) <= s.len(),
        first_of(s, c) < s.len() ==> s[first_of(s, c) as int] == c,
        forall|i: int| 0 <= i < first_of(s, c) ==> s[i] != c,
    decreases s.len(),
{
    if s.len() > 0 && s[0] != c {
        lemma_first_of(s.skip(1), c);
        assert forall|i: int| 0 <= i < first_of(s, c) implies s[i] != c by {
            if i > 0 {
                assert(s[i] == s.skip(1)[i - 1]);
            }
        }
    }
}

/// A position that holds `c` with none before it is the first one.
pub proof fn lemma_first_of_is(s: Seq<char>, c: char, k: int)
    requires
        0 <= k <= s.len(),
        k < s.len() ==> s[k] == c,
        forall|i: int| 0 <= i < k ==> s[i] != c,
    ensures
        first_of(s, c) == k,
{
    lemma_first_of(s, c);
}

/// The parts of `s` between the separators.
pub open spec fn split_on(s: Seq<char>, sep: char) -> Seq<Seq<char>>
    decreases s.len(),
    via split_on_decreases
{
    let k = first_of(s, sep);
    if k >= s.len() {
        seq![s]
    } else {
        seq![s.take(k as int)] + split_on(s.skip(k as int + 1), sep)
    }
}

#[via_fn]
proof fn split_on_decreases(s: Seq<char>, sep: char) {
    lemma_first_of(s, sep);
}

/// Splits a text at every separator.
pub fn split(s: &str, sep: char) -> (parts: Vec<String>)
    ensures
        texts(parts@) == split_on(s@, sep),
        parts@.len() >= 1,
{
    let cs = chars(s);
    let mut parts: Vec<String> = Vec::new();
    let mut from: usize = 0;
    let mut i: usize = 0;
    assert(s@.skip(0) =~= s@);
    assert(texts(parts@) + split_on(s@.skip(0), sep) =~= split_on(s@, sep));
    while i < cs.len()
        invariant
            from <= i <= cs@.len(),
            cs@ == s@,
            forall|j: int| from <= j < i ==> s@[j] != sep,
            texts(parts@) + split_on(s@.skip(from as int), sep) == split_on(s@, sep),
        decreases cs@.len() - i,
    {
        if cs[i] == sep {
            let part = string_between(cs.as_slice(), from, i);
            proof {
                let rest = s@.skip(from as int);
                lemma_first_of_is(rest, sep, i - from);
                assert(rest.take(i - from) =~= part@);
                assert(rest.skip(i - from + 1) =~= s@.skip(i + 1));
                assert(texts(parts@.push(part)) =~= texts(parts@).push(part@));
                assert(texts(parts@) + (seq![part@] + split_on(s@.skip(i + 1), sep)) =~= texts(
                    parts@.push(part),
                ) + split_on(s@.skip(i + 1), sep));
            }
            parts.push(part);
            from = i + 1;
        }
        i = i + 1;
    }
    let part = string_between(cs.as_slice(), from, cs.len());
    proof {
        let rest = s@.skip(from as int);
        lemma_first_of_is(rest, sep, rest.len() as int);
        assert(rest =~= part@);
        assert(texts(parts@.push(part)) =~= texts(parts@) + seq![rest]);
    }
    parts.push(part);
    parts
}

/// What stands before and behind the first separator.
pub open spec fn split_first(s: Seq<char>, sep: char) -> Option<(Seq<char>, Seq<char>)> {
    let k = first_of(s, sep);
    if k >= s.len() {
        None
    } else {
        Some((s.take(k as int), s.skip(k as int + 1)))
    }
}

/// Splits a text at the first separator.
pub fn split_once(s: &str, sep: char) -> (r: Option<(String, String)>)
    ensures
        match (r, split_first(s@, sep)) {
            (Some((a, b)), Some((x, y))) => a@ == x && b@ == y,
            (None, None) => true,
            _ => false,
        },
{
    let cs = chars(s);
    let mut i: usize = 0;
    while i < cs.len()
        invariant
            i <= cs@.len(),
            cs@ == s@,
            forall|j: int| 0 <= j < i ==> s@[j] != sep,
        decreases cs@.len() - i,
    {
        if cs[i] == sep {
            let a = string_between(cs.as_slice(), 0, i);
            let b = string_between(cs.as_slice(), i + 1, cs.len());
            proof {
                lemma_first_of_is(s@, sep, i as int);
                assert(a@ =~= s@.take(i as int));
                assert(b@ =~= s@.skip(i + 1));
            }
            return Some((a, b));
        }
        i = i + 1;
    }
    proof {
        lemma_first_of_is(s@, sep, s@.len() as int);
    }
    None
}

/// The parts with `sep` between each two.
pub open spec fn joined(parts: Seq<Seq<char>>, sep: Seq<char>) -> Seq<char>
    decreases parts.len(),
{
    if parts.len() == 0 {
        Seq::empty()
    } else if parts.len() == 1 {
        parts[0]
    } else {
        joined(parts.drop_last(), sep) + sep + parts.last()
    }
}

/// Joins texts from `from` on with `sep` between each two.
pub fn join(parts: &Vec<String>, from: usize, sep: &str) -> (s: String)
    requires
        from <= parts@.len(),
    ensures
        s@ == joined(texts(parts@).skip(from as int), sep@),
{
    let mut s = String::new();
    let mut i: usize = from;
    let ghost all = texts(parts@);
    while i < parts.len()
        invariant
            from <= i <= parts@.len(),
            all == texts(parts@),
            s@ == joined(all.subrange(from as int, i as int), sep@),
        decreases parts@.len() - i,
    {
        let ghost before = s@;
        if i > from {
            push_str(&mut s, sep);
        }
        push_str(&mut s, parts[i].as_str());
        proof {
            let now = all.subrange(from as int, i + 1);
            assert(now.drop_last() =~= all.subrange(from as int, i as int));
            assert(now.last() == parts@[i as int]@);
            if i == from {
                assert(s@ =~= now[0]);
            } else {
                assert(s@ =~= before + sep@ + now.last());
            }
        }
        i = i + 1;
    }
    assert(all.subrange(from as int, i as int) =~= all.skip(from as int));
    s
}

/// Whether `needle` occurs in `hay`.
pub open spec fn occurs(needle: Seq<char>, hay: Seq<char>) -> bool {
    exists|i: int| #[trigger] occurs_at(needle, hay, i)
}

/// Whether `needle` stands at position `i` of `hay`.
pub open spec fn occurs_at(needle: Seq<char>, hay: Seq<char>, i: int) -> bool {
    0 <= i && i + needle.len() <= hay.len() && hay.subrange(i, i + needle.len()) == needle
}

fn stands_at(needle: &Vec<char>, hay: &Vec<char>, i: usize) -> (b: bool)
    requires
        i + needle@.len() <= hay@.len(),
    ensures
        b == occurs_at(needle@, hay@, i as int),
{
    let n: usize = hay.len();
    let mut j: usize = 0;
    while j < needle.len()
        invariant
            j <= needle@.len(),
            i + needle@.len() <= hay@.len() <= usize::MAX,
            forall|k: int| 0 <= k < j ==> hay@[i + k] == needle@[k],
        decreases needle@.len() - j,
    {
        if hay[i + j] != needle[j] {
            assert(hay@.subrange(i as int, i + needle@.len())[j as int] != needle@[j as int]);
            return false;
        }
        j = j + 1;
    }
    assert(hay@.subrange(i as int, i + needle@.len()) =~= needle@);
    true
}

/// Reports whether `needle` occurs in `hay`.
pub fn contains(hay: &str, needle: &str) -> (b: bool)
    ensures
        b == occurs(needle@, hay@),
{
    let h = chars(hay);
    let n = chars(needle);
    if n.len() > h.len() {
        return false;
    }
    let last: usize = h.len() - n.len();
    let mut i: usize = 0;
    while i <= last
        invariant
            i <= last + 1,
            last + n@.len() == h@.len() <= usize::MAX,
            h@ == hay@,
            n@ == needle@,
            forall|k: int| 0 <= k < i ==> !occurs_at(needle@, hay@, k),
        decreases last + 1 - i,
    {
        if stands_at(&n, &h, i) {
            return true;
        }
        if i == last {
            assert forall|k: int| !occurs_at(needle@, hay@, k) by {}
            return false;
        }
        i = i + 1;
    }
    false
}

/// Reports whether `s` ends with `tail`.
pub fn ends_with(s: &str, tail: &str) -> (b: bool)
    ensures
        b == tail@.is_suffix_of(s@),
{
    let h = chars(s);
    let n = chars(tail);
    if n.len() > h.len() {
        return false;
    }
    stands_at(&n, &h, h.len() - n.len())
}

/// Reports whether `s` starts with `head`.
pub fn starts_with(s: &str, head: &str) -> (b: bool)
    ensures
        b == head@.is_prefix_of(s@),
{
    let h = chars(s);
    let n = chars(head);
    if n.len() > h.len() {
        return false;
    }
    stands_at(&n, &h, 0)
}

/// Whether `list` holds a text.
pub fn holds(list: &Vec<String>, s: &str) -> (b: bool)
    ensures
        b == texts(list@).contains(s@),
{
    let mut i: usize = 0;
    while i < list.len()
        invariant
            i <= list@.len(),
            forall|j: int| 0 <= j < i ==> texts(list@)[j] != s@,
        decreases list@.len() - i,
    {
        if same(list[i].as_str(), s) {
            assert(texts(list@)[i as int] == s@);
            return true;
        }
        i = i + 1;
    }
    false
}

/// Where a character stands last in a text, or -1.
pub open spec fn last_of(s: Seq<char>, c: char) -> int
    decreases s.len(),
{
    if s.len() == 0 {
        -1
    } else if s.last() == c {
        s.len() - 1
    } else {
        last_of(s.drop_last(), c)
    }
}

/// What stands in front of the last `sep` of a text; nothing where there is
/// none.
pub open spec fn before_last(s: Seq<char>, sep: char) -> Seq<char> {
    if last_of(s, sep) < 0 {
        Seq::empty()
    } else {
        s.take(last_of(s, sep))
    }
}

/// What stands behind the last `sep` of a text; all of it where there is none.
pub open spec fn after_last(s: Seq<char>, sep: char) -> Seq<char> {
    s.skip(last_of(s, sep) + 1)
}

/// Splits a text at the last `sep`.
pub fn split_last(s: &str, sep: char) -> (r: (String, String))
    ensures
        r.0@ == before_last(s@, sep),
        r.1@ == after_last(s@, sep),
{
    let cs = chars(s);
    let mut n: usize = cs.len();
    assert(s@.take(n as int) =~= s@);
    while n > 0 && cs[n - 1] != sep
        invariant
            n <= cs@.len(),
            cs@ == s@,
            last_of(s@, sep) == last_of(s@.take(n as int), sep),
        decreases n,
    {
        assert(s@.take(n as int).drop_last() =~= s@.take(n - 1));
        n = n - 1;
    }
    assert(last_of(s@, sep) == n - 1) by {
        if n > 0 {
            assert(s@.take(n as int).last() == s@[n - 1]);
        }
    }
    let behind = string_between(cs.as_slice(), n, cs.len());
    assert(behind@ =~= after_last(s@, sep));
    if n == 0 {
        (String::new(), behind)
    } else {
        let front = string_between(cs.as_slice(), 0, n - 1);
        assert(front@ =~= before_last(s@, sep));
        (front, behind)
    }
}

/// A text in the quoted notation of `{:?}`.
pub uninterp spec fn quoted(s: Seq<char>) -> Seq<char>;

/// Writes a text in quotes, with escapes where they are needed: the `Debug`
/// notation of `str`.
#[verifier::external_body]
pub(crate) fn quote(s: &str) -> (r: String)
    ensures
        r@ == quoted(s@),
{
    format!("{s:?}")
}

/// Joining a first part to others puts the separator behind it.
pub proof fn lemma_joined_front(first: Seq<char>, rest: Seq<Seq<char>>, sep: Seq<char>)
    requires
        rest.len() > 0,
    ensures
        joined(seq![first] + rest, sep) == first + sep + joined(rest, sep),
    decreases rest.len(),
{
    let all = seq![first] + rest;
    assert(all.last() == rest.last());
    if rest.len() == 1 {
        assert(all.drop_last() =~= seq![first]);
        assert(joined(seq![first], sep) == first);
    } else {
        assert(all.drop_last() =~= seq![first] + rest.drop_last());
        lemma_joined_front(first, rest.drop_last(), sep);
        assert(joined(all, sep) =~= first + sep + joined(rest, sep));
    }
}

/// Joining the parts between separators with that separator gives the text
/// back.
pub proof fn joining_undoes_splitting(s: Seq<char>, sep: char)
    ensures
        split_on(s, sep).len() > 0,
        joined(split_on(s, sep), seq![sep]) == s,
    decreases s.len(),
{
    lemma_first_of(s, sep);
    let k = first_of(s, sep) as int;
    if k < s.len() {
        joining_undoes_splitting(s.skip(k + 1), sep);
        lemma_joined_front(s.take(k), split_on(s.skip(k + 1), sep), seq![sep]);
        assert(s.take(k) + seq![sep] + s.skip(k + 1) =~= s);
    }
}

/// Splitting a text that was joined gives the parts back, as long as no part
/// holds the separator.
pub proof fn splitting_undoes_joining(parts: Seq<Seq<char>>, sep: char)
    requires
        parts.len() > 0,
        forall|i: int| 0 <= i < parts.len() ==> !(#[trigger] parts[i]).contains(sep),
    ensures
        split_on(joined(parts, seq![sep]), sep) == parts,
    decreases parts.len(),
{
    let first = parts[0];
    assert forall|i: int| 0 <= i < first.len() implies first[i] != sep by {
        assert(!parts[0].contains(sep));
    }
    if parts.len() == 1 {
        lemma_first_of_is(first, sep, first.len() as int);
        assert(parts =~= seq![first]);
    } else {
        let rest = parts.skip(1);
        assert(parts =~= seq![first] + rest);
        lemma_joined_front(first, rest, seq![sep]);
        splitting_undoes_joining(rest, sep);
        let s = joined(parts, seq![sep]);
        lemma_first_of_is(s, sep, first.len() as int);
        assert(s.take(first.len() as int) =~= first);
        assert(s.skip(first.len() as int + 1) =~= joined(rest, seq![sep]));
    }
}

/// The parts between separators hold none.
pub proof fn parts_hold_no_separator(s: Seq<char>, sep: char, other: char)
    ensures
        forall|i: int|
            0 <= i < split_on(s, sep).len() ==> !(#[trigger] split_on(s, sep)[i]).contains(sep),
        !s.contains(other) ==> forall|i: int|
            0 <= i < split_on(s, sep).len() ==> !(#[trigger] split_on(s, sep)[i]).contains(other),
    decreases s.len(),
{
    lemma_first_of(s, sep);
    let k = first_of(s, sep) as int;
    let parts = split_on(s, sep);
    if k < s.len() {
        let tail = s.skip(k + 1);
        parts_hold_no_separator(tail, sep, other);
        assert(parts == seq![s.take(k)] + split_on(tail, sep));
        assert forall|i: int| 0 <= i < parts.len() implies !(#[trigger] parts[i]).contains(
            sep,
        ) by {
            if i > 0 {
                assert(parts[i] == split_on(tail, sep)[i - 1]);
            }
        }
        if !s.contains(other) {
            assert(!tail.contains(other)) by {
                assert forall|j: int| 0 <= j < tail.len() implies tail[j] != other by {
                    assert(tail[j] == s[k + 1 + j]);
                }
            }
            assert forall|i: int| 0 <= i < parts.len() implies !(#[trigger] parts[i]).contains(
                other,
            ) by {
                if i > 0 {
                    assert(parts[i] == split_on(tail, sep)[i - 1]);
                } else {
                    assert forall|j: int| 0 <= j < parts[0].len() implies parts[0][j] != other by {
                        assert(parts[0][j] == s[j]);
                    }
                }
            }
        }
    }
}

/// A text is split where the separator first stands: what comes before holds
/// none, and the two halves and the separator make up the text.
pub proof fn a_text_is_split_at_the_first(s: Seq<char>, sep: char)
    ensures
        split_first(s, sep) is None <==> !s.contains(sep),
        split_first(s, sep) matches Some((a, b)) ==> s == a + seq![sep] + b && !a.contains(sep),
{
    lemma_first_of(s, sep);
    let k = first_of(s, sep) as int;
    if k < s.len() {
        assert(s =~= s.take(k) + seq![sep] + s.skip(k + 1));
        assert(s[k] == sep);
        assert(!s.take(k).contains(sep));
    } else {
        assert(!s.contains(sep));
    }
}

/// A text is split where the separator last stands: what comes behind holds
/// none, and the two halves and the separator make up the text.
pub proof fn a_text_is_split_at_the_last(s: Seq<char>, sep: char)
    ensures
        s.contains(sep) ==> s == before_last(s, sep) + seq![sep] + after_last(s, sep),
        !s.contains(sep) ==> before_last(s, sep).len() == 0 && after_last(s, sep) == s,
        !after_last(s, sep).contains(sep),
{
    lemma_last_of(s, sep);
    let k = last_of(s, sep);
    if k >= 0 {
        assert(s[k] == sep);
        assert(s =~= s.take(k) + seq![sep] + s.skip(k + 1));
    } else {
        assert(!s.contains(sep));
        assert(s.skip(0) =~= s);
    }
    assert forall|i: int| 0 <= i < after_last(s, sep).len() implies after_last(s, sep)[i] != sep by {
        assert(s[k + 1 + i] != sep);
    }
}

proof fn lemma_last_of(s: Seq<char>, c: char)
    ensures
        -1 <= last_of(s, c) < s.len(),
        last_of(s, c) >= 0 ==> s[last_of(s, c)] == c,
        forall|i: int| last_of(s, c) < i < s.len() ==> s[i] != c,
    decreases s.len(),
{
    if s.len() > 0 && s.last() != c {
        lemma_last_of(s.drop_last(), c);
        assert forall|i: int| last_of(s, c) < i < s.len() implies s[i] != c by {
            if i < s.len() - 1 {
                assert(s[i] == s.drop_last()[i]);
            }
        }
    }
}

/// A text occurs in another exactly where that one is made up of it and of
/// what stands around it.
pub proof fn what_occurs_stands_between(needle: Seq<char>, a: Seq<char>, b: Seq<char>)
    ensures
        occurs(needle, a + needle + b),
        forall|hay: Seq<char>| #[trigger]
            occurs(needle, hay) ==> exists|x: Seq<char>, y: Seq<char>|
                hay == #[trigger] (x + needle + y),
{
    let whole = a + needle + b;
    assert(whole.subrange(a.len() as int, (a.len() + needle.len()) as int) =~= needle);
    assert(occurs_at(needle, whole, a.len() as int));
    assert forall|hay: Seq<char>| #[trigger] occurs(needle, hay) implies exists|
        x: Seq<char>,
        y: Seq<char>,
    | hay == #[trigger] (x + needle + y) by {
        let i = choose|i: int| #[trigger] occurs_at(needle, hay, i);
        assert(hay =~= hay.take(i) + needle + hay.skip(i + needle.len()));
    }
}

/// A number is written with the digits 0 to 9, the most weighty first, and no
/// zero in front.
pub proof fn a_number_is_written_in_tens(n: nat)
    ensures
        decimal(n).last() == "0123456789"@[n as int % 10],
        n >= 10 ==> decimal(n).drop_last() == decimal(n / 10),
        n < 10 ==> decimal(n).len() == 1,
        n > 0 ==> decimal(n)[0] != '0',
    decreases n,
{
    reveal_strlit("0123456789");
    if n >= 10 {
        a_number_is_written_in_tens(n / 10);
        assert(decimal(n).drop_last() =~= decimal(n / 10));
    }
}

} // verus!

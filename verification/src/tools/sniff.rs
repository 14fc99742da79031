//! The command line of the GOOSE sniffer, and how it shows a message.

use vstd::prelude::*;

use crate::goose::message::MessageView;
use crate::goose::{Anomalies, Filter, Message};
use crate::mms::value::lemma_views;
use crate::notation::{hex_char, hex_digit};
use crate::text::{
    chars, decimal, push_char, push_decimal, push_str, same, texts,
};

verus! {

/// The value of a hexadecimal digit.
pub open spec fn hex_value(c: char) -> Option<nat> {
    if '0' <= c <= '9' {
        Some((c as u32 - 48) as nat)
    } else if 'a' <= c <= 'f' {
        Some((c as u32 - 87) as nat)
    } else if 'A' <= c <= 'F' {
        Some((c as u32 - 55) as nat)
    } else {
        None
    }
}

fn hex_digit_value(c: char) -> (r: Option<u32>)
    ensures
        match r {
            Some(d) => hex_value(c) == Some(d as nat) && d < 16,
            None => hex_value(c) is None,
        },
{
    let u: u32 = c as u32;
    if '0' <= c && c <= '9' {
        Some(u - 48)
    } else if 'a' <= c && c <= 'f' {
        Some(u - 87)
    } else if 'A' <= c && c <= 'F' {
        Some(u - 55)
    } else {
        None
    }
}

/// The number that hexadecimal digits write, where they all are digits.
pub open spec fn hex_number(s: Seq<char>) -> Option<nat>
    decreases s.len(),
{
    if s.len() == 0 {
        Some(0)
    } else {
        match (hex_number(s.drop_last()), hex_value(s.last())) {
            (Some(n), Some(d)) => Some(n * 16 + d),
            _ => None,
        }
    }
}

/// A number does not grow smaller when more digits follow.
proof fn lemma_hex_number_grows(s: Seq<char>, k: int)
    requires
        0 <= k <= s.len(),
    ensures
        hex_number(s) matches Some(n) ==> (hex_number(s.take(k)) matches Some(m) && m <= n),
    decreases s.len() - k,
{
    if k == s.len() {
        assert(s.take(k) =~= s);
    } else {
        lemma_hex_number_grows(s, k + 1);
        assert(s.take(k + 1).drop_last() =~= s.take(k));
    }
}

/// A text without the `0x`s that it starts with.
pub open spec fn without_prefix(s: Seq<char>) -> Seq<char>
    decreases s.len(),
{
    if s.len() >= 2 && s[0] == '0' && s[1] == 'x' {
        without_prefix(s.skip(2))
    } else {
        s
    }
}

/// The APPID that a text writes: hexadecimal digits, which `0x` and a plus sign
/// may precede.
pub open spec fn app_id_of(s: Seq<char>) -> Option<u16> {
    let t = without_prefix(s);
    let digits = if t.len() > 0 && t[0] == '+' {
        t.skip(1)
    } else {
        t
    };
    match hex_number(digits) {
        Some(n) if digits.len() > 0 && n <= 0xffff => Some(n as u16),
        _ => None,
    }
}

/// Reads an APPID.
pub fn parse_app_id(s: &str) -> (r: Option<u16>)
    ensures
        r == app_id_of(s@),
{
    let cs = chars(s);
    let len: usize = cs.len();
    let mut from: usize = 0;
    assert(s@.skip(0) =~= s@);
    while len - from >= 2 && cs[from] == '0' && cs[from + 1] == 'x'
        invariant
            from <= len == cs@.len(),
            cs@ == s@,
            without_prefix(s@) == without_prefix(s@.skip(from as int)),
        decreases len - from,
    {
        assert(s@.skip(from as int).skip(2) =~= s@.skip(from + 2));
        from = from + 2;
    }
    let ghost t = without_prefix(s@);
    assert(t == s@.skip(from as int));
    if from < len && cs[from] == '+' {
        from = from + 1;
    }
    let ghost digits = s@.skip(from as int);
    assert(t.len() > 0 && t[0] == '+' ==> digits =~= t.skip(1));
    if from == len {
        return None;
    }
    let mut n: u32 = 0;
    let mut i: usize = from;
    assert(digits.take(0) =~= Seq::<char>::empty());
    while i < len
        invariant
            from <= i <= len == cs@.len(),
            cs@ == s@,
            digits == s@.skip(from as int),
            n <= 0xffff,
            hex_number(digits.take(i - from)) == Some(n as nat),
            digits.len() > 0,
            digits == (if t.len() > 0 && t[0] == '+' {
                t.skip(1)
            } else {
                t
            }),
            t == without_prefix(s@),
        decreases len - i,
    {
        let ghost k = i - from;
        assert(digits.take(k + 1).drop_last() =~= digits.take(k));
        assert(digits.take(k + 1).last() == cs@[i as int]);
        proof {
            lemma_hex_number_grows(digits, k + 1);
        }
        match hex_digit_value(cs[i]) {
            None => return None,
            Some(d) => {
                n = n * 16 + d;
                if n > 0xffff {
                    return None;
                }
            },
        }
        i = i + 1;
    }
    assert(digits.take(i - from) =~= digits);
    Some(n as u16)
}

/// What comes of the command line of the sniffer.
#[derive(Debug)]
pub enum Parsed {
    Run { iface: String, filter: Filter, quiet: bool },
    /// Say how the tool is used.
    Usage,
    /// Name the option that is not known, and say how the tool is used.
    Unknown(String),
}

/// What comes of the command line of the sniffer, with text as it is.
pub enum ParsedView {
    Run { iface: Seq<char>, app_id: u16, go_cb_ref: Seq<char>, quiet: bool },
    Usage,
    Unknown(Seq<char>),
}

impl View for Parsed {
    type V = ParsedView;

    open spec fn view(&self) -> ParsedView {
        match self {
            Parsed::Run { iface, filter, quiet } => ParsedView::Run {
                iface: iface@,
                app_id: filter.app_id,
                go_cb_ref: filter.go_cb_ref@,
                quiet: *quiet,
            },
            Parsed::Usage => ParsedView::Usage,
            Parsed::Unknown(s) => ParsedView::Unknown(s@),
        }
    }
}

/// What the words of a command line from `i` on come to, behind what was asked
/// for in front of them.
pub open spec fn parsed_from(
    words: Seq<Seq<char>>,
    i: int,
    iface: Seq<char>,
    app_id: u16,
    go_cb_ref: Seq<char>,
    quiet: bool,
) -> ParsedView
    decreases words.len() - i,
{
    if i < 0 || i >= words.len() {
        ParsedView::Run { iface, app_id, go_cb_ref, quiet }
    } else {
        let w = words[i];
        if w == "--iface"@ {
            if i + 1 < words.len() {
                parsed_from(words, i + 2, words[i + 1], app_id, go_cb_ref, quiet)
            } else {
                ParsedView::Usage
            }
        } else if w == "--appid"@ {
            if i + 1 < words.len() {
                match app_id_of(words[i + 1]) {
                    Some(id) => parsed_from(words, i + 2, iface, id, go_cb_ref, quiet),
                    None => ParsedView::Usage,
                }
            } else {
                ParsedView::Usage
            }
        } else if w == "--gocbref"@ {
            if i + 1 < words.len() {
                parsed_from(words, i + 2, iface, app_id, words[i + 1], quiet)
            } else {
                ParsedView::Usage
            }
        } else if w == "--quiet"@ {
            parsed_from(words, i + 1, iface, app_id, go_cb_ref, true)
        } else if w == "--help"@ || w == "-h"@ {
            ParsedView::Usage
        } else {
            ParsedView::Unknown(w)
        }
    }
}

/// Reads the command line of the sniffer.
pub fn parse_args(words: &Vec<String>) -> (p: Parsed)
    ensures
        p@ == parsed_from(texts(words@), 0, "eth0"@, 0, Seq::empty(), false),
{
    let ghost all = texts(words@);
    let mut iface = "eth0".to_owned();
    let mut app_id: u16 = 0;
    let mut go_cb_ref = String::new();
    let mut quiet = false;
    let mut i: usize = 0;
    assert(go_cb_ref@ =~= Seq::<char>::empty());
    while i < words.len()
        invariant
            i <= words@.len(),
            all == texts(words@),
            parsed_from(all, 0, "eth0"@, 0, Seq::empty(), false) == parsed_from(
                all,
                i as int,
                iface@,
                app_id,
                go_cb_ref@,
                quiet,
            ),
        decreases words@.len() - i,
    {
        assert(all[i as int] == words@[i as int]@);
        let w = words[i].as_str();
        let last = words.len() - i < 2;
        if !last {
            assert(all[i + 1] == words@[i + 1]@);
        }
        if same(w, "--iface") {
            if last {
                return Parsed::Usage;
            }
            iface = words[i + 1].clone();
            i = i + 2;
        } else if same(w, "--appid") {
            if last {
                return Parsed::Usage;
            }
            match parse_app_id(words[i + 1].as_str()) {
                Some(id) => {
                    app_id = id;
                },
                None => return Parsed::Usage,
            }
            i = i + 2;
        } else if same(w, "--gocbref") {
            if last {
                return Parsed::Usage;
            }
            go_cb_ref = words[i + 1].clone();
            i = i + 2;
        } else if same(w, "--quiet") {
            quiet = true;
            i = i + 1;
        } else if same(w, "--help") || same(w, "-h") {
            return Parsed::Usage;
        } else {
            return Parsed::Unknown(words[i].clone());
        }
    }
    Parsed::Run { iface, filter: Filter { app_id, go_cb_ref }, quiet }
}

/// Four hexadecimal digits.
pub open spec fn hex4(n: u16) -> Seq<char> {
    seq![
        hex_digit((n / 4096) as nat),
        hex_digit((n / 256 % 16) as nat),
        hex_digit((n / 16 % 16) as nat),
        hex_digit((n % 16) as nat),
    ]
}

fn push_hex4(s: &mut String, n: u16)
    ensures
        final(s)@ == old(s)@ + hex4(n),
{
    push_char(s, hex_char((n / 4096) as u8));
    push_char(s, hex_char((n / 256 % 16) as u8));
    push_char(s, hex_char((n / 16 % 16) as u8));
    push_char(s, hex_char((n % 16) as u8));
    assert(s@ =~= old(s)@ + hex4(n));
}

/// What is said of irregularities in a sequence of messages; nothing where there
/// is none.
pub open spec fn anomaly_text(a: Anomalies) -> Seq<char> {
    if a == Anomalies::clear() {
        Seq::empty()
    } else {
        " ANOMALY:"@ + (if a.st_num_regressed {
            " stNum-regressed"@
        } else {
            Seq::empty()
        }) + (if a.sq_num_gap {
            " sqNum-gap"@
        } else {
            Seq::empty()
        }) + (if a.stale {
            " stale"@
        } else {
            Seq::empty()
        })
    }
}

/// The line for the `n`th message.
pub open spec fn line_of(n: nat, m: MessageView) -> Seq<char> {
    "#"@ + decimal(n) + " appid=0x"@ + hex4(m.app_id) + " "@ + m.go_cb_ref + " stNum="@ + decimal(
        m.st_num as nat,
    ) + " sqNum="@ + decimal(m.sq_num as nat) + " confRev="@ + decimal(m.conf_rev as nat)
        + " ttl="@ + decimal(m.time_allowed_to_live as nat) + "ms entries="@ + decimal(
        m.values.len(),
    ) + (if m.test {
        " TEST"@
    } else {
        Seq::empty()
    }) + (if m.nds_com {
        " NDSCOM"@
    } else {
        Seq::empty()
    }) + anomaly_text(m.anomalies)
}

/// Appends a text where a condition holds.
fn push_if(s: &mut String, b: bool, text: &str)
    ensures
        final(s)@ == old(s)@ + (if b {
            text@
        } else {
            Seq::empty()
        }),
{
    if b {
        push_str(s, text);
    }
    assert(!b ==> s@ + Seq::<char>::empty() =~= s@);
}

fn push_anomalies(s: &mut String, a: Anomalies)
    ensures
        final(s)@ == old(s)@ + anomaly_text(a),
{
    if a.any() {
        push_str(s, " ANOMALY:");
        push_if(s, a.st_num_regressed, " stNum-regressed");
        push_if(s, a.sq_num_gap, " sqNum-gap");
        push_if(s, a.stale, " stale");
    }
    assert(s@ =~= old(s)@ + anomaly_text(a));
}

/// The line for the `n`th message.
pub fn message_line(n: u64, m: &Message) -> (s: String)
    ensures
        s@ == line_of(n as nat, m@),
{
    proof {
        lemma_views(m.values@, m.values@.len());
    }
    let mut s = "#".to_owned();
    push_decimal(&mut s, n);
    push_str(&mut s, " appid=0x");
    push_hex4(&mut s, m.app_id);
    push_str(&mut s, " ");
    push_str(&mut s, m.go_cb_ref.as_str());
    push_str(&mut s, " stNum=");
    push_decimal(&mut s, m.st_num as u64);
    push_str(&mut s, " sqNum=");
    push_decimal(&mut s, m.sq_num as u64);
    push_str(&mut s, " confRev=");
    push_decimal(&mut s, m.conf_rev as u64);
    push_str(&mut s, " ttl=");
    push_decimal(&mut s, m.time_allowed_to_live as u64);
    push_str(&mut s, "ms entries=");
    push_decimal(&mut s, m.values.len() as u64);
    push_if(&mut s, m.test, " TEST");
    push_if(&mut s, m.nds_com, " NDSCOM");
    push_anomalies(&mut s, m.anomalies);
    s
}

/// The line for a value of a message: its place and how it reads.
pub fn value_line(i: usize, value: &str) -> (s: String)
    ensures
        s@ == "    ["@ + decimal(i as nat) + "] "@ + value@,
{
    let mut s = "    [".to_owned();
    push_decimal(&mut s, i as u64);
    push_str(&mut s, "] ");
    push_str(&mut s, value);
    s
}

/// The words behind what was read are read as they would be on their own.
proof fn lemma_parsed_behind(
    front: Seq<Seq<char>>,
    rest: Seq<Seq<char>>,
    i: int,
    iface: Seq<char>,
    app_id: u16,
    go_cb_ref: Seq<char>,
    quiet: bool,
)
    requires
        0 <= i <= rest.len(),
    ensures
        parsed_from(front + rest, front.len() + i, iface, app_id, go_cb_ref, quiet) == parsed_from(
            rest,
            i,
            iface,
            app_id,
            go_cb_ref,
            quiet,
        ),
    decreases rest.len() - i,
{
    let all = front + rest;
    let k = front.len() + i;
    if i < rest.len() {
        assert(all[k] == rest[i]);
        lemma_parsed_behind(front, rest, i + 1, iface, app_id, go_cb_ref, true);
        if i + 1 < rest.len() {
            assert(all[k + 1] == rest[i + 1]);
            lemma_parsed_behind(front, rest, i + 2, rest[i + 1], app_id, go_cb_ref, quiet);
            lemma_parsed_behind(front, rest, i + 2, iface, app_id, rest[i + 1], quiet);
            if let Some(id) = app_id_of(rest[i + 1]) {
                lemma_parsed_behind(front, rest, i + 2, iface, id, go_cb_ref, quiet);
            }
        }
    }
}

/// An option sets its own value and nothing else, and the last one of its kind
/// counts; an APPID is given in hexadecimal.
pub proof fn an_option_sets_its_own_value(
    rest: Seq<Seq<char>>,
    value: Seq<char>,
    id: u16,
    iface: Seq<char>,
    app_id: u16,
    go_cb_ref: Seq<char>,
    quiet: bool,
)
    ensures
        parsed_from(seq!["--iface"@, value] + rest, 0, iface, app_id, go_cb_ref, quiet)
            == parsed_from(rest, 0, value, app_id, go_cb_ref, quiet),
        parsed_from(seq!["--gocbref"@, value] + rest, 0, iface, app_id, go_cb_ref, quiet)
            == parsed_from(rest, 0, iface, app_id, value, quiet),
        app_id_of(value) == Some(id) ==> parsed_from(
            seq!["--appid"@, value] + rest,
            0,
            iface,
            app_id,
            go_cb_ref,
            quiet,
        ) == parsed_from(rest, 0, iface, id, go_cb_ref, quiet),
        app_id_of(value) is None ==> parsed_from(
            seq!["--appid"@, value] + rest,
            0,
            iface,
            app_id,
            go_cb_ref,
            quiet,
        ) is Usage,
        parsed_from(seq!["--quiet"@] + rest, 0, iface, app_id, go_cb_ref, quiet) == parsed_from(
            rest,
            0,
            iface,
            app_id,
            go_cb_ref,
            true,
        ),
        parsed_from(Seq::empty(), 0, iface, app_id, go_cb_ref, quiet) == (ParsedView::Run {
            iface,
            app_id,
            go_cb_ref,
            quiet,
        }),
{
    reveal_strlit("--iface");
    reveal_strlit("--appid");
    reveal_strlit("--gocbref");
    reveal_strlit("--quiet");
    assert("--iface"@[2] == 'i' && "--appid"@[2] == 'a' && "--quiet"@[2] == 'q');
    let a = seq!["--iface"@, value];
    let b = seq!["--gocbref"@, value];
    let c = seq!["--appid"@, value];
    let d = seq!["--quiet"@];
    lemma_parsed_behind(a, rest, 0, value, app_id, go_cb_ref, quiet);
    lemma_parsed_behind(b, rest, 0, iface, app_id, value, quiet);
    lemma_parsed_behind(c, rest, 0, iface, id, go_cb_ref, quiet);
    lemma_parsed_behind(d, rest, 0, iface, app_id, go_cb_ref, true);
    assert((a + rest)[0] == a[0] && (a + rest)[1] == value);
    assert((b + rest)[0] == b[0] && (b + rest)[1] == value);
    assert((c + rest)[0] == c[0] && (c + rest)[1] == value);
    assert((d + rest)[0] == d[0]);
}

/// An APPID reads back from its four digits, with or without `0x` in front.
pub proof fn an_app_id_reads_back(n: u16)
    ensures
        hex4(n).len() == 4,
        app_id_of(hex4(n)) == Some(n),
        app_id_of(seq!['0', 'x'] + hex4(n)) == Some(n),
{
    let s = hex4(n);
    assert(without_prefix(s) == s);
    assert((seq!['0', 'x'] + s).skip(2) =~= s);
    assert((seq!['0', 'x'] + s)[0] == '0' && (seq!['0', 'x'] + s)[1] == 'x');
    assert(s[0] != '+');
    a_hexadecimal_digit_weighs_sixteen(s.take(3), s[3], (n % 16) as nat);
    a_hexadecimal_digit_weighs_sixteen(s.take(2), s[2], (n / 16 % 16) as nat);
    a_hexadecimal_digit_weighs_sixteen(s.take(1), s[1], (n / 256 % 16) as nat);
    a_hexadecimal_digit_weighs_sixteen(s.take(0), s[0], (n / 4096) as nat);
    assert(s.take(3).push(s[3]) =~= s);
    assert(s.take(2).push(s[2]) =~= s.take(3));
    assert(s.take(1).push(s[1]) =~= s.take(2));
    assert(s.take(0).push(s[0]) =~= s.take(1));
    assert(s.take(0) =~= Seq::<char>::empty());
}

/// A hexadecimal digit behind others shifts them up by four bits; a letter
/// counts the same in either case.
pub proof fn a_hexadecimal_digit_weighs_sixteen(s: Seq<char>, c: char, d: nat)
    requires
        d < 16,
        c == "0123456789abcdef"@[d as int] || c == "0123456789ABCDEF"@[d as int] || c == hex_digit(
            d,
        ),
    ensures
        hex_number(Seq::empty()) == Some(0nat),
        hex_number(s) matches Some(n) ==> hex_number(s.push(c)) == Some((16 * n + d) as nat),
        hex_number(s) is None ==> hex_number(s.push(c)) is None,
{
    reveal_strlit("0123456789abcdef");
    reveal_strlit("0123456789ABCDEF");
    assert(s.push(c).drop_last() =~= s);
}

/// Each irregularity is named on its own, behind the word for all of them.
pub proof fn irregularities_are_named(a: Anomalies)
    ensures
        !a.st_num_regressed && !a.sq_num_gap && !a.stale && !a.entries_mismatch
            ==> anomaly_text(a).len() == 0,
        a.st_num_regressed && !a.sq_num_gap && !a.stale ==> anomaly_text(a)
            == " ANOMALY:"@ + " stNum-regressed"@,
        !a.st_num_regressed && a.sq_num_gap && !a.stale ==> anomaly_text(a) == " ANOMALY:"@
            + " sqNum-gap"@,
        !a.st_num_regressed && !a.sq_num_gap && a.stale ==> anomaly_text(a) == " ANOMALY:"@
            + " stale"@,
        a.st_num_regressed && a.sq_num_gap && a.stale ==> anomaly_text(a) == " ANOMALY:"@
            + " stNum-regressed"@ + " sqNum-gap"@ + " stale"@,
        a.st_num_regressed && a.sq_num_gap && !a.stale ==> anomaly_text(a) == " ANOMALY:"@
            + " stNum-regressed"@ + " sqNum-gap"@,
        a.st_num_regressed && !a.sq_num_gap && a.stale ==> anomaly_text(a) == " ANOMALY:"@
            + " stNum-regressed"@ + " stale"@,
        !a.st_num_regressed && a.sq_num_gap && a.stale ==> anomaly_text(a) == " ANOMALY:"@
            + " sqNum-gap"@ + " stale"@,
{
    let none = Seq::<char>::empty();
    let head = " ANOMALY:"@;
    assert(head + none =~= head);
    let x = head + " stNum-regressed"@;
    let y = head + " sqNum-gap"@;
    assert(x + none =~= x);
    assert(y + none =~= y);
    assert(x + none + none =~= x);
    assert(head + none + none =~= head);
    let z = x + " sqNum-gap"@;
    assert(z + none =~= z);
}

/// A line names the message that it shows: its number, where it came from, its
/// counters and how many values it has; test data and a block in need of
/// commissioning are marked, and so is every irregularity.
pub proof fn a_line_names_its_message(n: nat, m: MessageView)
    ensures
        ({
            let told = "#"@ + decimal(n) + " appid=0x"@ + hex4(m.app_id) + " "@ + m.go_cb_ref
                + " stNum="@ + decimal(m.st_num as nat) + " sqNum="@ + decimal(m.sq_num as nat)
                + " confRev="@ + decimal(m.conf_rev as nat) + " ttl="@ + decimal(
                m.time_allowed_to_live as nat,
            ) + "ms entries="@ + decimal(m.values.len());
            &&& !m.test && !m.nds_com ==> line_of(n, m) == told + anomaly_text(m.anomalies)
            &&& m.test && !m.nds_com ==> line_of(n, m) == told + " TEST"@ + anomaly_text(
                m.anomalies,
            )
            &&& !m.test && m.nds_com ==> line_of(n, m) == told + " NDSCOM"@ + anomaly_text(
                m.anomalies,
            )
            &&& m.test && m.nds_com ==> line_of(n, m) == told + " TEST"@ + " NDSCOM"@
                + anomaly_text(m.anomalies)
        }),
{
    let told = "#"@ + decimal(n) + " appid=0x"@ + hex4(m.app_id) + " "@ + m.go_cb_ref + " stNum="@
        + decimal(m.st_num as nat) + " sqNum="@ + decimal(m.sq_num as nat) + " confRev="@ + decimal(
        m.conf_rev as nat,
    ) + " ttl="@ + decimal(m.time_allowed_to_live as nat) + "ms entries="@ + decimal(
        m.values.len(),
    );
    let none = Seq::<char>::empty();
    assert(told + none =~= told);
    assert(told + " TEST"@ + none =~= told + " TEST"@);
}

} // verus!

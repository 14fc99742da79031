//! Addresses and names of devices as they are typed and shown.

use vstd::prelude::*;

use crate::notation::{is_white_space, white_space};
use crate::text::{chars, push_char, push_str, same, texts};

verus! {

/// How often a character occurs in a text.
pub open spec fn occurrences(s: Seq<char>, c: char) -> nat
    decreases s.len(),
{
    if s.len() == 0 {
        0
    } else {
        occurrences(s.drop_last(), c) + (if s.last() == c {
            1nat
        } else {
            0nat
        })
    }
}

/// An address with a port.
pub open spec fn with_port(s: Seq<char>) -> Seq<char> {
    if s.len() == 0 {
        Seq::empty()
    } else if s[0] == '[' {
        if s.last() == ']' {
            s + ":102"@
        } else {
            s
        }
    } else if occurrences(s, ':') == 0 {
        s + ":102"@
    } else if occurrences(s, ':') == 1 {
        s
    } else {
        "["@ + s + "]:102"@
    }
}

/// Adds the default MMS port when the address gives only a host.
///
/// A bare IPv6 address has colons of its own, so only a bracketed form or a
/// single colon is taken as carrying a port.
pub fn normalise_addr(s: &str) -> (r: String)
    ensures
        r@ == with_port(s@),
{
    let cs = chars(s);
    let n: usize = cs.len();
    if n == 0 {
        return String::new();
    }
    let mut r = s.to_owned();
    if cs[0] == '[' {
        if cs[n - 1] == ']' {
            push_str(&mut r, ":102");
        }
        return r;
    }
    let mut colons: usize = 0;
    let mut i: usize = 0;
    assert(s@.take(0) =~= Seq::<char>::empty());
    while i < n
        invariant
            i <= n == cs@.len(),
            cs@ == s@,
            colons <= i,
            colons == occurrences(s@.take(i as int), ':'),
        decreases n - i,
    {
        assert(s@.take(i + 1).drop_last() =~= s@.take(i as int));
        if cs[i] == ':' {
            colons = colons + 1;
        }
        i = i + 1;
    }
    assert(s@.take(i as int) =~= s@);
    if colons == 0 {
        push_str(&mut r, ":102");
        r
    } else if colons == 1 {
        r
    } else {
        // Unbracketed IPv6: bracket it so it can carry a port.
        let mut b = "[".to_owned();
        push_str(&mut b, s);
        push_str(&mut b, "]:102");
        b
    }
}

/// An address with a port keeps it: completing it once more changes nothing.
pub proof fn completing_an_address_is_settled(s: Seq<char>)
    ensures
        with_port(with_port(s)) == with_port(s),
{
    reveal_strlit(":102");
    reveal_strlit("[");
    reveal_strlit("]:102");
    if s.len() > 0 {
        let t = with_port(s);
        if s[0] == '[' {
            if s.last() == ']' {
                assert(t[0] == '[');
                assert(t.last() == '2');
            }
        } else if occurrences(s, ':') == 0 {
            assert(t[0] == s[0]);
            lemma_occurrences_concat(s, ":102"@, ':');
            assert(occurrences(":102"@, ':') == 1) by {
                reveal_with_fuel(occurrences, 5);
                let p = ":102"@;
                assert(p.last() == '2');
                assert(p.drop_last().last() == '0');
                assert(p.drop_last().drop_last().last() == '1');
                assert(p.drop_last().drop_last().drop_last().last() == ':');
                assert(p.drop_last().drop_last().drop_last().drop_last().len() == 0);
            }
        } else if occurrences(s, ':') > 1 {
            assert(t[0] == '[');
            assert(t.last() == '2');
        }
    }
}

proof fn lemma_occurrences_concat(a: Seq<char>, b: Seq<char>, c: char)
    ensures
        occurrences(a + b, c) == occurrences(a, c) + occurrences(b, c),
    decreases b.len(),
{
    if b.len() == 0 {
        assert(a + b =~= a);
    } else {
        assert((a + b).drop_last() =~= a + b.drop_last());
        lemma_occurrences_concat(a, b.drop_last(), c);
    }
}

/// The words of a text with one blank between each two.
pub open spec fn squeezed(s: Seq<char>) -> Seq<char>
    decreases s.len(),
{
    if s.len() == 0 {
        Seq::empty()
    } else {
        let before = squeezed(s.drop_last());
        let c = s.last();
        if white_space(c) {
            before
        } else if before.len() > 0 && white_space(s[s.len() - 2]) {
            before.push(' ').push(c)
        } else {
            before.push(c)
        }
    }
}

/// Writes the words of a text with one blank between each two.
fn squeeze(s: &str) -> (r: String)
    ensures
        r@ == squeezed(s@),
{
    let cs = chars(s);
    let mut r = String::new();
    let mut some = false;
    let mut gap = false;
    let mut i: usize = 0;
    assert(s@.take(0) =~= Seq::<char>::empty());
    while i < cs.len()
        invariant
            i <= cs@.len(),
            cs@ == s@,
            r@ == squeezed(s@.take(i as int)),
            some == (r@.len() > 0),
            gap == (i > 0 && white_space(s@[i - 1])),
        decreases cs@.len() - i,
    {
        let ghost next = s@.take(i + 1);
        assert(next.drop_last() =~= s@.take(i as int));
        assert(next.last() == s@[i as int]);
        if i > 0 {
            assert(next[next.len() - 2] == s@[i - 1]);
        }
        let c = cs[i];
        if is_white_space(c) {
            gap = true;
        } else {
            if some && gap {
                push_char(&mut r, ' ');
            }
            push_char(&mut r, c);
            some = true;
            gap = false;
        }
        i = i + 1;
    }
    assert(s@.take(i as int) =~= s@);
    r
}

/// The name of a device as it is shown: its vendor, model and revision.
pub fn identity_text(vendor: &str, model: &str, revision: &str) -> (r: String)
    ensures
        r@ == squeezed(vendor@ + " "@ + model@ + " "@ + revision@),
{
    let mut s = vendor.to_owned();
    push_str(&mut s, " ");
    push_str(&mut s, model);
    push_str(&mut s, " ");
    push_str(&mut s, revision);
    squeeze(s.as_str())
}

/// What the command line of the interactive client asks for.
#[derive(Debug)]
pub struct Args {
    pub addr: String,
    pub password: String,
    pub tls: bool,
}

/// What comes of a command line.
#[derive(Debug)]
pub enum Parsed {
    Run(Args),
    Help,
    Bad(String),
}

/// What comes of a command line, with text as it is.
pub enum ParsedView {
    Run { addr: Seq<char>, password: Seq<char>, tls: bool },
    Help,
    Bad(Seq<char>),
}

impl View for Parsed {
    type V = ParsedView;

    open spec fn view(&self) -> ParsedView {
        match self {
            Parsed::Run(a) => ParsedView::Run { addr: a.addr@, password: a.password@, tls: a.tls },
            Parsed::Help => ParsedView::Help,
            Parsed::Bad(e) => ParsedView::Bad(e@),
        }
    }
}

/// What the words of a command line from `i` on ask for, behind what was asked
/// for in front of them.
pub open spec fn parsed_from(
    words: Seq<Seq<char>>,
    i: int,
    addr: Seq<char>,
    password: Seq<char>,
    tls: bool,
) -> ParsedView
    decreases words.len() - i,
{
    if i < 0 || i >= words.len() {
        ParsedView::Run { addr, password, tls }
    } else {
        let w = words[i];
        if w == "-h"@ || w == "--help"@ {
            ParsedView::Help
        } else if w == "-p"@ || w == "--password"@ {
            if i + 1 < words.len() {
                parsed_from(words, i + 2, addr, words[i + 1], tls)
            } else {
                ParsedView::Bad("--password needs a value"@)
            }
        } else if w == "--tls"@ {
            parsed_from(words, i + 1, addr, password, true)
        } else if w.len() > 0 && w[0] == '-' {
            ParsedView::Bad("unknown option "@ + w)
        } else {
            parsed_from(words, i + 1, with_port(w), password, tls)
        }
    }
}

/// Reads the command line of the interactive client.
pub fn parse_args(words: &Vec<String>) -> (p: Parsed)
    ensures
        p@ == parsed_from(texts(words@), 0, Seq::empty(), Seq::empty(), false),
{
    let ghost all = texts(words@);
    let mut addr = String::new();
    let mut password = String::new();
    let mut tls = false;
    let mut i: usize = 0;
    assert(addr@ =~= Seq::<char>::empty());
    while i < words.len()
        invariant
            i <= words@.len(),
            all == texts(words@),
            parsed_from(all, 0, Seq::empty(), Seq::empty(), false) == parsed_from(
                all,
                i as int,
                addr@,
                password@,
                tls,
            ),
        decreases words@.len() - i,
    {
        assert(all[i as int] == words@[i as int]@);
        let w = words[i].as_str();
        if same(w, "-h") || same(w, "--help") {
            return Parsed::Help;
        }
        if same(w, "-p") || same(w, "--password") {
            if words.len() - i < 2 {
                return Parsed::Bad("--password needs a value".to_owned());
            }
            assert(all[i + 1] == words@[i + 1]@);
            password = words[i + 1].clone();
            i = i + 2;
        } else if same(w, "--tls") {
            tls = true;
            i = i + 1;
        } else {
            let cs = chars(w);
            if cs.len() > 0 && cs[0] == '-' {
                let mut e = "unknown option ".to_owned();
                push_str(&mut e, w);
                return Parsed::Bad(e);
            }
            addr = normalise_addr(w);
            i = i + 1;
        }
    }
    Parsed::Run(Args { addr, password, tls })
}

/// A host alone gets the usual port, and so does one in brackets; a host with a
/// port keeps it; and an address with colons of its own is put in brackets.
pub proof fn only_a_missing_port_is_added(host: Seq<char>, port: Seq<char>)
    requires
        host.len() > 0,
        host[0] != '[',
        !port.contains(':'),
    ensures
        with_port(Seq::empty()).len() == 0,
        !host.contains(':') ==> with_port(host) == host + ":102"@,
        !host.contains(':') ==> with_port(host + seq![':'] + port) == host + seq![':'] + port,
        with_port(seq!['['] + host + seq![']']) == seq!['['] + host + seq![']'] + ":102"@,
        port.len() > 0 && port.last() != ']' ==> with_port(
            seq!['['] + host + seq![']', ':'] + port,
        ) == seq!['['] + host + seq![']', ':'] + port,
        host.contains(':') ==> with_port(host + seq![':'] + port) == "["@ + (host + seq![':']
            + port) + "]:102"@,
{
    lemma_occurs_or_not(host, ':');
    lemma_occurs_or_not(port, ':');
    lemma_occurrences_concat(host, seq![':'], ':');
    lemma_occurrences_concat(host + seq![':'], port, ':');
    assert(occurrences(seq![':'], ':') == 1) by {
        reveal_with_fuel(occurrences, 2);
        assert(seq![':'].drop_last() =~= Seq::<char>::empty());
    }
    assert((host + seq![':'] + port)[0] == host[0]);
    let b = seq!['['] + host + seq![']'];
    assert(b[0] == '[' && b.last() == ']');
    let p = seq!['['] + host + seq![']', ':'] + port;
    assert(p[0] == '[');
    assert(port.len() > 0 ==> p.last() == port.last());
}

proof fn lemma_occurs_or_not(s: Seq<char>, c: char)
    ensures
        occurrences(s, c) == 0 <==> !s.contains(c),
    decreases s.len(),
{
    if s.len() > 0 {
        lemma_occurs_or_not(s.drop_last(), c);
        if s.last() == c {
            assert(s[s.len() - 1] == c);
        } else if s.contains(c) {
            let i = choose|i: int| 0 <= i < s.len() && s[i] == c;
            assert(s.drop_last()[i] == c);
        } else {
            assert forall|i: int| 0 <= i < s.len() - 1 implies s.drop_last()[i] != c by {
                assert(s[i] != c);
            }
        }
    }
}

/// A text is squeezed into its words: white space at the end goes, a gap
/// between two words becomes one blank, and what belongs together stays
/// together.
pub proof fn a_gap_becomes_one_blank(s: Seq<char>, gap: Seq<char>, c: char)
    requires
        !white_space(c),
        forall|i: int| 0 <= i < gap.len() ==> white_space(#[trigger] gap[i]),
    ensures
        squeezed(s + gap) == squeezed(s),
        squeezed(gap).len() == 0,
        squeezed(gap.push(c)) == seq![c],
        s.len() > 0 && !white_space(s.last()) ==> squeezed(s.push(c)) == squeezed(s).push(c),
        s.len() > 0 && !white_space(s.last()) && gap.len() > 0 ==> squeezed((s + gap).push(c))
            == squeezed(s).push(' ').push(c),
{
    lemma_gap_vanishes(s, gap);
    lemma_gap_vanishes(Seq::empty(), gap);
    assert(Seq::<char>::empty() + gap =~= gap);
    let g = gap.push(c);
    assert(g.drop_last() =~= gap);
    assert(squeezed(gap) =~= Seq::<char>::empty());
    assert(squeezed(g) =~= seq![c]);
    if s.len() > 0 && !white_space(s.last()) {
        assert(squeezed(s).len() > 0);
        let t = s.push(c);
        assert(t.drop_last() =~= s);
        assert(t[t.len() - 2] == s.last());
        if gap.len() > 0 {
            let u = (s + gap).push(c);
            assert(u.drop_last() =~= s + gap);
            assert(u[u.len() - 2] == gap.last());
        }
    }
}

proof fn lemma_gap_vanishes(s: Seq<char>, gap: Seq<char>)
    requires
        forall|i: int| 0 <= i < gap.len() ==> white_space(#[trigger] gap[i]),
    ensures
        squeezed(s + gap) == squeezed(s),
    decreases gap.len(),
{
    if gap.len() == 0 {
        assert(s + gap =~= s);
    } else {
        assert((s + gap).drop_last() =~= s + gap.drop_last());
        assert((s + gap).last() == gap.last());
        lemma_gap_vanishes(s, gap.drop_last());
    }
}

/// The words behind what was read are read as they would be on their own.
proof fn lemma_parsed_behind(
    front: Seq<Seq<char>>,
    rest: Seq<Seq<char>>,
    i: int,
    addr: Seq<char>,
    password: Seq<char>,
    tls: bool,
)
    requires
        0 <= i <= rest.len(),
    ensures
        parsed_from(front + rest, front.len() + i, addr, password, tls) == parsed_from(
            rest,
            i,
            addr,
            password,
            tls,
        ),
    decreases rest.len() - i,
{
    let all = front + rest;
    let k = front.len() + i;
    if i < rest.len() {
        assert(all[k] == rest[i]);
        lemma_parsed_behind(front, rest, i + 1, addr, password, true);
        lemma_parsed_behind(front, rest, i + 1, with_port(rest[i]), password, tls);
        if i + 1 < rest.len() {
            assert(all[k + 1] == rest[i + 1]);
            lemma_parsed_behind(front, rest, i + 2, addr, rest[i + 1], tls);
        }
    }
}

/// An option sets its own value and nothing else; a word that is no option is
/// the address, and the last one counts; a dash in front of anything else is an
/// error.
pub proof fn a_word_says_one_thing(
    rest: Seq<Seq<char>>,
    w: Seq<char>,
    addr: Seq<char>,
    password: Seq<char>,
    tls: bool,
)
    ensures
        parsed_from(Seq::empty(), 0, addr, password, tls) == (ParsedView::Run {
            addr,
            password,
            tls,
        }),
        parsed_from(seq!["-p"@, w] + rest, 0, addr, password, tls) == parsed_from(
            rest,
            0,
            addr,
            w,
            tls,
        ),
        parsed_from(seq!["--password"@, w] + rest, 0, addr, password, tls) == parsed_from(
            rest,
            0,
            addr,
            w,
            tls,
        ),
        parsed_from(seq!["--tls"@] + rest, 0, addr, password, tls) == parsed_from(
            rest,
            0,
            addr,
            password,
            true,
        ),
        parsed_from(seq!["-h"@] + rest, 0, addr, password, tls) is Help,
        parsed_from(seq!["--help"@] + rest, 0, addr, password, tls) is Help,
        parsed_from(seq!["--password"@], 0, addr, password, tls) is Bad,
        !(w.len() > 0 && w[0] == '-') ==> parsed_from(seq![w] + rest, 0, addr, password, tls)
            == parsed_from(rest, 0, with_port(w), password, tls),
        w.len() > 0 && w[0] == '-' && w != "-p"@ && w != "--password"@ && w != "--tls"@ && w != "-h"@
            && w != "--help"@ ==> parsed_from(seq![w] + rest, 0, addr, password, tls)
            == ParsedView::Bad("unknown option "@ + w),
{
    reveal_strlit("-p");
    reveal_strlit("-h");
    reveal_strlit("--password");
    reveal_strlit("--tls");
    reveal_strlit("--help");
    assert("-p"@[1] == 'p' && "-h"@[1] == 'h');
    let a = seq!["-p"@, w];
    let b = seq!["--password"@, w];
    let c = seq!["--tls"@];
    let d = seq![w];
    lemma_parsed_behind(a, rest, 0, addr, w, tls);
    lemma_parsed_behind(b, rest, 0, addr, w, tls);
    lemma_parsed_behind(c, rest, 0, addr, password, true);
    lemma_parsed_behind(d, rest, 0, with_port(w), password, tls);
    assert((a + rest)[0] == a[0] && (a + rest)[1] == w);
    assert((b + rest)[0] == b[0] && (b + rest)[1] == w);
    assert((c + rest)[0] == c[0]);
    assert((d + rest)[0] == w);
    assert((seq!["-h"@] + rest)[0] == "-h"@);
    assert((seq!["--help"@] + rest)[0] == "--help"@);
    assert("--help"@.len() == 6 && "--tls"@.len() == 5 && "--password"@.len() == 10);
    assert("--help"@[0] == '-' && "-h"@[0] == '-' && "-p"@[0] == '-' && "--tls"@[0] == '-'
        && "--password"@[0] == '-');
}

} // verus!

//! The command line of the test server, and what its simulation touches.

use vstd::prelude::*;

use crate::notation::{number, parse_u32};
use crate::text::{chars, decimal, push_decimal, push_str, same, string_between, texts};

verus! {

/// What the command line of the server asks for.
#[derive(Debug)]
pub struct Args {
    pub scl: String,
    pub addr: String,
    pub files: Option<String>,
    pub ied: String,
    pub setting_groups: u8,
    pub quiet: bool,
}

/// What the command line of the server asks for, with text as it is.
pub struct ArgsView {
    pub scl: Seq<char>,
    pub addr: Seq<char>,
    pub files: Option<Seq<char>>,
    pub ied: Seq<char>,
    pub setting_groups: u8,
    pub quiet: bool,
}

impl View for Args {
    type V = ArgsView;

    open spec fn view(&self) -> ArgsView {
        ArgsView {
            scl: self.scl@,
            addr: self.addr@,
            files: match self.files {
                Some(f) => Some(f@),
                None => None,
            },
            ied: self.ied@,
            setting_groups: self.setting_groups,
            quiet: self.quiet,
        }
    }
}

impl ArgsView {
    /// What an empty command line asks for.
    pub open spec fn usual() -> ArgsView {
        ArgsView {
            scl: "testdata/simpleIO_direct_control.cid"@,
            addr: "0.0.0.0:10102"@,
            files: None,
            ied: Seq::empty(),
            setting_groups: 0,
            quiet: false,
        }
    }
}

/// What comes of a command line.
#[derive(Debug)]
pub enum Parsed {
    Run(Args),
    /// Say how the tool is used.
    Usage,
    /// Name the option that is not known, and say how the tool is used.
    Unknown(String),
}

/// What comes of a command line, with text as it is.
pub enum ParsedView {
    Run(ArgsView),
    Usage,
    Unknown(Seq<char>),
}

impl View for Parsed {
    type V = ParsedView;

    open spec fn view(&self) -> ParsedView {
        match self {
            Parsed::Run(a) => ParsedView::Run(a@),
            Parsed::Usage => ParsedView::Usage,
            Parsed::Unknown(s) => ParsedView::Unknown(s@),
        }
    }
}

/// An address to listen on: a port alone stands for every interface.
pub open spec fn listening(addr: Seq<char>) -> Seq<char> {
    if addr.len() > 0 && addr[0] == ':' {
        "0.0.0.0:"@ + addr.skip(1)
    } else {
        addr
    }
}

/// The number of setting groups that a word gives.
pub open spec fn group_count(w: Seq<char>) -> Option<u8> {
    match number(w, false) {
        Some(n) if n <= 255 => Some(n as u8),
        _ => None,
    }
}

/// Whether an option takes a value.
pub open spec fn takes_value(w: Seq<char>) -> bool {
    w == "--scl"@ || w == "--addr"@ || w == "--ied"@ || w == "--files"@ || w
        == "--setting-groups"@
}

/// What an option with a value changes; an option can refuse its value.
pub open spec fn with_option(a: ArgsView, w: Seq<char>, value: Seq<char>) -> Option<ArgsView> {
    if w == "--scl"@ {
        Some(ArgsView { scl: value, ..a })
    } else if w == "--addr"@ {
        Some(ArgsView { addr: value, ..a })
    } else if w == "--ied"@ {
        Some(ArgsView { ied: value, ..a })
    } else if w == "--files"@ {
        Some(ArgsView { files: Some(value), ..a })
    } else {
        match group_count(value) {
            Some(n) => Some(ArgsView { setting_groups: n, ..a }),
            None => None,
        }
    }
}

/// What the words of a command line from `i` on come to, behind what was asked
/// for in front of them.
pub open spec fn parsed_from(words: Seq<Seq<char>>, i: int, a: ArgsView) -> ParsedView
    decreases words.len() - i,
{
    if i < 0 || i >= words.len() {
        ParsedView::Run(ArgsView { addr: listening(a.addr), ..a })
    } else {
        let w = words[i];
        if takes_value(w) {
            if i + 1 < words.len() {
                match with_option(a, w, words[i + 1]) {
                    Some(next) => parsed_from(words, i + 2, next),
                    None => ParsedView::Usage,
                }
            } else {
                ParsedView::Usage
            }
        } else if w == "--quiet"@ {
            parsed_from(words, i + 1, ArgsView { quiet: true, ..a })
        } else if w == "--help"@ || w == "-h"@ {
            ParsedView::Usage
        } else {
            ParsedView::Unknown(w)
        }
    }
}

fn is_option_with_value(w: &str) -> (b: bool)
    ensures
        b == takes_value(w@),
{
    same(w, "--scl") || same(w, "--addr") || same(w, "--ied") || same(w, "--files") || same(
        w,
        "--setting-groups",
    )
}

/// Applies an option with a value, and returns whether the value will do.
fn apply(a: &mut Args, w: &str, value: &String) -> (fits: bool)
    requires
        takes_value(w@),
    ensures
        match with_option(old(a)@, w@, value@) {
            Some(next) => fits && final(a)@ == next,
            None => !fits,
        },
{
    proof {
        reveal_strlit("--scl");
        reveal_strlit("--addr");
        reveal_strlit("--ied");
        reveal_strlit("--files");
        reveal_strlit("--setting-groups");
    }
    if same(w, "--scl") {
        a.scl = value.clone();
    } else if same(w, "--addr") {
        a.addr = value.clone();
    } else if same(w, "--ied") {
        a.ied = value.clone();
    } else if same(w, "--files") {
        a.files = Some(value.clone());
    } else {
        match parse_u32(value.as_str()) {
            Ok(n) => {
                if n > 255 {
                    return false;
                }
                a.setting_groups = n as u8;
            },
            Err(_) => return false,
        }
    }
    true
}

/// The address to listen on: `:10102` is the conventional shorthand for every
/// interface.
fn listening_address(addr: &str) -> (r: String)
    ensures
        r@ == listening(addr@),
{
    let cs = chars(addr);
    if cs.len() > 0 && cs[0] == ':' {
        let mut r = "0.0.0.0:".to_owned();
        let port = string_between(cs.as_slice(), 1, cs.len());
        assert(port@ =~= addr@.skip(1));
        push_str(&mut r, port.as_str());
        r
    } else {
        addr.to_owned()
    }
}

/// Reads the command line of the server.
pub fn parse_args(words: &Vec<String>) -> (p: Parsed)
    ensures
        p@ == parsed_from(texts(words@), 0, ArgsView::usual()),
{
    let ghost all = texts(words@);
    let mut a = Args {
        scl: "testdata/simpleIO_direct_control.cid".to_owned(),
        addr: "0.0.0.0:10102".to_owned(),
        files: None,
        ied: String::new(),
        setting_groups: 0,
        quiet: false,
    };
    assert(a.ied@ =~= Seq::<char>::empty());
    let mut i: usize = 0;
    while i < words.len()
        invariant
            i <= words@.len(),
            all == texts(words@),
            parsed_from(all, 0, ArgsView::usual()) == parsed_from(all, i as int, a@),
        decreases words@.len() - i,
    {
        assert(all[i as int] == words@[i as int]@);
        let w = words[i].as_str();
        if is_option_with_value(w) {
            if words.len() - i < 2 {
                return Parsed::Usage;
            }
            assert(all[i + 1] == words@[i + 1]@);
            if !apply(&mut a, w, &words[i + 1]) {
                return Parsed::Usage;
            }
            i = i + 2;
        } else if same(w, "--quiet") {
            a.quiet = true;
            i = i + 1;
        } else if same(w, "--help") || same(w, "-h") {
            return Parsed::Usage;
        } else {
            return Parsed::Unknown(words[i].clone());
        }
    }
    let listen = listening_address(a.addr.as_str());
    a.addr = listen;
    Parsed::Run(a)
}

/// The line that announces the model that is served.
pub fn banner(name: &str, path: &str, devices: usize) -> (s: String)
    ensures
        s@ == "ied-server: "@ + name@ + " from "@ + path@ + " ("@ + decimal(devices as nat)
            + " logical device"@ + (if devices == 1 {
            ""@
        } else {
            "s"@
        }) + ")"@,
{
    let mut s = "ied-server: ".to_owned();
    push_str(&mut s, name);
    push_str(&mut s, " from ");
    push_str(&mut s, path);
    push_str(&mut s, " (");
    push_decimal(&mut s, devices as u64);
    push_str(&mut s, " logical device");
    push_str(
        &mut s,
        if devices == 1 {
            ""
        } else {
            "s"
        },
    );
    push_str(&mut s, ")");
    s
}

/// A reference to a point of the general process node of a device: the name of
/// the point, its number, and what is meant of it.
pub fn point(ld: &str, name: &str, i: u32, tail: &str) -> (s: String)
    ensures
        s@ == ld@ + "/GGIO1."@ + name@ + decimal(i as nat) + tail@,
{
    let mut s = ld.to_owned();
    push_str(&mut s, "/GGIO1.");
    push_str(&mut s, name);
    push_decimal(&mut s, i as u64);
    push_str(&mut s, tail);
    s
}

/// The status point that toggles at a tick. The points are staggered so that
/// reports arrive steadily rather than all at once.
pub fn status_point(tick: u32) -> (which: u32)
    ensures
        which == tick % 4 + 1,
{
    tick % 4 + 1
}

/// Over any four ticks in a row each of the four status points toggles once.
pub proof fn every_status_point_toggles(tick: u32, which: int)
    requires
        tick <= u32::MAX - 3,
        1 <= which <= 4,
    ensures
        exists|k: int| 0 <= k < 4 && #[trigger] ((tick + k) as int) % 4 + 1 == which,
{
    let k: int = (which - 1 - tick as int) % 4;
    assert(0 <= k < 4);
    assert(((tick + k) as int) % 4 + 1 == which);
}

/// The words behind what was read are read as they would be on their own.
proof fn lemma_parsed_behind(front: Seq<Seq<char>>, rest: Seq<Seq<char>>, i: int, a: ArgsView)
    requires
        0 <= i <= rest.len(),
    ensures
        parsed_from(front + rest, front.len() + i, a) == parsed_from(rest, i, a),
    decreases rest.len() - i,
{
    let all = front + rest;
    let k = front.len() + i;
    if i < rest.len() {
        assert(all[k] == rest[i]);
        lemma_parsed_behind(front, rest, i + 1, ArgsView { quiet: true, ..a });
        if i + 1 < rest.len() {
            assert(all[k + 1] == rest[i + 1]);
            if let Some(next) = with_option(a, rest[i], rest[i + 1]) {
                lemma_parsed_behind(front, rest, i + 2, next);
            }
        }
    }
}

/// An option sets its own value and nothing else, and the last one of its kind
/// counts.
pub proof fn an_option_sets_its_own_value(
    rest: Seq<Seq<char>>,
    value: Seq<char>,
    groups: u8,
    a: ArgsView,
)
    ensures
        parsed_from(seq!["--scl"@, value] + rest, 0, a) == parsed_from(
            rest,
            0,
            ArgsView { scl: value, ..a },
        ),
        parsed_from(seq!["--addr"@, value] + rest, 0, a) == parsed_from(
            rest,
            0,
            ArgsView { addr: value, ..a },
        ),
        parsed_from(seq!["--ied"@, value] + rest, 0, a) == parsed_from(
            rest,
            0,
            ArgsView { ied: value, ..a },
        ),
        parsed_from(seq!["--files"@, value] + rest, 0, a) == parsed_from(
            rest,
            0,
            ArgsView { files: Some(value), ..a },
        ),
        parsed_from(seq!["--setting-groups"@, decimal(groups as nat)] + rest, 0, a) == parsed_from(
            rest,
            0,
            ArgsView { setting_groups: groups, ..a },
        ),
        parsed_from(seq!["--quiet"@] + rest, 0, a) == parsed_from(
            rest,
            0,
            ArgsView { quiet: true, ..a },
        ),
        parsed_from(seq!["--help"@] + rest, 0, a) is Usage,
        parsed_from(seq!["-h"@] + rest, 0, a) is Usage,
{
    reveal_strlit("--scl");
    reveal_strlit("--addr");
    reveal_strlit("--ied");
    reveal_strlit("--files");
    reveal_strlit("--setting-groups");
    reveal_strlit("--quiet");
    reveal_strlit("--help");
    reveal_strlit("-h");
    assert("--scl"@[2] == 's' && "--ied"@[2] == 'i');
    assert("--setting-groups"@.len() == 16 && "--files"@.len() == 7 && "--addr"@.len() == 6);
    assert("--scl"@.len() == 5 && "--ied"@.len() == 5);
    assert("--addr"@[2] == 'a' && "--help"@[2] == 'h');
    assert("--files"@[2] == 'f' && "--quiet"@[2] == 'q');
    lemma_option("--scl"@, value, rest, a);
    lemma_option("--addr"@, value, rest, a);
    lemma_option("--ied"@, value, rest, a);
    lemma_option("--files"@, value, rest, a);
    crate::notation::a_number_reads_back_with_its_sign(groups as nat, false);
    lemma_option("--setting-groups"@, decimal(groups as nat), rest, a);
    let quiet = seq!["--quiet"@];
    lemma_parsed_behind(quiet, rest, 0, ArgsView { quiet: true, ..a });
    assert((quiet + rest)[0] == "--quiet"@);
    assert((seq!["--help"@] + rest)[0] == "--help"@);
    assert((seq!["-h"@] + rest)[0] == "-h"@);
}

proof fn lemma_option(w: Seq<char>, value: Seq<char>, rest: Seq<Seq<char>>, a: ArgsView)
    requires
        takes_value(w),
    ensures
        parsed_from(seq![w, value] + rest, 0, a) == (match with_option(a, w, value) {
            Some(next) => parsed_from(rest, 0, next),
            None => ParsedView::Usage,
        }),
{
    let front = seq![w, value];
    assert((front + rest)[0] == w && (front + rest)[1] == value);
    if let Some(next) = with_option(a, w, value) {
        lemma_parsed_behind(front, rest, 0, next);
    }
}

/// A command line that is read through asks for what its options said; without
/// any, for the usual things; and a port alone is listened to everywhere.
pub proof fn what_is_not_said_is_as_usual(a: ArgsView, port: Seq<char>)
    ensures
        ArgsView::usual().addr == "0.0.0.0:10102"@,
        ArgsView::usual().files is None,
        ArgsView::usual().ied.len() == 0,
        ArgsView::usual().setting_groups == 0,
        !ArgsView::usual().quiet,
        !(a.addr.len() > 0 && a.addr[0] == ':') ==> parsed_from(Seq::empty(), 0, a)
            == ParsedView::Run(a),
        a.addr == seq![':'] + port ==> parsed_from(Seq::empty(), 0, a) == ParsedView::Run(
            ArgsView { addr: "0.0.0.0:"@ + port, ..a },
        ),
{
    assert((seq![':'] + port).skip(1) =~= port);
    assert((seq![':'] + port)[0] == ':');
}

/// A number of setting groups that does not fit in an octet is refused, and so
/// is what is no number; a word that is no option is named.
pub proof fn a_wrong_word_is_refused(n: nat, w: Seq<char>, rest: Seq<Seq<char>>, a: ArgsView)
    ensures
        n > 255 ==> parsed_from(seq!["--setting-groups"@, decimal(n)] + rest, 0, a) is Usage,
        number(w, false) is None ==> parsed_from(
            seq!["--setting-groups"@, w] + rest,
            0,
            a,
        ) is Usage,
        w != "--scl"@ && w != "--addr"@ && w != "--ied"@ && w != "--files"@ && w
            != "--setting-groups"@ && w != "--quiet"@ && w != "--help"@ && w != "-h"@
            ==> parsed_from(seq![w] + rest, 0, a) == ParsedView::Unknown(w),
{
    reveal_strlit("--scl");
    reveal_strlit("--addr");
    reveal_strlit("--ied");
    reveal_strlit("--files");
    reveal_strlit("--setting-groups");
    assert("--scl"@[2] == 's' && "--ied"@[2] == 'i');
    assert("--setting-groups"@.len() == 16 && "--files"@.len() == 7 && "--addr"@.len() == 6);
    assert("--scl"@.len() == 5 && "--ied"@.len() == 5);
    crate::notation::a_number_reads_back_with_its_sign(n, false);
    lemma_option("--setting-groups"@, decimal(n), rest, a);
    lemma_option("--setting-groups"@, w, rest, a);
    assert((seq![w] + rest)[0] == w);
}

} // verus!

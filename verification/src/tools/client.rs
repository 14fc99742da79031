//! The command line of the client: its options, its commands, and how it shows
//! what a device exposes.

use vstd::prelude::*;

use crate::client::AcsiClass;
use crate::mms::{Data, Value};
use crate::model::Fc;
use crate::notation::{number, parse_i64};
use crate::text::{decimal, join, joined, push_decimal, push_str, same, texts};

verus! {

/// A command line that was taken apart.
#[derive(Debug)]
pub enum Launch {
    /// Connect to a device and run the command that the words spell.
    Run { addr: String, password: Option<String>, words: Vec<String> },
    /// Say how the tool is used.
    Usage,
}

/// A command line that was taken apart, with text as it is.
pub enum LaunchView {
    Run { addr: Seq<char>, password: Option<Seq<char>>, words: Seq<Seq<char>> },
    Usage,
}

/// The text of an optional word.
pub open spec fn optional(s: Option<String>) -> Option<Seq<char>> {
    match s {
        Some(t) => Some(t@),
        None => None,
    }
}

impl View for Launch {
    type V = LaunchView;

    open spec fn view(&self) -> LaunchView {
        match self {
            Launch::Run { addr, password, words } => LaunchView::Run {
                addr: addr@,
                password: optional(*password),
                words: texts(words@),
            },
            Launch::Usage => LaunchView::Usage,
        }
    }
}

/// What the words from `i` on come to, behind the options in front of them: the
/// options end at the first word that is none, and there the command starts.
pub open spec fn launched_from(
    words: Seq<Seq<char>>,
    i: int,
    addr: Seq<char>,
    password: Option<Seq<char>>,
) -> LaunchView
    decreases words.len() - i,
{
    if i < 0 || i >= words.len() {
        LaunchView::Usage
    } else {
        let w = words[i];
        if w == "--addr"@ {
            if i + 1 < words.len() {
                launched_from(words, i + 2, words[i + 1], password)
            } else {
                LaunchView::Usage
            }
        } else if w == "--password"@ {
            if i + 1 < words.len() {
                launched_from(words, i + 2, addr, Some(words[i + 1]))
            } else {
                LaunchView::Usage
            }
        } else if w == "--help"@ || w == "-h"@ {
            LaunchView::Usage
        } else {
            LaunchView::Run { addr, password, words: words.skip(i) }
        }
    }
}

/// Copies the words from `i` on.
fn words_from(words: &Vec<String>, i: usize) -> (r: Vec<String>)
    requires
        i <= words@.len(),
    ensures
        texts(r@) == texts(words@).skip(i as int),
{
    let mut r: Vec<String> = Vec::new();
    let mut k: usize = i;
    while k < words.len()
        invariant
            i <= k <= words@.len(),
            r@.len() == k - i,
            forall|j: int| 0 <= j < r@.len() ==> #[trigger] r@[j]@ == words@[i + j]@,
        decreases words@.len() - k,
    {
        r.push(words[k].clone());
        k = k + 1;
    }
    assert(texts(r@) =~= texts(words@).skip(i as int));
    r
}

/// Takes a command line apart.
pub fn launch(words: &Vec<String>) -> (r: Launch)
    ensures
        r@ == launched_from(texts(words@), 0, "127.0.0.1:10102"@, None),
{
    let ghost all = texts(words@);
    let mut addr = "127.0.0.1:10102".to_owned();
    let mut password: Option<String> = None;
    let mut i: usize = 0;
    while i < words.len()
        invariant
            i <= words@.len(),
            all == texts(words@),
            launched_from(all, 0, "127.0.0.1:10102"@, None) == launched_from(
                all,
                i as int,
                addr@,
                optional(password),
            ),
        decreases words@.len() - i,
    {
        assert(all[i as int] == words@[i as int]@);
        let w = words[i].as_str();
        if same(w, "--addr") {
            if words.len() - i < 2 {
                return Launch::Usage;
            }
            assert(all[i + 1] == words@[i + 1]@);
            addr = words[i + 1].clone();
            i = i + 2;
        } else if same(w, "--password") {
            if words.len() - i < 2 {
                return Launch::Usage;
            }
            assert(all[i + 1] == words@[i + 1]@);
            password = Some(words[i + 1].clone());
            i = i + 2;
        } else if same(w, "--help") || same(w, "-h") {
            return Launch::Usage;
        } else {
            return Launch::Run { addr, password, words: words_from(words, i) };
        }
    }
    Launch::Usage
}

/// What a command asks for.
#[derive(Debug)]
pub enum Command {
    Identify,
    Browse,
    Model,
    Read { reference: String, fc: Fc },
    Write { reference: String, fc: Fc, value: String },
    Dataset { reference: String },
    Control { reference: String, on: bool },
    Report { reference: String },
    Test,
    /// The command lacks an argument.
    Lacking(String),
    /// The word is no functional constraint.
    NoConstraint(String),
    Unknown(String),
}

/// What a command asks for, with text as it is.
pub enum CommandView {
    Identify,
    Browse,
    Model,
    Read { reference: Seq<char>, fc: Fc },
    Write { reference: Seq<char>, fc: Fc, value: Seq<char> },
    Dataset { reference: Seq<char> },
    Control { reference: Seq<char>, on: bool },
    Report { reference: Seq<char> },
    Test,
    Lacking(Seq<char>),
    NoConstraint(Seq<char>),
    Unknown(Seq<char>),
}

impl View for Command {
    type V = CommandView;

    open spec fn view(&self) -> CommandView {
        match self {
            Command::Identify => CommandView::Identify,
            Command::Browse => CommandView::Browse,
            Command::Model => CommandView::Model,
            Command::Read { reference, fc } => CommandView::Read {
                reference: reference@,
                fc: *fc,
            },
            Command::Write { reference, fc, value } => CommandView::Write {
                reference: reference@,
                fc: *fc,
                value: value@,
            },
            Command::Dataset { reference } => CommandView::Dataset { reference: reference@ },
            Command::Control { reference, on } => CommandView::Control {
                reference: reference@,
                on: *on,
            },
            Command::Report { reference } => CommandView::Report { reference: reference@ },
            Command::Test => CommandView::Test,
            Command::Lacking(s) => CommandView::Lacking(s@),
            Command::NoConstraint(s) => CommandView::NoConstraint(s@),
            Command::Unknown(s) => CommandView::Unknown(s@),
        }
    }
}

/// Whether a word switches an object on.
pub open spec fn switches_on(w: Seq<char>) -> bool {
    w == "on"@ || w == "true"@ || w == "1"@
}

/// Whether a command is the reading of `reference` under the constraint that
/// `word` spells.
pub open spec fn is_read(c: CommandView, reference: Seq<char>, word: Seq<char>) -> bool {
    match c {
        CommandView::Read { reference: r, fc } => r == reference && fc.is_code() && fc.text()
            == word,
        CommandView::NoConstraint(w) => w == word && !Fc::is_named(word),
        _ => false,
    }
}

/// Whether a command is the writing of `value` to `reference` under the
/// constraint that `word` spells.
pub open spec fn is_write(
    c: CommandView,
    reference: Seq<char>,
    word: Seq<char>,
    value: Seq<char>,
) -> bool {
    match c {
        CommandView::Write { reference: r, fc, value: v } => {
            r == reference && v == value && fc.is_code() && fc.text() == word
        },
        CommandView::NoConstraint(w) => w == word && !Fc::is_named(word),
        _ => false,
    }
}

/// Whether a command is what the words of a command line spell.
pub open spec fn spells(words: Seq<Seq<char>>, c: CommandView) -> bool {
    let verb = words[0];
    let n = words.len();
    if verb == "identify"@ {
        c == CommandView::Identify
    } else if verb == "browse"@ {
        c == CommandView::Browse
    } else if verb == "model"@ {
        c == CommandView::Model
    } else if verb == "read"@ {
        if n < 2 {
            c == CommandView::Lacking("read needs a reference"@)
        } else if n < 3 {
            c == (CommandView::Read { reference: words[1], fc: Fc::Mx })
        } else {
            is_read(c, words[1], words[2])
        }
    } else if verb == "write"@ {
        if n < 4 {
            c == CommandView::Lacking("write needs REF FC VALUE"@)
        } else {
            is_write(c, words[1], words[2], words[3])
        }
    } else if verb == "dataset"@ {
        if n < 2 {
            c == CommandView::Lacking("dataset needs a reference"@)
        } else {
            c == (CommandView::Dataset { reference: words[1] })
        }
    } else if verb == "control"@ {
        if n < 3 {
            c == CommandView::Lacking("control needs REF on|off"@)
        } else {
            c == (CommandView::Control { reference: words[1], on: switches_on(words[2]) })
        }
    } else if verb == "report"@ {
        if n < 2 {
            c == CommandView::Lacking("report needs an RCB reference"@)
        } else {
            c == (CommandView::Report { reference: words[1] })
        }
    } else if verb == "test"@ {
        c == CommandView::Test
    } else {
        c == CommandView::Unknown(verb)
    }
}

fn lacking(what: &str) -> (c: Command)
    ensures
        c@ == CommandView::Lacking(what@),
{
    Command::Lacking(what.to_owned())
}

/// Reads the command that the words of a command line spell.
pub fn command(words: &Vec<String>) -> (c: Command)
    requires
        words@.len() > 0,
    ensures
        spells(texts(words@), c@),
{
    let ghost all = texts(words@);
    let n: usize = words.len();
    assert(all[0] == words@[0]@);
    let verb = words[0].as_str();
    if same(verb, "identify") {
        return Command::Identify;
    }
    if same(verb, "browse") {
        return Command::Browse;
    }
    if same(verb, "model") {
        return Command::Model;
    }
    if same(verb, "read") {
        if n < 2 {
            return lacking("read needs a reference");
        }
        let reference = words[1].clone();
        if n < 3 {
            return Command::Read { reference, fc: Fc::Mx };
        }
        return match Fc::parse(words[2].as_str()) {
            Some(fc) => Command::Read { reference, fc },
            None => Command::NoConstraint(words[2].clone()),
        };
    }
    if same(verb, "write") {
        if n < 4 {
            return lacking("write needs REF FC VALUE");
        }
        return match Fc::parse(words[2].as_str()) {
            Some(fc) => Command::Write {
                reference: words[1].clone(),
                fc,
                value: words[3].clone(),
            },
            None => Command::NoConstraint(words[2].clone()),
        };
    }
    if same(verb, "dataset") {
        if n < 2 {
            return lacking("dataset needs a reference");
        }
        return Command::Dataset { reference: words[1].clone() };
    }
    if same(verb, "control") {
        if n < 3 {
            return lacking("control needs REF on|off");
        }
        let w = words[2].as_str();
        let on = same(w, "on") || same(w, "true") || same(w, "1");
        return Command::Control { reference: words[1].clone(), on };
    }
    if same(verb, "report") {
        if n < 2 {
            return lacking("report needs an RCB reference");
        }
        return Command::Report { reference: words[1].clone() };
    }
    if same(verb, "test") {
        return Command::Test;
    }
    Command::Unknown(words[0].clone())
}

/// The value that a text is taken for: a switch position, a number of 32 bits,
/// a floating-point number where it reads as one, or else text.
pub open spec fn guessed(s: Seq<char>, float: Option<u32>) -> Data {
    if s == "true"@ {
        Data::Boolean(true)
    } else if s == "false"@ {
        Data::Boolean(false)
    } else {
        match number(s, true) {
            Some(n) if i32::MIN <= n <= i32::MAX => Data::Integer(n as i64),
            _ => match float {
                Some(bits) => Data::Float32(bits),
                None => Data::VisibleString(s),
            },
        }
    }
}

/// Parses a value from the command line, guessing the type from its spelling.
///
/// A device rejects a write whose type does not match the attribute, so the
/// guess has to follow what the text looks like rather than a default. `float`
/// is the bit pattern of the single-precision number that the text writes,
/// where it writes one.
pub fn parse_value(s: &str, float: Option<u32>) -> (v: Value)
    ensures
        v@ == guessed(s@, float),
{
    if same(s, "true") {
        return Value::boolean(true);
    }
    if same(s, "false") {
        return Value::boolean(false);
    }
    if let Ok(n) = parse_i64(s) {
        if -2147483648 <= n && n <= 2147483647 {
            return Value::int32(n as i32);
        }
    }
    match float {
        Some(bits) => Value::float32(bits),
        None => Value::visible_string(s),
    }
}

/// The classes that browsing shows, in their order.
pub fn browsed_classes() -> (v: Vec<AcsiClass>)
    ensures
        v@ == seq![
            AcsiClass::DataObject,
            AcsiClass::DataSet,
            AcsiClass::Urcb,
            AcsiClass::Brcb,
            AcsiClass::Lcb,
            AcsiClass::Sgcb,
            AcsiClass::GoCb,
            AcsiClass::Msvcb,
        ],
{
    vec![
        AcsiClass::DataObject,
        AcsiClass::DataSet,
        AcsiClass::Urcb,
        AcsiClass::Brcb,
        AcsiClass::Lcb,
        AcsiClass::Sgcb,
        AcsiClass::GoCb,
        AcsiClass::Msvcb,
    ]
}

/// The line for what a node holds of a class; a class that it holds nothing of
/// gets none.
pub fn class_line(class: AcsiClass, found: &Vec<String>) -> (r: Option<String>)
    ensures
        match r {
            None => found@.len() == 0,
            Some(line) => {
                let name = class.text();
                &&& found@.len() > 0
                &&& line@ == "    "@ + name + " "@ + joined(texts(found@), ", "@)
            },
        },
{
    if found.len() == 0 {
        return None;
    }
    let name = class.as_str();
    let mut s = "    ".to_owned();
    push_str(&mut s, name);
    push_str(&mut s, " ");
    let list = join(found, 0, ", ");
    assert(texts(found@).skip(0) =~= texts(found@));
    push_str(&mut s, list.as_str());
    Some(s)
}

/// The line for a member of a dataset.
pub fn member_line(reference: &str, fc: Fc, value: &Option<String>) -> (s: String)
    ensures
        s@ == reference@ + " ["@ + fc.text() + "] = "@ + (match value {
            Some(v) => v@,
            None => "<none>"@,
        }),
{
    let mut s = reference.to_owned();
    push_str(&mut s, " [");
    push_str(&mut s, fc.as_str());
    push_str(&mut s, "] = ");
    match value {
        Some(v) => push_str(&mut s, v.as_str()),
        None => push_str(&mut s, "<none>"),
    }
    s
}

/// The line that announces a report.
pub fn report_line(seq_num: u32, entries: usize) -> (s: String)
    ensures
        s@ == "report seq="@ + decimal(seq_num as nat) + " entries="@ + decimal(entries as nat),
{
    let mut s = "report seq=".to_owned();
    push_decimal(&mut s, seq_num as u64);
    push_str(&mut s, " entries=");
    push_decimal(&mut s, entries as u64);
    s
}

/// The line for an entry of a report.
pub fn entry_line(reference: &str, reason: &str, value: &str) -> (s: String)
    ensures
        s@ == "  "@ + reference@ + " ("@ + reason@ + ") = "@ + value@,
{
    let mut s = "  ".to_owned();
    push_str(&mut s, reference);
    push_str(&mut s, " (");
    push_str(&mut s, reason);
    push_str(&mut s, ") = ");
    push_str(&mut s, value);
    s
}

/// The words behind what was read are read as they would be on their own.
proof fn lemma_launched_behind(
    front: Seq<Seq<char>>,
    rest: Seq<Seq<char>>,
    i: int,
    addr: Seq<char>,
    password: Option<Seq<char>>,
)
    requires
        0 <= i <= rest.len(),
    ensures
        launched_from(front + rest, front.len() + i, addr, password) == launched_from(
            rest,
            i,
            addr,
            password,
        ),
    decreases rest.len() - i,
{
    let all = front + rest;
    let k = front.len() + i;
    if i < rest.len() {
        assert(all[k] == rest[i]);
        if i + 1 < rest.len() {
            assert(all[k + 1] == rest[i + 1]);
            lemma_launched_behind(front, rest, i + 2, rest[i + 1], password);
            lemma_launched_behind(front, rest, i + 2, addr, Some(rest[i + 1]));
        }
        assert(all.skip(k) =~= rest.skip(i));
    }
}

/// An option in front sets its own value and nothing else, and the last one of
/// its kind counts; the first word that is no option starts the command, with
/// everything behind it; an option without a value, a call for help and a
/// command line without a command get the usage.
pub proof fn options_stand_in_front_of_the_command(
    rest: Seq<Seq<char>>,
    value: Seq<char>,
    addr: Seq<char>,
    password: Option<Seq<char>>,
)
    ensures
        launched_from(seq!["--addr"@, value] + rest, 0, addr, password) == launched_from(
            rest,
            0,
            value,
            password,
        ),
        launched_from(seq!["--password"@, value] + rest, 0, addr, password) == launched_from(
            rest,
            0,
            addr,
            Some(value),
        ),
        launched_from(seq!["--help"@] + rest, 0, addr, password) is Usage,
        launched_from(seq!["-h"@] + rest, 0, addr, password) is Usage,
        launched_from(seq!["--addr"@], 0, addr, password) is Usage,
        launched_from(seq!["--password"@], 0, addr, password) is Usage,
        launched_from(Seq::empty(), 0, addr, password) is Usage,
        rest.len() > 0 && rest[0] != "--addr"@ && rest[0] != "--password"@ && rest[0] != "--help"@
            && rest[0] != "-h"@ ==> launched_from(rest, 0, addr, password) == (LaunchView::Run {
            addr,
            password,
            words: rest,
        }),
{
    reveal_strlit("--addr");
    reveal_strlit("--password");
    reveal_strlit("--help");
    reveal_strlit("-h");
    assert("--addr"@[2] == 'a' && "--help"@[2] == 'h');
    let a = seq!["--addr"@, value];
    let p = seq!["--password"@, value];
    lemma_launched_behind(a, rest, 0, value, password);
    lemma_launched_behind(p, rest, 0, addr, Some(value));
    assert((a + rest)[0] == "--addr"@ && (a + rest)[1] == value);
    assert((p + rest)[0] == "--password"@ && (p + rest)[1] == value);
    assert((seq!["--help"@] + rest)[0] == "--help"@);
    assert((seq!["-h"@] + rest)[0] == "-h"@);
    assert(seq!["--addr"@][0] == "--addr"@);
    assert(seq!["--password"@][0] == "--password"@);
    assert(rest.skip(0) =~= rest);
}

/// Reading and writing take the constraint whose code is given; reading takes
/// the measurements where none is.
pub proof fn a_command_is_spelled_with_its_constraint(
    reference: Seq<char>,
    fc: Fc,
    value: Seq<char>,
    c: CommandView,
)
    requires
        fc.is_code(),
    ensures
        spells(seq!["read"@, reference, fc.text()], c) <==> c == (CommandView::Read {
            reference,
            fc,
        }),
        spells(seq!["read"@, reference], c) <==> c == (CommandView::Read {
            reference,
            fc: Fc::Mx,
        }),
        spells(seq!["write"@, reference, fc.text(), value], c) <==> c == (CommandView::Write {
            reference,
            fc,
            value,
        }),
{
    reveal_strlit("identify");
    reveal_strlit("browse");
    reveal_strlit("model");
    reveal_strlit("read");
    reveal_strlit("write");
    assert("model"@[0] == 'm' && "write"@[0] == 'w');
    assert(seq!["read"@, reference, fc.text()][0] == "read"@);
    assert(seq!["read"@, reference][0] == "read"@);
    assert(seq!["write"@, reference, fc.text(), value][0] == "write"@);
    assert(Fc::is_named(fc.text()));
    if let CommandView::Read { reference: r, fc: other } = c {
        if other.is_code() && other.text() == fc.text() {
            crate::model::codes_are_distinct(other, fc);
        }
    }
    if let CommandView::Write { reference: r, fc: other, value: v } = c {
        if other.is_code() && other.text() == fc.text() {
            crate::model::codes_are_distinct(other, fc);
        }
    }
}

/// A control is switched on by `on`, `true` and `1`, and off by anything else.
pub proof fn a_control_is_switched_as_it_says(reference: Seq<char>, word: Seq<char>, c: CommandView)
    ensures
        spells(seq!["control"@, reference, word], c) <==> c == (CommandView::Control {
            reference,
            on: word == seq!['o', 'n'] || word == seq!['t', 'r', 'u', 'e'] || word == seq!['1'],
        }),
{
    reveal_strlit("identify");
    reveal_strlit("browse");
    reveal_strlit("model");
    reveal_strlit("read");
    reveal_strlit("write");
    reveal_strlit("dataset");
    reveal_strlit("control");
    reveal_strlit("on");
    reveal_strlit("true");
    reveal_strlit("1");
    assert("dataset"@[0] == 'd' && "control"@[0] == 'c');
    assert(seq!["control"@, reference, word][0] == "control"@);
    assert("on"@ =~= seq!['o', 'n']);
    assert("true"@ =~= seq!['t', 'r', 'u', 'e']);
    assert("1"@ =~= seq!['1']);
}

/// A whole number of 32 bits is taken for one, whatever else it may read as;
/// the words for switch positions for those; what reads as a number otherwise
/// for a floating-point one; and everything else for text.
pub proof fn a_value_is_taken_for_what_it_looks_like(n: nat, s: Seq<char>, float: Option<u32>)
    ensures
        n <= 0x7fff_ffff ==> guessed(decimal(n), float) == Data::Integer(n as i64),
        n <= 0x8000_0000 ==> guessed(seq!['-'] + decimal(n), float) == Data::Integer((-n) as i64),
        guessed("true"@, float) == Data::Boolean(true),
        guessed("false"@, float) == Data::Boolean(false),
        number(s, true) is None && s != "true"@ && s != "false"@ ==> guessed(s, float) == (
        match float {
            Some(bits) => Data::Float32(bits),
            None => Data::VisibleString(s),
        }),
        n > 0x7fff_ffff ==> guessed(decimal(n), float) == (match float {
            Some(bits) => Data::Float32(bits),
            None => Data::VisibleString(decimal(n)),
        }),
{
    reveal_strlit("true");
    reveal_strlit("false");
    crate::notation::a_number_reads_back_with_its_sign(n, true);
    crate::notation::a_decimal_reads_back(n);
    assert('0' <= decimal(n)[0] <= '9');
    assert((seq!['-'] + decimal(n))[0] == '-');
    assert("true"@[0] == 't' && "false"@[0] == 'f');
}

} // verus!

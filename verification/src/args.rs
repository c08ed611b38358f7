//! The command line and what a node starts with.

use vstd::prelude::*;

use crate::board::writes;
use crate::net::{next_port, SocketAddress};
use crate::numeral::{
    all_digits, decimal, law_decimal_reads_back, lemma_numeral_value_push, numeral_value,
    push_decimal,
};
use crate::text::{char_vec, push_line, same_text, texts};

verus! {

/// A word of the command line, with the socket address that it reads as, if
/// it reads as one.
pub struct Word {
    pub text: String,
    pub addr: Option<SocketAddress>,
}

/// A word as a mathematical value.
#[verifier::ext_equal]
pub struct WordView {
    pub text: Seq<char>,
    pub addr: Option<SocketAddress>,
}

impl View for Word {
    type V = WordView;

    open spec fn view(&self) -> WordView {
        WordView { text: self.text@, addr: self.addr }
    }
}

/// Words as mathematical values.
pub open spec fn word_views(words: Seq<Word>) -> Seq<WordView> {
    words.map_values(|w: Word| w@)
}

/// What a node is started with.
pub struct Args {
    /// The port of the discovery overlay; the board takes the next one.
    pub port: u16,
    /// Where to enter the network.
    pub bootstrap: Vec<SocketAddress>,
    /// The user's nickname.
    pub nick: String,
}

/// Arguments as a mathematical value.
#[verifier::ext_equal]
pub struct ArgsView {
    pub port: u16,
    pub bootstrap: Seq<SocketAddress>,
    pub nick: Seq<char>,
}

impl View for Args {
    type V = ArgsView;

    open spec fn view(&self) -> ArgsView {
        ArgsView { port: self.port, bootstrap: self.bootstrap@, nick: self.nick@ }
    }
}

/// What a command line asks for.
pub enum Cli {
    /// To say how the program is used.
    Usage,
    /// To start a node.
    Run(Args),
}

/// Whether a character is a decimal digit.
pub open spec fn is_digit(c: char) -> bool {
    '0' <= c <= '9'
}

/// The number that a string of decimal digits writes.
pub open spec fn digits_value(s: Seq<char>) -> nat
    decreases s.len(),
{
    if s.len() == 0 {
        0
    } else {
        10 * digits_value(s.drop_last()) + (s.last() as u32 - '0' as u32) as nat
    }
}

/// A text without the plus sign in front of it, if it has one.
pub open spec fn unsigned(s: Seq<char>) -> Seq<char> {
    if s.len() > 0 && s.first() == '+' {
        s.skip(1)
    } else {
        s
    }
}

/// The port that a text names: decimal digits, at least one and with a plus
/// sign in front or without, whose number fits.
pub open spec fn port_named(s: Seq<char>) -> Option<u16> {
    let digits = unsigned(s);
    if digits.len() > 0 && (forall|i: int| 0 <= i < digits.len() ==> is_digit(#[trigger] digits[i]))
        && digits_value(digits) <= u16::MAX {
        Some(digits_value(digits) as u16)
    } else {
        None
    }
}

proof fn lemma_digits_value_grows(s: Seq<char>, n: int)
    requires
        0 <= n <= s.len(),
        forall|i: int| 0 <= i < s.len() ==> is_digit(#[trigger] s[i]),
    ensures
        digits_value(s.take(n)) <= digits_value(s),
    decreases s.len() - n,
{
    if n < s.len() {
        assert(s.take(n + 1).drop_last() =~= s.take(n));
        assert(is_digit(s[n]));
        lemma_digits_value_grows(s, n + 1);
    } else {
        assert(s.take(n) =~= s);
    }
}

/// Reads a port.
pub fn parse_port(s: &str) -> (r: Option<u16>)
    ensures
        r == port_named(s@),
{
    let chars = char_vec(s);
    let start: usize = if chars.len() > 0 && chars[0] == '+' {
        1
    } else {
        0
    };
    let ghost digits = unsigned(s@);
    assert(digits =~= s@.skip(start as int));
    if chars.len() == start {
        return None;
    }
    let mut value: u32 = 0;
    let mut i: usize = start;
    assert(digits.take(0) =~= Seq::empty());
    while i < chars.len()
        invariant
            chars@ == s@,
            start <= i <= chars@.len(),
            start < chars@.len(),
            digits == unsigned(s@),
            digits =~= s@.skip(start as int),
            forall|j: int| 0 <= j < i - start ==> is_digit(#[trigger] digits[j]),
            value == digits_value(digits.take(i - start)),
            value <= u16::MAX,
        decreases chars@.len() - i,
    {
        let c = chars[i];
        assert(c == digits[i - start]);
        if c < '0' || c > '9' {
            return None;
        }
        assert(digits.take(i - start + 1).drop_last() =~= digits.take(i - start));
        value = 10 * value + (c as u32 - '0' as u32);
        i = i + 1;
        if value > 65_535 {
            proof {
                if forall|j: int| 0 <= j < digits.len() ==> is_digit(#[trigger] digits[j]) {
                    lemma_digits_value_grows(digits, i - start);
                }
            }
            return None;
        }
    }
    assert(digits.take(i - start) =~= digits);
    Some(value as u16)
}

/// What a word asks for where an option may stand.
pub enum Opt {
    /// To set the port.
    Port,
    /// To add an entry address.
    Bootstrap,
    /// To set the nickname.
    Nick,
    /// To say how the program is used.
    Help,
    /// Nothing.
    Stray,
}

/// What a word asks for where an option may stand.
pub open spec fn opt(word: Seq<char>) -> Opt {
    if word == "--port"@ || word == "-p"@ {
        Opt::Port
    } else if word == "--bootstrap"@ || word == "-b"@ {
        Opt::Bootstrap
    } else if word == "--nick"@ || word == "-n"@ {
        Opt::Nick
    } else if word == "--help"@ || word == "-h"@ {
        Opt::Help
    } else {
        Opt::Stray
    }
}

/// Reads a word where an option may stand.
fn read_opt(word: &str) -> (r: Opt)
    ensures
        r == opt(word@),
{
    if same_text(word, "--port") || same_text(word, "-p") {
        Opt::Port
    } else if same_text(word, "--bootstrap") || same_text(word, "-b") {
        Opt::Bootstrap
    } else if same_text(word, "--nick") || same_text(word, "-n") {
        Opt::Nick
    } else if same_text(word, "--help") || same_text(word, "-h") {
        Opt::Help
    } else {
        Opt::Stray
    }
}

/// Whether a word is the value of the option in front of it. Ports, entry
/// addresses and nicknames are values, whatever the word is; a value is never
/// an option itself.
pub open spec fn is_value(words: Seq<WordView>, i: int) -> bool
    decreases i,
{
    0 < i && !is_value(words, i - 1) && (opt(words[i - 1].text) is Port || opt(
        words[i - 1].text,
    ) is Bootstrap || opt(words[i - 1].text) is Nick)
}

/// Whether a word is the value of an option of this kind.
pub open spec fn is_value_of(words: Seq<WordView>, i: int, option: Opt) -> bool {
    is_value(words, i) && opt(words[i - 1].text) == option
}

/// Whether a word asks for the usage.
pub open spec fn asks_usage(words: Seq<WordView>, i: int) -> bool {
    !is_value(words, i) && opt(words[i].text) is Help
}

/// The last usable port value among the first `n` words, or the default.
pub open spec fn last_port(words: Seq<WordView>, n: int, default: u16) -> u16
    decreases n,
{
    if n <= 0 {
        default
    } else if is_value_of(words, n - 1, Opt::Port) && port_named(words[n - 1].text) is Some {
        port_named(words[n - 1].text)->0
    } else {
        last_port(words, n - 1, default)
    }
}

/// The last nickname among the first `n` words, or the default.
pub open spec fn last_nick(words: Seq<WordView>, n: int, default: Seq<char>) -> Seq<char>
    decreases n,
{
    if n <= 0 {
        default
    } else if is_value_of(words, n - 1, Opt::Nick) {
        words[n - 1].text
    } else {
        last_nick(words, n - 1, default)
    }
}

/// The usable entry addresses among the first `n` words, in order.
pub open spec fn entries(words: Seq<WordView>, n: int) -> Seq<SocketAddress>
    decreases n,
{
    if n <= 0 {
        Seq::empty()
    } else if is_value_of(words, n - 1, Opt::Bootstrap) && words[n - 1].addr is Some {
        entries(words, n - 1).push(words[n - 1].addr->0)
    } else {
        entries(words, n - 1)
    }
}

/// The port of a command line that names none.
pub const DEFAULT_PORT: u16 = 9000;

/// The arguments that a command line sets; nothing, if a word of it asks for
/// the usage.
pub open spec fn args_of(words: Seq<WordView>) -> Option<ArgsView> {
    if exists|i: int| 0 <= i < words.len() && #[trigger] asks_usage(words, i) {
        None
    } else {
        let n = words.len() as int;
        Some(
            ArgsView {
                port: last_port(words, n, DEFAULT_PORT),
                bootstrap: entries(words, n),
                nick: last_nick(words, n, "anon"@),
            },
        )
    }
}

/// Reads the command line, the program's own name left out.
pub fn parse_args(words: &Vec<Word>) -> (r: Cli)
    ensures
        match r {
            Cli::Usage => args_of(word_views(words@)) is None,
            Cli::Run(args) => args_of(word_views(words@)) == Some(args@),
        },
{
    let mut args = Args {
        port: DEFAULT_PORT,
        bootstrap: Vec::new(),
        nick: String::from_str("anon"),
    };
    let ghost all = word_views(words@);
    let mut i: usize = 0;
    assert(args.bootstrap@ =~= entries(all, 0));
    while i < words.len()
        invariant
            all == word_views(words@),
            i <= words@.len(),
            !is_value(all, i as int),
            forall|j: int| 0 <= j < i ==> !#[trigger] asks_usage(all, j),
            args.port == last_port(all, i as int, DEFAULT_PORT),
            args.bootstrap@ == entries(all, i as int),
            args.nick@ == last_nick(all, i as int, "anon"@),
        decreases words@.len() - i,
    {
        let ghost start = i as int;
        assert(all[start] == words@[start]@);
        assert(last_port(all, start + 1, DEFAULT_PORT) == args.port);
        assert(entries(all, start + 1) == args.bootstrap@);
        assert(last_nick(all, start + 1, "anon"@) == args.nick@);
        let option = read_opt(words[i].text.as_str());
        i = i + 1;
        match option {
            Opt::Help => {
                assert(asks_usage(all, start));
                return Cli::Usage;
            },
            Opt::Stray => {},
            _ => {
                if i < words.len() {
                    assert(is_value_of(all, start + 1, option));
                    assert(all[start + 1] == words@[start + 1]@);
                    match option {
                        Opt::Port => match parse_port(words[i].text.as_str()) {
                            Some(port) => {
                                args.port = port;
                            },
                            None => {},
                        },
                        Opt::Bootstrap => match words[i].addr {
                            Some(addr) => {
                                args.bootstrap.push(addr);
                            },
                            None => {},
                        },
                        _ => {
                            args.nick = words[i].text.clone();
                        },
                    }
                    i = i + 1;
                } else {
                    return Cli::Run(args);
                }
            },
        }
    }
    Cli::Run(args)
}

/// The port is the value of the last port option with a usable one: it is
/// that of a word behind which no usable port value stands, and the default
/// where there is none.
pub proof fn law_last_port_counts(words: Seq<WordView>, default: u16, i: int, n: int)
    requires
        i < n,
        forall|j: int|
            i < j < n && #[trigger] is_value_of(words, j, Opt::Port) ==> port_named(words[j].text) is None,
    ensures
        i < 0 ==> last_port(words, n, default) == default,
        0 <= i && is_value_of(words, i, Opt::Port) && port_named(words[i].text) is Some ==> Some(
            last_port(words, n, default),
        ) == port_named(words[i].text),
    decreases n,
{
    if n > 0 && i < n - 1 {
        law_last_port_counts(words, default, i, n - 1);
    }
}

/// The nickname is the value of the last nickname option: it is a word behind
/// which no nickname stands, and the default where there is none.
pub proof fn law_last_nick_counts(words: Seq<WordView>, default: Seq<char>, i: int, n: int)
    requires
        i < n,
        forall|j: int| i < j < n ==> !#[trigger] is_value_of(words, j, Opt::Nick),
    ensures
        i < 0 ==> last_nick(words, n, default) == default,
        0 <= i && is_value_of(words, i, Opt::Nick) ==> last_nick(words, n, default)
            == words[i].text,
    decreases n,
{
    if n > 0 && i < n - 1 {
        law_last_nick_counts(words, default, i, n - 1);
    }
}

/// Entry addresses add up: later words take none of the earlier ones back,
/// every usable value is among them, and nothing else is.
pub proof fn law_entries_add_up(words: Seq<WordView>, m: int, n: int)
    requires
        0 <= m <= n,
    ensures
        entries(words, m).is_prefix_of(entries(words, n)),
        forall|addr: SocketAddress|
            #![trigger entries(words, n).contains(addr)]
            entries(words, n).contains(addr) <==> exists|i: int|
                0 <= i < n && #[trigger] is_value_of(words, i, Opt::Bootstrap) && words[i].addr
                    == Some(addr),
    decreases n,
{
    if n > 0 {
        let front = entries(words, n - 1);
        let whole = entries(words, n);
        law_entries_add_up(words, if m < n { m } else { m - 1 }, n - 1);
        assert forall|addr: SocketAddress|
            #![trigger whole.contains(addr)]
            whole.contains(addr) <==> exists|i: int|
                0 <= i < n && #[trigger] is_value_of(words, i, Opt::Bootstrap) && words[i].addr
                    == Some(addr) by {
            let added = is_value_of(words, n - 1, Opt::Bootstrap) && words[n - 1].addr
                == Some(addr);
            assert(whole.contains(addr) <==> front.contains(addr) || added) by {
                if whole.contains(addr) {
                    let k = choose|k: int| 0 <= k < whole.len() && whole[k] == addr;
                    if k < front.len() {
                        assert(front[k] == addr);
                    }
                }
                if front.contains(addr) {
                    let k = choose|k: int| 0 <= k < front.len() && front[k] == addr;
                    assert(whole[k] == addr);
                }
                if added {
                    assert(whole[whole.len() - 1] == addr);
                }
            }
        }
    }
}

/// A command line without options sets nothing.
pub proof fn law_no_option(words: Seq<WordView>)
    requires
        forall|i: int| 0 <= i < words.len() ==> opt((#[trigger] words[i]).text) is Stray,
    ensures
        args_of(words) == args_of(Seq::empty()),
{
    let n = words.len() as int;
    assert forall|i: int| 0 <= i <= n implies !#[trigger] is_value(words, i) by {
        if i > 0 {
            assert(opt(words[i - 1].text) is Stray);
        }
    }
    law_last_port_counts(words, DEFAULT_PORT, -1, n);
    law_last_nick_counts(words, "anon"@, -1, n);
    law_entries_add_up(words, 0, n);
    assert(entries(words, n) =~= Seq::empty()) by {
        if entries(words, n).len() > 0 {
            assert(entries(words, n).contains(entries(words, n)[0]));
        }
    }
}

/// How the program is used.
pub open spec fn usage_text() -> Seq<Seq<char>> {
    seq![
        "usage: peaboard [--port P] [--bootstrap IP:PORT]... [--nick NAME]"@,
        "  --port P          peaveil listens on P, peasub on P+1 (default 9000)"@,
        "  --bootstrap A     a peer's peaveil address to enter through (repeatable)"@,
        "  --nick NAME       your display name (default: anon)"@,
    ]
}

/// Says how the program is used.
pub fn usage() -> (r: Vec<String>)
    ensures
        texts(r@) == usage_text(),
{
    let mut out: Vec<String> = Vec::new();
    push_line(&mut out, "usage: peaboard [--port P] [--bootstrap IP:PORT]... [--nick NAME]");
    push_line(&mut out, "  --port P          peaveil listens on P, peasub on P+1 (default 9000)");
    push_line(&mut out, "  --bootstrap A     a peer's peaveil address to enter through (repeatable)");
    push_line(&mut out, "  --nick NAME       your display name (default: anon)");
    assert(texts(out@) =~= usage_text());
    out
}

/// What the two overlays of a node are called and where they listen.
pub struct Overlays {
    pub discovery_name: String,
    pub discovery_addr: String,
    pub board_name: String,
    pub board_addr: String,
}

fn numbered(prefix: &str, port: u16) -> (r: String)
    ensures
        r@ == prefix@ + decimal(port as nat),
{
    let mut out = String::from_str(prefix);
    push_decimal(&mut out, port as u64);
    out
}

/// Names the overlays of a node on this machine: discovery on the port, the
/// board on the next one. The last port has no next one.
pub fn overlays(port: u16) -> (r: Overlays)
    requires
        port < u16::MAX,
    ensures
        r.discovery_name@ == "peaboard-disc-"@ + decimal(port as nat),
        r.discovery_addr@ == "127.0.0.1:"@ + decimal(port as nat),
        r.board_name@ == "peaboard-board-"@ + decimal(port as nat),
        r.board_addr@ == "127.0.0.1:"@ + decimal(next_port(port) as nat),
{
    Overlays {
        discovery_name: numbered("peaboard-disc-", port),
        discovery_addr: numbered("127.0.0.1:", port),
        board_name: numbered("peaboard-board-", port),
        board_addr: numbered("127.0.0.1:", port + 1),
    }
}

/// Digits write the number that their places add up to.
pub proof fn law_digits_by_place(s: Seq<char>)
    requires
        all_digits(s),
    ensures
        digits_value(s) == numeral_value(s),
    decreases s.len(),
{
    if s.len() > 0 {
        let front = s.drop_last();
        assert forall|i: int| 0 <= i < front.len() implies '0' <= #[trigger] front[i] <= '9' by {
            assert(front[i] == s[i]);
        }
        law_digits_by_place(front);
        lemma_numeral_value_push(front, s.last());
        assert(s =~= front.push(s.last()));
        assert('0' <= s[s.len() - 1] <= '9');
    }
}

/// A text names a port exactly where it is digits, at least one and with a
/// plus sign in front or without, whose number is that port.
pub proof fn law_port_reads_back(s: Seq<char>, port: u16)
    ensures
        port_named(s) == Some(port) <==> exists|digits: Seq<char>|
            {
                &&& digits.len() > 0
                &&& #[trigger] all_digits(digits)
                &&& numeral_value(digits) == port
                &&& s == digits || s == seq!['+'] + digits
            },
{
    let rest = unsigned(s);
    if port_named(s) == Some(port) {
        assert forall|i: int| 0 <= i < rest.len() implies '0' <= #[trigger] rest[i] <= '9' by {
            assert(is_digit(rest[i]));
        }
        assert(all_digits(rest));
        law_digits_by_place(rest);
        assert(s =~= rest || s =~= seq!['+'] + rest);
    }
    if exists|digits: Seq<char>|
        {
            &&& digits.len() > 0
            &&& #[trigger] all_digits(digits)
            &&& numeral_value(digits) == port
            &&& s == digits || s == seq!['+'] + digits
        } {
        let digits = choose|digits: Seq<char>|
            {
                &&& digits.len() > 0
                &&& #[trigger] all_digits(digits)
                &&& numeral_value(digits) == port
                &&& s == digits || s == seq!['+'] + digits
            };
        assert('0' <= digits[0] <= '9');
        if s == digits {
            assert(rest == digits);
        } else {
            assert(rest =~= digits);
        }
        law_digits_by_place(digits);
        assert forall|i: int| 0 <= i < rest.len() implies is_digit(#[trigger] rest[i]) by {
            assert('0' <= digits[i] <= '9');
        }
    }
}

/// Every port, written out, is read as that port, with a plus sign or without.
pub proof fn law_port_of_numeral(port: u16)
    ensures
        port_named(decimal(port as nat)) == Some(port),
        port_named(seq!['+'] + decimal(port as nat)) == Some(port),
{
    law_decimal_reads_back(port as nat);
    let digits = decimal(port as nat);
    assert(all_digits(digits));
    law_port_reads_back(digits, port);
    law_port_reads_back(seq!['+'] + digits, port);
}

/// What each word asks for where an option may stand.
pub proof fn law_options(word: Seq<char>)
    ensures
        opt("--port"@) is Port && opt("-p"@) is Port,
        opt("--bootstrap"@) is Bootstrap && opt("-b"@) is Bootstrap,
        opt("--nick"@) is Nick && opt("-n"@) is Nick,
        opt("--help"@) is Help && opt("-h"@) is Help,
        opt(word) is Port ==> word == "--port"@ || word == "-p"@,
        opt(word) is Bootstrap ==> word == "--bootstrap"@ || word == "-b"@,
        opt(word) is Nick ==> word == "--nick"@ || word == "-n"@,
        opt(word) is Help ==> word == "--help"@ || word == "-h"@,
{
    reveal_strlit("--port");
    reveal_strlit("-p");
    reveal_strlit("--bootstrap");
    reveal_strlit("-b");
    reveal_strlit("--nick");
    reveal_strlit("-n");
    reveal_strlit("--help");
    reveal_strlit("-h");
    assert("--nick"@[2] == 'n' && "--port"@[2] == 'p' && "--help"@[2] == 'h');
    assert("-p"@[1] == 'p' && "-b"@[1] == 'b' && "-n"@[1] == 'n' && "-h"@[1] == 'h');
}

/// Which words are values: the first is none, and another is one exactly where
/// an option that takes a value stands in front of it.
pub proof fn law_value_positions(words: Seq<WordView>, i: int)
    requires
        0 <= i,
    ensures
        !is_value(words, 0),
        is_value(words, i + 1) <==> !is_value(words, i) && (opt(words[i].text) is Port || opt(
            words[i].text,
        ) is Bootstrap || opt(words[i].text) is Nick),
{
}

proof fn lemma_front_decides(words: Seq<WordView>, longer: Seq<WordView>, n: int)
    requires
        words.is_prefix_of(longer),
        0 <= n <= words.len(),
    ensures
        is_value(longer, n) == is_value(words, n),
        last_port(longer, n, DEFAULT_PORT) == last_port(words, n, DEFAULT_PORT),
        last_nick(longer, n, "anon"@) == last_nick(words, n, "anon"@),
        entries(longer, n) == entries(words, n),
    decreases n,
{
    if n > 0 {
        lemma_front_decides(words, longer, n - 1);
        assert(longer[n - 1] == words[n - 1]);
        if n > 1 {
            lemma_front_decides(words, longer, n - 2);
            assert(longer[n - 2] == words[n - 2]);
        }
    }
}

/// What one more option with its value does to a command line that is complete
/// as it stands: it sets or adds what it can use, and leaves the rest. One that
/// asks for the usage still does.
pub proof fn law_one_more_option(words: Seq<WordView>, option: WordView, value: WordView)
    requires
        !is_value(words, words.len() as int),
        opt(option.text) is Port || opt(option.text) is Bootstrap || opt(option.text) is Nick,
    ensures
        ({
            let a = args_of(words)->0;
            let b = args_of(words.push(option).push(value));
            &&& b is Some <==> args_of(words) is Some
            &&& b is Some ==> b->0.port == (if opt(option.text) is Port && port_named(value.text) is Some {
                port_named(value.text)->0
            } else {
                a.port
            })
            &&& b is Some ==> b->0.nick == (if opt(option.text) is Nick {
                value.text
            } else {
                a.nick
            })
            &&& b is Some ==> b->0.bootstrap == (if opt(option.text) is Bootstrap && value.addr is Some {
                a.bootstrap.push(value.addr->0)
            } else {
                a.bootstrap
            })
        }),
{
    let longer = words.push(option).push(value);
    let n = words.len() as int;
    assert(words.is_prefix_of(longer));
    lemma_front_decides(words, longer, n);
    assert(longer[n] == option && longer[n + 1] == value);
    assert(is_value(longer, n + 1));
    assert forall|i: int| 0 <= i < n implies #[trigger] asks_usage(longer, i) == asks_usage(
        words,
        i,
    ) by {
        lemma_front_decides(words, longer, i);
        assert(longer[i] == words[i]);
    }
    if args_of(words) is None {
        let i = choose|i: int| 0 <= i < words.len() && #[trigger] asks_usage(words, i);
        assert(asks_usage(longer, i));
    } else {
        assert forall|i: int| 0 <= i < longer.len() implies !#[trigger] asks_usage(longer, i) by {
            if i < n {
                assert(!asks_usage(words, i));
            }
        }
    }
    assert(last_port(longer, n + 1, DEFAULT_PORT) == last_port(longer, n, DEFAULT_PORT));
    assert(last_nick(longer, n + 1, "anon"@) == last_nick(longer, n, "anon"@));
    assert(entries(longer, n + 1) == entries(longer, n));
}

/// One more word that is no option, or an option without its value, changes
/// nothing, and one that asks for the usage gets it, whatever came before.
pub proof fn law_one_more_word(words: Seq<WordView>, word: WordView)
    requires
        !is_value(words, words.len() as int),
    ensures
        !(opt(word.text) is Help) ==> args_of(words.push(word)) == args_of(words),
        opt(word.text) is Help ==> args_of(words.push(word)) is None,
        args_of(words) is None ==> args_of(words.push(word)) is None,
{
    let longer = words.push(word);
    let n = words.len() as int;
    assert(words.is_prefix_of(longer));
    lemma_front_decides(words, longer, n);
    assert(longer[n] == word);
    assert forall|i: int| 0 <= i < n implies #[trigger] asks_usage(longer, i) == asks_usage(
        words,
        i,
    ) by {
        lemma_front_decides(words, longer, i);
        assert(longer[i] == words[i]);
    }
    if args_of(words) is None {
        let i = choose|i: int| 0 <= i < words.len() && #[trigger] asks_usage(words, i);
        assert(asks_usage(longer, i));
    } else {
        assert forall|i: int| 0 <= i < n implies !#[trigger] asks_usage(longer, i) by {
            assert(!asks_usage(words, i));
        }
    }
    if opt(word.text) is Help {
        assert(asks_usage(longer, n));
    }
    if !(opt(word.text) is Help) {
        assert(!asks_usage(longer, n));
    }
}

/// An empty command line: port nine thousand, nobody to enter through, and the
/// nickname `anon`.
pub proof fn law_empty_command_line()
    ensures
        args_of(Seq::empty()) == Some(
            ArgsView { port: 9000, bootstrap: Seq::empty(), nick: "anon"@ },
        ),
{
}

/// Words and arguments keep everything as mathematical values.
pub proof fn law_words_kept(words: Seq<Word>, i: int, args: Args)
    requires
        0 <= i < words.len(),
    ensures
        word_views(words).len() == words.len(),
        word_views(words)[i].text == words[i].text@,
        word_views(words)[i].addr == words[i].addr,
        args@.port == args.port,
        args@.bootstrap == args.bootstrap@,
        args@.nick == args.nick@,
{
}

/// The overlays of a node listen on its port and on the one behind it, on this
/// machine, and are called after the port.
pub proof fn law_overlays(port: u16, r: Overlays)
    requires
        port < u16::MAX,
        call_ensures(overlays, (port,), r),
    ensures
        exists|digits: Seq<char>| #[trigger]
            writes(digits, port as nat) && r.discovery_name@ == "peaboard-disc-"@ + digits
                && r.discovery_addr@ == "127.0.0.1:"@ + digits && r.board_name@
                == "peaboard-board-"@ + digits,
        exists|digits: Seq<char>| #[trigger]
            writes(digits, (port + 1) as nat) && r.board_addr@ == "127.0.0.1:"@ + digits,
{
    law_decimal_reads_back(port as nat);
    law_decimal_reads_back((port + 1) as nat);
    assert(writes(decimal(port as nat), port as nat));
    assert(writes(decimal((port + 1) as nat), (port + 1) as nat));
}

/// What `parse_port` gives back is the number that the digits write.
pub proof fn law_parse_port(s: &str, r: Option<u16>, port: u16)
    requires
        call_ensures(parse_port, (s,), r),
    ensures
        r == Some(port) <==> exists|digits: Seq<char>|
            {
                &&& digits.len() > 0
                &&& #[trigger] all_digits(digits)
                &&& numeral_value(digits) == port
                &&& s@ == digits || s@ == seq!['+'] + digits
            },
{
    law_port_reads_back(s@, port);
}

} // verus!

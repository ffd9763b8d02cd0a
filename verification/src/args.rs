//! The command line.

use vstd::prelude::*;

use crate::number::{decimal, is_digit, law_decimal_round_trip, parse_number, parsed};
use crate::text::{chars_of, law_prefixes, same, starts_with, strip_prefixes, without_prefixes};

verus! {

/// The options of the server.
pub struct Args {
    /// The directory to serve.
    pub root: String,
    /// A file of credentials.
    pub auth_file: Option<String>,
    /// Credentials.
    pub auth: Vec<String>,
    /// A file for diagnostics, in place of standard error.
    pub log_file: Option<String>,
    /// The user to become when started as root.
    pub run_as: Option<String>,
    /// How long a read or write may take, in seconds; 0 for any time.
    pub timeout: u64,
    /// The most requests on one connection; 0 for any number.
    pub max_requests: u32,
    /// The path of a socket to listen on, in place of standard input.
    pub listen: Option<String>,
    /// The permissions of that socket.
    pub socket_mode: u32,
    /// The owner of that socket.
    pub socket_owner: Option<String>,
    /// The most connections at once; 0 for any number.
    pub max_connections: u32,
    /// Whether each request is logged.
    pub verbose: bool,
    /// The patterns of names that are served though they are hidden.
    pub exposes: Vec<String>,
}

/// Why a command line is not understood.
#[derive(Debug, PartialEq, Eq)]
pub enum ArgsError {
    /// Help was asked for, or a value is missing or no number.
    Usage,
    /// This argument is not an option.
    Unexpected(String),
}

/// The options as texts and numbers.
#[verifier::ext_equal]
pub struct Options {
    pub root: Seq<char>,
    pub auth_file: Option<Seq<char>>,
    pub auth: Seq<Seq<char>>,
    pub log_file: Option<Seq<char>>,
    pub run_as: Option<Seq<char>>,
    pub timeout: u64,
    pub max_requests: u32,
    pub listen: Option<Seq<char>>,
    pub socket_mode: u32,
    pub socket_owner: Option<Seq<char>>,
    pub max_connections: u32,
    pub verbose: bool,
    pub exposes: Seq<Seq<char>>,
}

/// An optional text.
pub open spec fn text_in(s: Option<String>) -> Option<Seq<char>> {
    match s {
        Some(t) => Some(t@),
        None => None,
    }
}

/// The texts in `v`.
pub open spec fn texts(v: Seq<String>) -> Seq<Seq<char>> {
    v.map_values(|s: String| s@)
}

impl View for Args {
    type V = Options;

    open spec fn view(&self) -> Options {
        Options {
            root: self.root@,
            auth_file: text_in(self.auth_file),
            auth: texts(self.auth@),
            log_file: text_in(self.log_file),
            run_as: text_in(self.run_as),
            timeout: self.timeout,
            max_requests: self.max_requests,
            listen: text_in(self.listen),
            socket_mode: self.socket_mode,
            socket_owner: text_in(self.socket_owner),
            max_connections: self.max_connections,
            verbose: self.verbose,
            exposes: texts(self.exposes@),
        }
    }
}

/// The options where none is given.
pub open spec fn defaults() -> Options {
    Options {
        root: "."@,
        auth_file: None,
        auth: seq![],
        log_file: None,
        run_as: None,
        timeout: 30,
        max_requests: 100,
        listen: None,
        socket_mode: 0o660,
        socket_owner: None,
        max_connections: 64,
        verbose: false,
        exposes: seq![],
    }
}

/// Whether an option takes the argument behind it as its value.
pub open spec fn takes_value(flag: Seq<char>) -> bool {
    flag == "--root"@ || flag == "--listen"@ || flag == "--socket-mode"@ || flag
        == "--socket-owner"@ || flag == "--max-connections"@ || flag == "--expose"@ || flag
        == "--auth-file"@ || flag == "--auth"@ || flag == "--log-file"@ || flag == "--run-as"@
        || flag == "--timeout"@ || flag == "--max-requests"@
}

/// The options with the value of one set, if it is a value for it.
pub open spec fn with_value(o: Options, flag: Seq<char>, value: Seq<char>) -> Option<Options> {
    if flag == "--root"@ {
        Some(Options { root: value, ..o })
    } else if flag == "--listen"@ {
        Some(Options { listen: Some(value), ..o })
    } else if flag == "--socket-mode"@ {
        match parsed(without_prefixes(value, "0o"@), 8, u32::MAX as nat) {
            Some(n) => Some(Options { socket_mode: n as u32, ..o }),
            None => None,
        }
    } else if flag == "--socket-owner"@ {
        Some(Options { socket_owner: Some(value), ..o })
    } else if flag == "--max-connections"@ {
        match parsed(value, 10, u32::MAX as nat) {
            Some(n) => Some(Options { max_connections: n as u32, ..o }),
            None => None,
        }
    } else if flag == "--expose"@ {
        Some(Options { exposes: o.exposes.push(value), ..o })
    } else if flag == "--auth-file"@ {
        Some(Options { auth_file: Some(value), ..o })
    } else if flag == "--auth"@ {
        Some(Options { auth: o.auth.push(value), ..o })
    } else if flag == "--log-file"@ {
        Some(Options { log_file: Some(value), ..o })
    } else if flag == "--run-as"@ {
        Some(Options { run_as: Some(value), ..o })
    } else if flag == "--timeout"@ {
        match parsed(value, 10, u64::MAX as nat) {
            Some(n) => Some(Options { timeout: n as u64, ..o }),
            None => None,
        }
    } else if flag == "--max-requests"@ {
        match parsed(value, 10, u32::MAX as nat) {
            Some(n) => Some(Options { max_requests: n as u32, ..o }),
            None => None,
        }
    } else {
        None
    }
}

/// What arguments come to.
pub enum Outcome {
    Accepted(Options),
    Usage,
    Unexpected(Seq<char>),
}

/// The options after the arguments, read from the front. A later value of an option
/// takes the place of an earlier one, but for those that may be repeated.
pub open spec fn with_args(o: Options, args: Seq<Seq<char>>) -> Outcome
    decreases args.len(),
{
    if args.len() == 0 {
        Outcome::Accepted(o)
    } else if args[0] == "-v"@ || args[0] == "--verbose"@ {
        with_args(Options { verbose: true, ..o }, args.skip(1))
    } else if takes_value(args[0]) {
        if args.len() < 2 {
            Outcome::Usage
        } else {
            match with_value(o, args[0], args[1]) {
                Some(p) => with_args(p, args.skip(2)),
                None => Outcome::Usage,
            }
        }
    } else if args[0] == "-h"@ || args[0] == "--help"@ {
        Outcome::Usage
    } else {
        Outcome::Unexpected(args[0])
    }
}

/// Whether an option takes the argument behind it as its value.
fn needs_value(flag: &str) -> (r: bool)
    ensures
        r == takes_value(flag@),
{
    same(flag, "--root") || same(flag, "--listen") || same(flag, "--socket-mode") || same(
        flag,
        "--socket-owner",
    ) || same(flag, "--max-connections") || same(flag, "--expose") || same(flag, "--auth-file")
        || same(flag, "--auth") || same(flag, "--log-file") || same(flag, "--run-as") || same(
        flag,
        "--timeout",
    ) || same(flag, "--max-requests")
}

/// The decimal number in `value`, if it is one up to `max`.
fn number_in(value: &str, max: u64) -> (r: Option<u64>)
    ensures
        r is Some <==> parsed(value@, 10, max as nat) is Some,
        r matches Some(n) ==> parsed(value@, 10, max as nat) == Some(n as nat) && n <= max,
{
    let chars = chars_of(value);
    parse_number(chars.as_slice(), 10, max)
}

/// The octal number in `value`, which may begin with `0o`.
fn mode_in(value: &str) -> (r: Option<u64>)
    ensures
        r is Some <==> parsed(without_prefixes(value@, "0o"@), 8, u32::MAX as nat) is Some,
        r matches Some(n) ==> parsed(without_prefixes(value@, "0o"@), 8, u32::MAX as nat) == Some(
            n as nat,
        ) && n <= u32::MAX,
{
    proof {
        reveal_strlit("0o");
    }
    let chars = chars_of(value);
    parse_number(strip_prefixes(chars.as_slice(), "0o"), 8, u32::MAX as u64)
}

/// Adds a text to a list.
fn push_text(list: &mut Vec<String>, value: &str)
    ensures
        texts(final(list)@) == texts(old(list)@).push(value@),
{
    let ghost before = texts(list@);
    list.push(value.to_string());
    assert(texts(list@) =~= before.push(value@));
}

impl Args {
    /// The options where none is given.
    pub fn new() -> (r: Args)
        ensures
            r@ == defaults(),
    {
        let r = Args {
            root: ".".to_string(),
            auth_file: None,
            auth: Vec::new(),
            log_file: None,
            run_as: None,
            timeout: 30,
            max_requests: 100,
            listen: None,
            socket_mode: 0o660,
            socket_owner: None,
            max_connections: 64,
            verbose: false,
            exposes: Vec::new(),
        };
        assert(r@ =~= defaults());
        r
    }

    /// Sets the value of an option, and says whether it is a value for it.
    fn set(&mut self, flag: &str, value: &str) -> (r: bool)
        requires
            takes_value(flag@),
        ensures
            match with_value(old(self)@, flag@, value@) {
                Some(o) => r && final(self)@ == o,
                None => !r,
            },
    {
        if same(flag, "--root") {
            self.root = value.to_string();
        } else if same(flag, "--listen") {
            self.listen = Some(value.to_string());
        } else if same(flag, "--socket-mode") {
            match mode_in(value) {
                Some(n) => self.socket_mode = n as u32,
                None => {
                    return false;
                },
            }
        } else if same(flag, "--socket-owner") {
            self.socket_owner = Some(value.to_string());
        } else if same(flag, "--max-connections") {
            match number_in(value, u32::MAX as u64) {
                Some(n) => self.max_connections = n as u32,
                None => {
                    return false;
                },
            }
        } else if same(flag, "--expose") {
            push_text(&mut self.exposes, value);
        } else if same(flag, "--auth-file") {
            self.auth_file = Some(value.to_string());
        } else if same(flag, "--auth") {
            push_text(&mut self.auth, value);
        } else if same(flag, "--log-file") {
            self.log_file = Some(value.to_string());
        } else if same(flag, "--run-as") {
            self.run_as = Some(value.to_string());
        } else if same(flag, "--timeout") {
            match number_in(value, u64::MAX) {
                Some(n) => self.timeout = n,
                None => {
                    return false;
                },
            }
        } else {
            match number_in(value, u32::MAX as u64) {
                Some(n) => self.max_requests = n as u32,
                None => {
                    return false;
                },
            }
        }
        true
    }
}

/// Reads the arguments of the command line, without the name of the program.
pub fn parse_args(args: &[String]) -> (r: Result<Args, ArgsError>)
    ensures
        match with_args(defaults(), texts(args@)) {
            Outcome::Accepted(o) => r matches Ok(a) && a@ == o,
            Outcome::Usage => r matches Err(e) && e is Usage,
            Outcome::Unexpected(s) => r matches Err(e) && e matches ArgsError::Unexpected(t)
                && t@ == s,
        },
{
    let ghost all = texts(args@);
    let mut a = Args::new();
    let mut i: usize = 0;
    assert(all.skip(0) =~= all);
    while i < args.len()
        invariant
            i <= args.len(),
            all == texts(args@),
            with_args(a@, all.skip(i as int)) == with_args(defaults(), all),
        decreases args.len() - i,
    {
        let ghost rest = all.skip(i as int);
        let arg = args[i].as_str();
        assert(rest[0] == arg@);
        assert(rest.skip(1) =~= all.skip(i + 1));
        if same(arg, "-v") || same(arg, "--verbose") {
            let ghost before = a@;
            a.verbose = true;
            assert(a@ =~= (Options { verbose: true, ..before }));
            i += 1;
        } else if needs_value(arg) {
            if args.len() - i < 2 {
                return Err(ArgsError::Usage);
            }
            assert(rest[1] == args@[i + 1]@);
            assert(rest.skip(2) =~= all.skip(i + 2));
            if !a.set(arg, args[i + 1].as_str()) {
                return Err(ArgsError::Usage);
            }
            i += 2;
        } else if same(arg, "-h") || same(arg, "--help") {
            return Err(ArgsError::Usage);
        } else {
            return Err(ArgsError::Unexpected(arg.to_string()));
        }
    }
    Ok(a)
}

/// A number that tells the options apart.
spec fn key(s: Seq<char>) -> int {
    s.len() * 1000 + (if s.len() > 2 {
        s[2] as int
    } else {
        s[1] as int
    })
}

/// No option is another.
proof fn lemma_keys()
    ensures
        key("--root"@) == 6114,
        key("--listen"@) == 8108,
        key("--socket-owner"@) == 14115,
        key("--expose"@) == 8101,
        key("--auth-file"@) == 11097,
        key("--auth"@) == 6097,
        key("--log-file"@) == 10108,
        key("--run-as"@) == 8114,
        key("--max-connections"@) == 17109,
        key("--timeout"@) == 9116,
        key("--max-requests"@) == 14109,
        key("--socket-mode"@) == 13115,
        key("-v"@) == 2118,
        key("--verbose"@) == 9118,
        key("-h"@) == 2104,
        key("--help"@) == 6104,
{
    reveal_strlit("--root");
    reveal_strlit("--listen");
    reveal_strlit("--socket-owner");
    reveal_strlit("--expose");
    reveal_strlit("--auth-file");
    reveal_strlit("--auth");
    reveal_strlit("--log-file");
    reveal_strlit("--run-as");
    reveal_strlit("--max-connections");
    reveal_strlit("--timeout");
    reveal_strlit("--max-requests");
    reveal_strlit("--socket-mode");
    reveal_strlit("-v");
    reveal_strlit("--verbose");
    reveal_strlit("-h");
    reveal_strlit("--help");
}

/// What remains of arguments behind the first, and the first two.
proof fn lemma_behind(flag: Seq<char>, value: Seq<char>, rest: Seq<Seq<char>>)
    ensures
        (seq![flag] + rest).skip(1) == rest,
        (seq![flag] + rest)[0] == flag,
        (seq![flag, value] + rest).skip(2) == rest,
        (seq![flag, value] + rest)[0] == flag,
        (seq![flag, value] + rest)[1] == value,
{
    assert((seq![flag] + rest).skip(1) =~= rest);
    assert((seq![flag, value] + rest).skip(2) =~= rest);
}

/// What the options are where none is given.
pub proof fn law_defaults()
    ensures
        ({
            let o = defaults();
            &&& o.root == "."@
            &&& o.auth_file is None && o.log_file is None && o.run_as is None
            &&& o.listen is None && o.socket_owner is None
            &&& o.auth.len() == 0 && o.exposes.len() == 0
            &&& o.timeout == 30 && o.max_requests == 100 && o.max_connections == 64
            &&& o.socket_mode == 6 * 64 + 6 * 8
            &&& !o.verbose
        }),
{
}

/// What an option with a text for its value does, before whatever follows: it sets
/// that value and nothing else, or adds it where the option may be repeated.
pub proof fn law_options_with_texts(o: Options, value: Seq<char>, rest: Seq<Seq<char>>)
    ensures
        with_args(o, seq!["--root"@, value] + rest) == with_args(
            Options { root: value, ..o },
            rest,
        ),
        with_args(o, seq!["--listen"@, value] + rest) == with_args(
            Options { listen: Some(value), ..o },
            rest,
        ),
        with_args(o, seq!["--socket-owner"@, value] + rest) == with_args(
            Options { socket_owner: Some(value), ..o },
            rest,
        ),
        with_args(o, seq!["--expose"@, value] + rest) == with_args(
            Options { exposes: o.exposes.push(value), ..o },
            rest,
        ),
        with_args(o, seq!["--auth-file"@, value] + rest) == with_args(
            Options { auth_file: Some(value), ..o },
            rest,
        ),
        with_args(o, seq!["--auth"@, value] + rest) == with_args(
            Options { auth: o.auth.push(value), ..o },
            rest,
        ),
        with_args(o, seq!["--log-file"@, value] + rest) == with_args(
            Options { log_file: Some(value), ..o },
            rest,
        ),
        with_args(o, seq!["--run-as"@, value] + rest) == with_args(
            Options { run_as: Some(value), ..o },
            rest,
        ),
{
    lemma_keys();
    lemma_behind("--root"@, value, rest);
    lemma_behind("--listen"@, value, rest);
    lemma_behind("--socket-owner"@, value, rest);
    lemma_behind("--expose"@, value, rest);
    lemma_behind("--auth-file"@, value, rest);
    lemma_behind("--auth"@, value, rest);
    lemma_behind("--log-file"@, value, rest);
    lemma_behind("--run-as"@, value, rest);
}

/// What an option with a number for its value does: it sets that number and nothing
/// else, where it is one that fits.
pub proof fn law_options_with_numbers(o: Options, n: nat, value: Seq<char>, rest: Seq<Seq<char>>)
    ensures
        n <= u32::MAX ==> with_args(o, seq!["--max-connections"@, decimal(n)] + rest) == with_args(
            Options { max_connections: n as u32, ..o },
            rest,
        ),
        parsed(value, 10, u32::MAX as nat) is None ==> with_args(
            o,
            seq!["--max-connections"@, value] + rest,
        ) is Usage,
        n <= u64::MAX ==> with_args(o, seq!["--timeout"@, decimal(n)] + rest) == with_args(
            Options { timeout: n as u64, ..o },
            rest,
        ),
        parsed(value, 10, u64::MAX as nat) is None ==> with_args(
            o,
            seq!["--timeout"@, value] + rest,
        ) is Usage,
        n <= u32::MAX ==> with_args(o, seq!["--max-requests"@, decimal(n)] + rest) == with_args(
            Options { max_requests: n as u32, ..o },
            rest,
        ),
        parsed(value, 10, u32::MAX as nat) is None ==> with_args(
            o,
            seq!["--max-requests"@, value] + rest,
        ) is Usage,
{
    lemma_keys();
    if n <= u32::MAX {
        law_decimal_round_trip(n, u32::MAX as nat);
    }
    if n <= u64::MAX {
        law_decimal_round_trip(n, u64::MAX as nat);
    }
    lemma_behind("--max-connections"@, decimal(n), rest);
    lemma_behind("--max-connections"@, value, rest);
    lemma_behind("--timeout"@, decimal(n), rest);
    lemma_behind("--timeout"@, value, rest);
    lemma_behind("--max-requests"@, decimal(n), rest);
    lemma_behind("--max-requests"@, value, rest);
}

/// The permissions of the socket are an octal number, with `0o` before it or not.
pub proof fn law_socket_mode_is_octal(
    o: Options,
    digits: Seq<char>,
    n: nat,
    value: Seq<char>,
    rest: Seq<Seq<char>>,
)
    requires
        parsed(digits, 8, u32::MAX as nat) == Some(n),
        parsed(value, 8, u32::MAX as nat) is None,
        !starts_with(value, "0o"@),
    ensures
        with_args(o, seq!["--socket-mode"@, digits] + rest) == with_args(
            Options { socket_mode: n as u32, ..o },
            rest,
        ),
        with_args(o, seq!["--socket-mode"@, "0o"@ + digits] + rest) == with_args(
            Options { socket_mode: n as u32, ..o },
            rest,
        ),
        with_args(o, seq!["--socket-mode"@, value] + rest) is Usage,
{
    lemma_keys();
    reveal_strlit("0o");
    law_prefixes("0o"@, digits);
    lemma_no_octal(digits, n);
    lemma_behind("--socket-mode"@, digits, rest);
    lemma_behind("--socket-mode"@, "0o"@ + digits, rest);
    lemma_behind("--socket-mode"@, value, rest);
}

/// A number does not begin with `0o`.
proof fn lemma_no_octal(digits: Seq<char>, n: nat)
    requires
        parsed(digits, 8, u32::MAX as nat) == Some(n),
    ensures
        without_prefixes(digits, "0o"@) == digits,
{
    reveal_strlit("0o");
    if starts_with(digits, "0o"@) {
        assert(digits.take(2)[0] == digits[0] && digits.take(2)[1] == digits[1]);
        assert(is_digit(digits[1], 8));
    }
}

/// The other arguments: verbosity is switched on, help is shown, a value that is
/// missing is an error, and an argument that is no option is named.
pub proof fn law_other_arguments(o: Options, arg: Seq<char>, rest: Seq<Seq<char>>)
    ensures
        with_args(o, seq![]) == Outcome::Accepted(o),
        with_args(o, seq!["-v"@] + rest) == with_args(Options { verbose: true, ..o }, rest),
        with_args(o, seq!["--verbose"@] + rest) == with_args(Options { verbose: true, ..o }, rest),
        with_args(o, seq!["-h"@] + rest) is Usage,
        with_args(o, seq!["--help"@] + rest) is Usage,
        !seq![
            "--root"@,
            "--listen"@,
            "--socket-owner"@,
            "--expose"@,
            "--auth-file"@,
            "--auth"@,
            "--log-file"@,
            "--run-as"@,
            "--max-connections"@,
            "--timeout"@,
            "--max-requests"@,
            "--socket-mode"@,
            "-v"@,
            "--verbose"@,
            "-h"@,
            "--help"@,
        ].contains(arg) ==> with_args(o, seq![arg] + rest) == Outcome::Unexpected(arg),
        with_args(o, seq!["--root"@]) is Usage,
        with_args(o, seq!["--listen"@]) is Usage,
        with_args(o, seq!["--socket-owner"@]) is Usage,
        with_args(o, seq!["--expose"@]) is Usage,
        with_args(o, seq!["--auth-file"@]) is Usage,
        with_args(o, seq!["--auth"@]) is Usage,
        with_args(o, seq!["--log-file"@]) is Usage,
        with_args(o, seq!["--run-as"@]) is Usage,
        with_args(o, seq!["--max-connections"@]) is Usage,
        with_args(o, seq!["--timeout"@]) is Usage,
        with_args(o, seq!["--max-requests"@]) is Usage,
        with_args(o, seq!["--socket-mode"@]) is Usage,
{
    lemma_keys();
    lemma_behind("-v"@, arg, rest);
    lemma_behind("--verbose"@, arg, rest);
    lemma_behind("-h"@, arg, rest);
    lemma_behind("--help"@, arg, rest);
    lemma_behind(arg, arg, rest);
    let all = seq![
        "--root"@,
        "--listen"@,
        "--socket-owner"@,
        "--expose"@,
        "--auth-file"@,
        "--auth"@,
        "--log-file"@,
        "--run-as"@,
        "--max-connections"@,
        "--timeout"@,
        "--max-requests"@,
        "--socket-mode"@,
        "-v"@,
        "--verbose"@,
        "-h"@,
        "--help"@,
    ];
    assert(all[0] == "--root"@);
    assert(all[1] == "--listen"@);
    assert(all[2] == "--socket-owner"@);
    assert(all[3] == "--expose"@);
    assert(all[4] == "--auth-file"@);
    assert(all[5] == "--auth"@);
    assert(all[6] == "--log-file"@);
    assert(all[7] == "--run-as"@);
    assert(all[8] == "--max-connections"@);
    assert(all[9] == "--timeout"@);
    assert(all[10] == "--max-requests"@);
    assert(all[11] == "--socket-mode"@);
    assert(all[12] == "-v"@);
    assert(all[13] == "--verbose"@);
    assert(all[14] == "-h"@);
    assert(all[15] == "--help"@);
}

} // verus!

use vstd::prelude::*;
use crate::text::{ascii_lower, chars_of, join, joined, texts};
use vstd::string::StringExecFns;

verus! {

/// Why a port number could not be read.
#[derive(Debug, Clone, Copy, PartialEq, Eq, Structural)]
pub enum PortError {
    /// The text is empty.
    Empty,
    /// The text holds a character that is not a decimal digit (after an optional leading `+`).
    InvalidDigit,
    /// The number does not fit in 16 bits.
    TooLarge,
}

/// The value of the decimal digit `c`.
pub open spec fn digit_value(c: char) -> int {
    c as int - '0' as int
}

/// Whether `c` is a decimal digit.
pub open spec fn is_digit(c: char) -> bool {
    '0' <= c && c <= '9'
}

/// Reads the digits `d` from left to right after the value `acc`: the first character that is not
/// a digit, or the first digit that takes the value past 65535, stops the reading.
pub open spec fn port_digits(d: Seq<char>, acc: int) -> Result<int, PortError>
    decreases d.len(),
{
    if d.len() == 0 {
        Ok(acc)
    } else if !is_digit(d[0]) {
        Err(PortError::InvalidDigit)
    } else if acc * 10 + digit_value(d[0]) > 65535 {
        Err(PortError::TooLarge)
    } else {
        port_digits(d.drop_first(), acc * 10 + digit_value(d[0]))
    }
}

/// The port number that `s` writes in decimal, with an optional leading `+`.
pub open spec fn port_of(s: Seq<char>) -> Result<int, PortError> {
    if s.len() == 0 {
        Err(PortError::Empty)
    } else {
        let d = if s[0] == '+' {
            s.drop_first()
        } else {
            s
        };
        if d.len() == 0 {
            Err(PortError::InvalidDigit)
        } else {
            port_digits(d, 0)
        }
    }
}

/// Reads a port number (see [`port_of`]).
pub fn parse_port(s: &str) -> (r: Result<u16, PortError>)
    ensures
        r matches Ok(n) ==> port_of(s@) == Ok::<int, PortError>(n as int),
        r matches Err(e) ==> port_of(s@) == Err::<int, PortError>(e),
{
    let cs = chars_of(s);
    if cs.len() == 0 {
        return Err(PortError::Empty);
    }
    let first: usize = if cs[0] == '+' {
        1
    } else {
        0
    };
    if first == cs.len() {
        return Err(PortError::InvalidDigit);
    }
    let ghost d = if s@[0] == '+' {
        s@.drop_first()
    } else {
        s@
    };
    assert(d =~= cs@.skip(first as int));
    assert(port_of(s@) == port_digits(d, 0));
    let mut acc: u32 = 0;
    let mut k: usize = first;
    while k < cs.len()
        invariant
            first <= k <= cs@.len(),
            acc <= 65535,
            port_of(s@) == port_digits(d, 0),
            port_digits(d, 0) == port_digits(cs@.skip(k as int), acc as int),
        decreases cs@.len() - k,
    {
        let c = cs[k];
        assert(cs@.skip(k as int)[0] == c);
        assert(cs@.skip(k as int).drop_first() =~= cs@.skip(k + 1));
        if c < '0' || c > '9' {
            return Err(PortError::InvalidDigit);
        }
        let v = acc * 10 + ((c as u32) - ('0' as u32));
        if v > 65535 {
            return Err(PortError::TooLarge);
        }
        acc = v;
        k = k + 1;
    }
    Ok(acc as u16)
}

/// The server asked first unless another is named.
pub const DEFAULT_HOST: &'static str = "whois.iana.org";

/// The port used unless another is named.
pub const DEFAULT_PORT: u16 = 43;

/// What a lookup needs: where to ask first, and what.
#[derive(Debug)]
pub struct Settings {
    /// The server asked first, in lower case.
    pub host: String,
    /// The port of every server asked.
    pub port: u16,
    /// The words of the query, joined by single spaces.
    pub query: String,
}

/// What the arguments ask for.
#[derive(Debug)]
pub enum Command {
    /// A line on how to use the program.
    Help,
    /// A lookup.
    Lookup(Settings),
}

/// Why the arguments cannot be used.
#[derive(Debug)]
pub enum ArgumentError {
    /// The option, `-h` or `-p`, ends the arguments but needs a value after it.
    MissingValue(String),
    /// The value given to `-p` is not a port number.
    BadPort { value: String, error: PortError },
}

/// What the arguments ask for, as a value.
pub enum Parsed {
    Help,
    Lookup { host: Seq<char>, port: int, words: Seq<Seq<char>> },
    MissingValue(Seq<char>),
    BadPort(Seq<char>, PortError),
}

/// Reads `args` from the `i`-th on, after `host`, `port` and the query words `words` were read
/// from those before: `--help` asks for help at once; `-h` and `-p` take the next argument as the
/// host (in lower case) and the port; any other argument is a word of the query.
pub open spec fn parse_from(
    args: Seq<Seq<char>>,
    i: nat,
    host: Seq<char>,
    port: int,
    words: Seq<Seq<char>>,
) -> Parsed
    decreases args.len() - i,
{
    if i >= args.len() {
        Parsed::Lookup { host, port, words }
    } else if args[i as int] == "--help"@ {
        Parsed::Help
    } else if args[i as int] == "-h"@ {
        if i + 1 >= args.len() {
            Parsed::MissingValue("-h"@)
        } else {
            parse_from(args, i + 2, ascii_lower(args[i + 1 as int]), port, words)
        }
    } else if args[i as int] == "-p"@ {
        if i + 1 >= args.len() {
            Parsed::MissingValue("-p"@)
        } else {
            match port_of(args[i + 1 as int]) {
                Ok(n) => parse_from(args, i + 2, host, n, words),
                Err(e) => Parsed::BadPort(args[i + 1 as int], e),
            }
        }
    } else {
        parse_from(args, i + 1, host, port, words.push(args[i as int]))
    }
}

/// What the arguments `args` ask for.
pub open spec fn parse_arguments(args: Seq<Seq<char>>) -> Parsed {
    parse_from(args, 0, DEFAULT_HOST@, DEFAULT_PORT as int, seq![])
}

/// The line sent to a server for `query`: the query followed by a carriage return and a line feed.
pub fn request_line(query: &str) -> (r: String)
    ensures
        r@ == query@ + "\r\n"@,
{
    String::from_str(query).concat("\r\n")
}

/// Reads the arguments of the program (see [`parse_from`]).
pub fn parse_args(args: &Vec<String>) -> (r: Result<Command, ArgumentError>)
    ensures
        match parse_arguments(texts(args@)) {
            Parsed::Help => r matches Ok(Command::Help),
            Parsed::Lookup { host, port, words } => r matches Ok(Command::Lookup(s)) && s.host@
                == host && s.port as int == port && s.query@ == joined(words, " "@),
            Parsed::MissingValue(option) => r matches Err(ArgumentError::MissingValue(o)) && o@
                == option,
            Parsed::BadPort(value, error) => r matches Err(ArgumentError::BadPort { value: v, error: e })
                && v@ == value && e == error,
        },
{
    let ghost a = texts(args@);
    let help = String::from_str("--help");
    let host_option = String::from_str("-h");
    let port_option = String::from_str("-p");
    let mut host = String::from_str(DEFAULT_HOST);
    let mut port: u16 = DEFAULT_PORT;
    let mut words: Vec<String> = Vec::new();
    let mut i: usize = 0;
    assert(texts(words@) =~= seq![]);
    while i < args.len()
        invariant
            i <= args@.len(),
            a == texts(args@),
            help@ == "--help"@,
            host_option@ == "-h"@,
            port_option@ == "-p"@,
            parse_arguments(a) == parse_from(a, i as nat, host@, port as int, texts(words@)),
        decreases args@.len() - i,
    {
        assert(a[i as int] == args@[i as int]@);
        if args[i] == help {
            return Ok(Command::Help);
        } else if args[i] == host_option {
            if i + 1 >= args.len() {
                return Err(ArgumentError::MissingValue(host_option));
            }
            assert(a[i + 1] == args@[i + 1]@);
            host = args[i + 1].as_str().to_ascii_lowercase();
            i = i + 2;
        } else if args[i] == port_option {
            if i + 1 >= args.len() {
                return Err(ArgumentError::MissingValue(port_option));
            }
            assert(a[i + 1] == args@[i + 1]@);
            match parse_port(args[i + 1].as_str()) {
                Ok(n) => port = n,
                Err(e) => {
                    return Err(ArgumentError::BadPort { value: args[i + 1].clone(), error: e });
                },
            }
            i = i + 2;
        } else {
            let ghost before = texts(words@);
            words.push(args[i].clone());
            assert(texts(words@) =~= before.push(a[i as int]));
            i = i + 1;
        }
    }
    let query = join(&words, " ");
    Ok(Command::Lookup(Settings { host, port, query }))
}

} // verus!

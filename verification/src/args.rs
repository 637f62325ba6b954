//! The command line: where Home Assistant is and the token to use.

use vstd::prelude::*;
use crate::text::{str_eq, concat};

verus! {

/// The URL of the Home Assistant instance and its long-lived access token.
pub struct Args {
    pub ha_url: String,
    pub ha_token: String,
}

/// What is wrong with the command line.
pub enum ArgsError {
    /// `--ha-url` ends the command line.
    MissingUrlValue,
    /// `--ha-token` ends the command line.
    MissingTokenValue,
    /// An argument that is no option.
    UnknownArgument(String),
    /// Neither `--ha-url` nor `HA_URL` gives the URL.
    MissingUrl,
    /// Neither `--ha-token` nor `HA_TOKEN` gives the token.
    MissingToken,
}

/// The outcome of reading the options.
pub enum Scan {
    /// The URL and the token that the options gave, if any.
    Done(Option<Seq<char>>, Option<Seq<char>>),
    MissingUrlValue,
    MissingTokenValue,
    Unknown(Seq<char>),
}

/// Reads the options from position `i` on, with the URL and token read so
/// far: `--ha-url` and `--ha-token` each take the next argument (a later one
/// replaces an earlier one); anything else is refused.
pub open spec fn scan(args: Seq<Seq<char>>, i: int, url: Option<Seq<char>>, token: Option<Seq<char>>) -> Scan
    decreases args.len() - i,
{
    if i < 0 || i >= args.len() {
        Scan::Done(url, token)
    } else if args[i] == "--ha-url"@ {
        if i + 1 < args.len() {
            scan(args, i + 2, Some(args[i + 1]), token)
        } else {
            Scan::MissingUrlValue
        }
    } else if args[i] == "--ha-token"@ {
        if i + 1 < args.len() {
            scan(args, i + 2, url, Some(args[i + 1]))
        } else {
            Scan::MissingTokenValue
        }
    } else {
        Scan::Unknown(args[i])
    }
}

pub open spec fn or_else(a: Option<Seq<char>>, b: Option<String>) -> Option<Seq<char>> {
    match a {
        Some(x) => Some(x),
        None => match b {
            Some(y) => Some(y@),
            None => None,
        },
    }
}

/// The arguments of a command line, the program's name left out.
pub open spec fn options_of(argv: Seq<String>) -> Seq<Seq<char>> {
    if argv.len() == 0 {
        Seq::empty()
    } else {
        argv.map_values(|s: String| s@).skip(1)
    }
}

/// What parsing gives for a command line and the `HA_URL` and `HA_TOKEN`
/// variables: the options first, then the variables where an option is
/// missing; the URL is checked before the token.
pub open spec fn parse_ok(argv: Seq<String>, env_url: Option<String>, env_token: Option<String>, r: Result<Args, ArgsError>) -> bool {
    match scan(options_of(argv), 0, None, None) {
        Scan::Done(u, t) => {
            let url = or_else(u, env_url);
            let token = or_else(t, env_token);
            if url is None {
                r matches Err(ArgsError::MissingUrl)
            } else if token is None {
                r matches Err(ArgsError::MissingToken)
            } else {
                r matches Ok(a) && a.ha_url@ == url->0 && a.ha_token@ == token->0
            }
        },
        Scan::MissingUrlValue => r matches Err(ArgsError::MissingUrlValue),
        Scan::MissingTokenValue => r matches Err(ArgsError::MissingTokenValue),
        Scan::Unknown(a) => r matches Err(ArgsError::UnknownArgument(x)) && x@ == a,
    }
}

pub open spec fn opt_view(o: Option<String>) -> Option<Seq<char>> {
    match o {
        Some(s) => Some(s@),
        None => None,
    }
}

fn or_env(a: Option<String>, b: Option<String>) -> (r: Option<String>)
    ensures
        opt_view(r) == or_else(opt_view(a), b),
{
    match a {
        Some(x) => Some(x),
        None => b,
    }
}

impl Args {
    /// Reads the command line `argv` (the program's name first) and, where
    /// an option is missing, the `HA_URL` and `HA_TOKEN` variables.
    pub fn parse(argv: &Vec<String>, env_url: Option<String>, env_token: Option<String>) -> (r: Result<Args, ArgsError>)
        ensures
            parse_ok(argv@, env_url, env_token, r),
    {
        let ghost opts = options_of(argv@);
        let mut url: Option<String> = None;
        let mut token: Option<String> = None;
        let mut i: usize = 1;
        if argv.len() == 0 {
            assert(opts.len() == 0);
        }
        while i < argv.len()
            invariant
                opts == options_of(argv@),
                1 <= i <= argv@.len() + 1,
                argv@.len() > 0 ==> i <= argv@.len(),
                scan(opts, 0, None, None) == scan(opts, i - 1, opt_view(url), opt_view(token)),
            decreases argv@.len() - i,
        {
            let arg = &argv[i];
            assert(opts[i - 1] == arg@);
            if str_eq(arg.as_str(), "--ha-url") {
                if i + 1 < argv.len() {
                    assert(opts[i as int] == argv@[i + 1]@);
                    url = Some(argv[i + 1].clone());
                    i += 2;
                } else {
                    return Err(ArgsError::MissingUrlValue);
                }
            } else if str_eq(arg.as_str(), "--ha-token") {
                if i + 1 < argv.len() {
                    assert(opts[i as int] == argv@[i + 1]@);
                    token = Some(argv[i + 1].clone());
                    i += 2;
                } else {
                    return Err(ArgsError::MissingTokenValue);
                }
            } else {
                return Err(ArgsError::UnknownArgument(arg.clone()));
            }
        }
        let url = or_env(url, env_url);
        let token = or_env(token, env_token);
        match url {
            None => Err(ArgsError::MissingUrl),
            Some(ha_url) => match token {
                None => Err(ArgsError::MissingToken),
                Some(ha_token) => Ok(Args { ha_url, ha_token }),
            },
        }
    }
}

impl ArgsError {
    /// The text of the error.
    pub fn message(&self) -> (m: String)
        ensures
            m@ == match self {
                ArgsError::MissingUrlValue => "Missing value for --ha-url"@,
                ArgsError::MissingTokenValue => "Missing value for --ha-token"@,
                ArgsError::UnknownArgument(a) => "Unknown argument: "@ + a@,
                ArgsError::MissingUrl => "Missing --ha-url or HA_URL environment variable"@,
                ArgsError::MissingToken => "Missing --ha-token or HA_TOKEN environment variable"@,
            },
    {
        match self {
            ArgsError::MissingUrlValue => String::from_str("Missing value for --ha-url"),
            ArgsError::MissingTokenValue => String::from_str("Missing value for --ha-token"),
            ArgsError::UnknownArgument(a) => concat("Unknown argument: ", a.as_str()),
            ArgsError::MissingUrl => String::from_str("Missing --ha-url or HA_URL environment variable"),
            ArgsError::MissingToken => String::from_str(
                "Missing --ha-token or HA_TOKEN environment variable",
            ),
        }
    }
}

/// The last `--ha-url` wins: after options that read well, `--ha-url x`
/// makes the URL `x` and keeps the token.
pub proof fn lemma_last_url_wins(a: Seq<Seq<char>>, x: Seq<char>)
    requires
        a.len() % 2 == 0,
        scan(a, 0, None, None) is Done,
    ensures
        scan(a + seq!["--ha-url"@, x], 0, None, None) == Scan::Done(
            Some(x),
            scan(a, 0, None, None)->Done_1,
        ),
{
    let b = seq!["--ha-url"@, x];
    let t = scan(a, 0, None, None)->Done_1;
    lemma_scan_pairs(a, b, 0, None, None);
    assert(scan(b, 2, Some(x), t) == Scan::Done(Some(x), t));
    assert(b[0] == "--ha-url"@);
    assert(scan(b, 0, scan(a, 0, None, None)->Done_0, t) == scan(b, 2, Some(x), t));
}

/// A reading that goes through the options two by two continues into what
/// follows them.
pub proof fn lemma_scan_pairs(a: Seq<Seq<char>>, b: Seq<Seq<char>>, i: int, url: Option<Seq<char>>, token: Option<Seq<char>>)
    requires
        0 <= i <= a.len(),
        (a.len() - i) % 2 == 0,
        scan(a, i, url, token) is Done,
    ensures
        scan(a + b, i, url, token) == scan(
            b,
            0,
            scan(a, i, url, token)->Done_0,
            scan(a, i, url, token)->Done_1,
        ),
    decreases a.len() - i,
{
    let ab = a + b;
    if i < a.len() {
        assert(ab[i] == a[i]);
        assert(ab[i + 1] == a[i + 1]);
        if a[i] == "--ha-url"@ {
            lemma_scan_pairs(a, b, i + 2, Some(a[i + 1]), token);
        } else {
            lemma_scan_pairs(a, b, i + 2, url, Some(a[i + 1]));
        }
    } else {
        lemma_scan_shift(a, b, 0, url, token);
    }
}

/// Reading `a + b` from the end of `a` is reading `b`.
proof fn lemma_scan_shift(a: Seq<Seq<char>>, b: Seq<Seq<char>>, k: int, url: Option<Seq<char>>, token: Option<Seq<char>>)
    requires
        0 <= k <= b.len(),
    ensures
        scan(a + b, a.len() + k, url, token) == scan(b, k, url, token),
    decreases b.len() - k,
{
    let ab = a + b;
    if k < b.len() {
        assert(ab[a.len() + k] == b[k]);
        if k + 1 < b.len() {
            assert(ab[a.len() + k + 1] == b[k + 1]);
            lemma_scan_shift(a, b, k + 2, Some(b[k + 1]), token);
            lemma_scan_shift(a, b, k + 2, url, Some(b[k + 1]));
        }
    }
}

/// The command line takes precedence over the environment: an option that
/// the command line gives is used whatever the variables hold.
pub proof fn lemma_command_line_first(argv: Seq<String>, env_url: Option<String>, env_token: Option<String>, r: Result<Args, ArgsError>)
    requires
        parse_ok(argv, env_url, env_token, r),
        scan(options_of(argv), 0, None, None) matches Scan::Done(u, t) && u is Some && t is Some,
    ensures
        r matches Ok(a) && a.ha_url@ == scan(options_of(argv), 0, None, None)->Done_0->0
            && a.ha_token@ == scan(options_of(argv), 0, None, None)->Done_1->0,
{
}

} // verus!

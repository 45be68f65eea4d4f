//! Startup configuration: the reminder interval and the banner text, with
//! the command-line parsing that overrides their defaults. A bad or
//! incomplete argument is a fatal startup error; unrecognized arguments are
//! silently ignored.

use vstd::prelude::*;
use vstd::string::StrSliceExecFns;
use vstd::string::StringExecFns;
use crate::codec::str_eq;

verus! {

/// The reminder period used when `--interval-secs` is not given.
pub const DEFAULT_INTERVAL_SECS: u64 = 2225;

/// The banner text used when `--prompt` is not given.
pub open spec fn default_prompt() -> Seq<char> {
    "Write a journal entry, then hit Tab, Enter to submit it."@
}

/// The immutable startup configuration: the tick period in seconds and the
/// banner text shown above the entry area. Read once at launch.
#[derive(Debug)]
pub struct Config {
    pub interval_secs: u64,
    pub prompt: String,
}

/// A configuration as the specification sees it.
pub struct ConfigModel {
    pub interval_secs: u64,
    pub prompt: Seq<char>,
}

impl View for Config {
    type V = ConfigModel;

    open spec fn view(&self) -> ConfigModel {
        ConfigModel { interval_secs: self.interval_secs, prompt: self.prompt@ }
    }
}

/// The configuration before any argument is read.
pub open spec fn default_config_model() -> ConfigModel {
    ConfigModel { interval_secs: DEFAULT_INTERVAL_SECS, prompt: default_prompt() }
}

impl Default for Config {
    /// The built-in configuration.
    fn default() -> (c: Config)
        ensures
            c@ == default_config_model(),
    {
        Config {
            interval_secs: DEFAULT_INTERVAL_SECS,
            prompt: String::from_str("Write a journal entry, then hit Tab, Enter to submit it."),
        }
    }
}

/// A startup-configuration error: why the command line was rejected. Each
/// one is fatal; the process reports it and exits before any window shows.
#[derive(Clone, Copy, PartialEq, Eq, Structural, Debug)]
pub enum ConfigError {
    /// `--interval-secs` stood last, with no value after it.
    IntervalNeedsValue,
    /// The value after `--interval-secs` does not read as a `u64`.
    IntervalNotANumber,
    /// `--prompt` stood last, with no value after it.
    PromptNeedsValue,
}

impl ConfigError {
    /// A short description of the error for the startup report.
    pub fn describe(&self) -> (r: String)
        ensures
            *self is IntervalNeedsValue ==> r@ == "Parameter --interval-secs needs an argument"@,
            *self is IntervalNotANumber ==> r@ == "Cannot parse argument: --interval-secs <u64>"@,
            *self is PromptNeedsValue ==> r@ == "Parameter --prompt needs an argument"@,
    {
        match self {
            ConfigError::IntervalNeedsValue => String::from_str(
                "Parameter --interval-secs needs an argument",
            ),
            ConfigError::IntervalNotANumber => String::from_str(
                "Cannot parse argument: --interval-secs <u64>",
            ),
            ConfigError::PromptNeedsValue => String::from_str(
                "Parameter --prompt needs an argument",
            ),
        }
    }
}

/// Whether a character is a decimal digit.
pub open spec fn is_digit(c: char) -> bool {
    '0' as int <= c as int && c as int <= '9' as int
}

/// The value of a decimal digit character.
pub open spec fn digit_val(c: char) -> int {
    c as int - '0' as int
}

/// Whether every character of a text is a decimal digit.
pub open spec fn all_digits(s: Seq<char>) -> bool {
    forall|i: int| 0 <= i < s.len() ==> is_digit(s[i])
}

/// The number a text of decimal digits denotes, most significant first.
pub open spec fn digits_val(s: Seq<char>) -> int
    decreases s.len(),
{
    if s.len() == 0 {
        0
    } else {
        digits_val(s.drop_last()) * 10 + digit_val(s.last())
    }
}

/// What `--interval-secs` accepts, exactly as `u64` reads a decimal string:
/// an optional leading `+`, then one or more digits, denoting a value that
/// fits in a `u64`.
pub open spec fn spec_parse_u64(s: Seq<char>) -> Option<u64> {
    let body = if s.len() >= 1 && s[0] == '+' {
        s.drop_first()
    } else {
        s
    };
    if body.len() == 0 || !all_digits(body) {
        None
    } else if digits_val(body) > u64::MAX {
        None
    } else {
        Some(digits_val(body) as u64)
    }
}

/// A digit sequence denotes a non-negative number.
proof fn lemma_digits_val_nonneg(s: Seq<char>)
    requires
        all_digits(s),
    ensures
        digits_val(s) >= 0,
    decreases s.len(),
{
    if s.len() == 0 {
    } else {
        assert(all_digits(s.drop_last()));
        lemma_digits_val_nonneg(s.drop_last());
    }
}

/// Reading one more digit multiplies by ten and adds the digit.
proof fn lemma_digits_val_take_succ(s: Seq<char>, k: int)
    requires
        0 <= k < s.len(),
    ensures
        digits_val(s.take(k + 1)) == digits_val(s.take(k)) * 10 + digit_val(s[k]),
{
    assert(s.take(k + 1).drop_last() =~= s.take(k));
    assert(s.take(k + 1).last() == s[k]);
}

/// A prefix of a digit sequence denotes no more than the whole.
proof fn lemma_digits_val_prefix_le(s: Seq<char>, k: int)
    requires
        all_digits(s),
        0 <= k <= s.len(),
    ensures
        digits_val(s.take(k)) <= digits_val(s),
    decreases s.len() - k,
{
    if k == s.len() {
        assert(s.take(k) =~= s);
    } else {
        lemma_digits_val_take_succ(s, k);
        assert(all_digits(s.take(k)));
        lemma_digits_val_nonneg(s.take(k));
        lemma_digits_val_prefix_le(s, k + 1);
    }
}

/// Reads a `u64` from a decimal string, as `--interval-secs` requires:
/// `None` exactly where the text is not an optionally `+`-signed run of
/// digits, or denotes a value above `u64::MAX`.
pub fn parse_u64(s: &str) -> (r: Option<u64>)
    ensures
        r == spec_parse_u64(s@),
{
    let n = s.unicode_len();
    let start: usize = if n >= 1 && s.get_char(0) == '+' {
        1
    } else {
        0
    };
    let ghost body = if s@.len() >= 1 && s@[0] == '+' {
        s@.drop_first()
    } else {
        s@
    };
    proof {
        assert(body =~= s@.skip(start as int));
    }
    if start == n {
        return None;
    }
    let mut acc: u64 = 0;
    let mut i: usize = start;
    while i < n
        invariant
            n == s@.len(),
            start <= i <= n,
            start < n,
            body == s@.skip(start as int),
            body == (if s@.len() >= 1 && s@[0] == '+' {
                s@.drop_first()
            } else {
                s@
            }),
            all_digits(body.take(i - start)),
            acc == digits_val(body.take(i - start)),
        decreases n - i,
    {
        let c = s.get_char(i);
        let u = c as u32;
        proof {
            assert(body[i - start] == s@[i as int]);
        }
        if u < 0x30 || u > 0x39 {
            proof {
                assert(!is_digit(body[i - start]));
                assert(!all_digits(body));
            }
            return None;
        }
        let d: u64 = (u - 0x30) as u64;
        proof {
            assert(is_digit(body[i - start]));
            assert(d == digit_val(body[i - start]));
            lemma_digits_val_take_succ(body, i - start);
        }
        let next = match acc.checked_mul(10) {
            Some(x) => x.checked_add(d),
            None => None,
        };
        match next {
            Some(x) => {
                acc = x;
            },
            None => {
                proof {
                    assert(digits_val(body.take(i - start + 1)) > u64::MAX);
                    if all_digits(body) {
                        lemma_digits_val_prefix_le(body, i - start + 1);
                    }
                }
                return None;
            },
        }
        i = i + 1;
    }
    proof {
        assert(body.take(n - start) =~= body);
        assert(digits_val(body) <= u64::MAX);
    }
    Some(acc)
}

/// What the rest of the command line makes of a configuration so far: the
/// two known flags each consume the following argument as their value, later
/// occurrences win, anything else is ignored.
pub open spec fn parse_args_from(cur: ConfigModel, args: Seq<Seq<char>>) -> Result<
    ConfigModel,
    ConfigError,
>
    decreases args.len(),
{
    if args.len() == 0 {
        Ok(cur)
    } else if args[0] == "--interval-secs"@ {
        if args.len() == 1 {
            Err(ConfigError::IntervalNeedsValue)
        } else {
            match spec_parse_u64(args[1]) {
                Some(v) => parse_args_from(
                    ConfigModel { interval_secs: v, prompt: cur.prompt },
                    args.skip(2),
                ),
                None => Err(ConfigError::IntervalNotANumber),
            }
        }
    } else if args[0] == "--prompt"@ {
        if args.len() == 1 {
            Err(ConfigError::PromptNeedsValue)
        } else {
            parse_args_from(
                ConfigModel { interval_secs: cur.interval_secs, prompt: args[1] },
                args.skip(2),
            )
        }
    } else {
        parse_args_from(cur, args.drop_first())
    }
}

/// The configuration a whole command line denotes, starting from the
/// defaults, or the first error in it.
pub open spec fn spec_parse_args(args: Seq<Seq<char>>) -> Result<ConfigModel, ConfigError> {
    parse_args_from(default_config_model(), args)
}

/// Reads the command line. `--interval-secs <u64>` and `--prompt <string>`
/// override the defaults; each takes the following argument as its value;
/// unrecognized arguments are silently ignored. The whole list is scanned,
/// program name included, as the launcher hands it over.
pub fn parse_args(args: &Vec<String>) -> (r: Result<Config, ConfigError>)
    ensures
        match (r, spec_parse_args(args.deep_view())) {
            (Ok(c), Ok(m)) => c@ == m,
            (Err(e1), Err(e2)) => e1 == e2,
            _ => false,
        },
{
    let ghost all = args.deep_view();
    let mut cfg = Config::default();
    let mut i: usize = 0;
    proof {
        assert(all.skip(0) =~= all);
    }
    while i < args.len()
        invariant
            i <= args.len(),
            all == args.deep_view(),
            all.len() == args.len(),
            parse_args_from(cfg@, all.skip(i as int)) == spec_parse_args(all),
        decreases args.len() - i,
    {
        proof {
            assert(all.skip(i as int)[0] == all[i as int]);
            assert(all[i as int] == args@[i as int]@);
        }
        let a = &args[i];
        if str_eq(a.as_str(), "--interval-secs") {
            if i + 1 == args.len() {
                return Err(ConfigError::IntervalNeedsValue);
            }
            proof {
                assert(all.skip(i as int)[1] == all[i as int + 1]);
                assert(all[i as int + 1] == args@[i as int + 1]@);
                assert(all.skip(i as int).skip(2) =~= all.skip(i as int + 2));
            }
            match parse_u64(args[i + 1].as_str()) {
                None => {
                    return Err(ConfigError::IntervalNotANumber);
                },
                Some(v) => {
                    cfg.interval_secs = v;
                    i = i + 2;
                },
            }
        } else if str_eq(a.as_str(), "--prompt") {
            if i + 1 == args.len() {
                return Err(ConfigError::PromptNeedsValue);
            }
            proof {
                assert(all.skip(i as int)[1] == all[i as int + 1]);
                assert(all[i as int + 1] == args@[i as int + 1]@);
                assert(all.skip(i as int).skip(2) =~= all.skip(i as int + 2));
            }
            cfg.prompt = args[i + 1].clone();
            i = i + 2;
        } else {
            proof {
                assert(all.skip(i as int).drop_first() =~= all.skip(i as int + 1));
            }
            i = i + 1;
        }
    }
    proof {
        assert(all.skip(i as int).len() == 0);
        assert(all.skip(i as int) =~= Seq::<Seq<char>>::empty());
    }
    Ok(cfg)
}

} // verus!

//! Process-level configuration, and the names this process is known by.

use crate::decimal::is_digit;
use crate::text::{chars_of, same_text, trim, trimmed};
use vstd::prelude::*;
use vstd::string::*;

verus! {

/// This app's id.
pub const PLUGIN_ID: &'static str = "@ryu/tuition";

/// Raised when reviews fall due.
pub const EVENT_REVIEW_DUE: &'static str = "@ryu/tuition#review.due";

/// Raised when a skill falls back below the ready threshold it had passed.
pub const EVENT_MASTERY_DROPPED: &'static str = "@ryu/tuition#mastery.dropped";

/// Raised when the exam comes too soon at the observed pace.
pub const EVENT_GOAL_AT_RISK: &'static str = "@ryu/tuition#goal.at-risk";

/// The ceiling on one outbound call, end to end.
pub const OUTBOUND_CALL_TIMEOUT_MS: u64 = 120_000;

/// The ceiling on connecting, well under that of the whole call.
pub const CONNECT_TIMEOUT_MS: u64 = 10_000;

/// The port this process listens on where none is given.
pub const DEFAULT_PORT: u16 = 8007;

/// Everything this process serves lives under here, but for the health probe.
pub const MOUNT: &'static str = "/api/tuition";

/// Whether there is nothing but digits.
pub open spec fn all_digits(s: Seq<char>) -> bool {
    forall|i: int| 0 <= i < s.len() ==> is_digit(#[trigger] s[i])
}

/// The number that a text of digits spells; a plus sign may lead it.
pub open spec fn unsigned_of(s: Seq<char>) -> Option<nat> {
    let digits = if s.len() > 0 && s[0] == '+' {
        s.skip(1)
    } else {
        s
    };
    if digits.len() > 0 && all_digits(digits) {
        Some(digits_value(digits))
    } else {
        None
    }
}

/// The number that digits spell.
pub open spec fn digits_value(s: Seq<char>) -> nat
    decreases s.len(),
{
    if s.len() == 0 {
        0
    } else {
        digits_value(s.drop_last()) * 10 + (s.last() as int - '0' as int) as nat
    }
}

proof fn digits_value_grows(s: Seq<char>, upto: int)
    requires
        0 <= upto <= s.len(),
        all_digits(s),
    ensures
        digits_value(s.take(upto)) <= digits_value(s),
    decreases s.len(),
{
    if upto < s.len() {
        let init = s.drop_last();
        assert(all_digits(init)) by {
            assert forall|i: int| 0 <= i < init.len() implies is_digit(#[trigger] init[i]) by {
                assert(s[i] == init[i]);
            }
        }
        digits_value_grows(init, upto);
        assert(init.take(upto) =~= s.take(upto));
    } else {
        assert(s.take(upto) =~= s);
    }
}

/// Reads an unsigned number, if the text spells one that fits.
pub fn parse_unsigned(text: &str) -> (number: Option<u64>)
    ensures
        number == (match unsigned_of(text@) {
            Some(n) => if n <= u64::MAX {
                Some(n as u64)
            } else {
                None
            },
            None => None,
        }),
{
    let chars: Vec<char> = chars_of(text);
    let mut start: usize = 0;
    if chars.len() > 0 && chars[0] == '+' {
        start = 1;
    }
    let ghost digits = if text@.len() > 0 && text@[0] == '+' {
        text@.skip(1)
    } else {
        text@
    };
    assert(digits =~= text@.skip(start as int));
    if chars.len() == start {
        return None;
    }
    let mut value: u64 = 0;
    let mut i: usize = start;
    assert(digits.take(0) =~= seq![]);
    while i < chars.len()
        invariant
            chars@ == text@,
            start <= i <= chars@.len(),
            start < chars@.len(),
            digits == text@.skip(start as int),
            digits == (if text@.len() > 0 && text@[0] == '+' {
                text@.skip(1)
            } else {
                text@
            }),
            forall|k: int| 0 <= k < i - start ==> is_digit(#[trigger] digits[k]),
            value == digits_value(digits.take(i - start)),
        decreases chars@.len() - i,
    {
        let c: char = chars[i];
        assert(digits[i - start] == c);
        if c < '0' || c > '9' {
            assert(unsigned_of(text@) is None) by {
                assert(!is_digit(digits[i - start]));
            }
            return None;
        }
        let digit: u64 = (c as u32 - 48) as u64;
        proof {
            assert(digits.take(i - start + 1).drop_last() =~= digits.take(i - start));
            assert(digits.take(i - start + 1).last() == c);
        }
        if value > (u64::MAX - digit) / 10 {
            proof {
                assert(value * 10 + digit > u64::MAX);
                assert(digits_value(digits.take(i - start + 1)) == value * 10 + digit);
                if all_digits(digits) {
                    digits_value_grows(digits, i - start + 1);
                    assert(digits_value(digits) > u64::MAX);
                }
            }
            return None;
        }
        value = value * 10 + digit;
        i += 1;
    }
    assert(digits.take(i - start) =~= digits);
    Some(value)
}

/// A setting without the white space around it, if anything is left.
pub open spec fn setting(raw: Option<Seq<char>>) -> Option<Seq<char>> {
    match raw {
        Some(text) => if trimmed(text).len() > 0 {
            Some(trimmed(text))
        } else {
            None
        },
        None => None,
    }
}

/// The view of an optional text.
pub open spec fn maybe_text(raw: Option<&str>) -> Option<Seq<char>> {
    match raw {
        Some(text) => Some(text@),
        None => None,
    }
}

/// The view of an optional owned text.
pub open spec fn maybe_string(raw: Option<String>) -> Option<Seq<char>> {
    match raw {
        Some(text) => Some(text@),
        None => None,
    }
}

/// A setting without the white space around it; one that is blank counts as unset.
pub fn non_empty(raw: Option<&str>) -> (value: Option<String>)
    ensures
        maybe_string(value) == setting(maybe_text(raw)),
        raw is None ==> value is None,
        raw matches Some(text) ==> (value is Some <==> trimmed(text@).len() > 0),
        raw matches Some(text) ==> (value matches Some(kept) ==> kept@ == trimmed(text@)),
{
    match raw {
        Some(text) => {
            let kept: String = trim(text);
            if kept.as_str().is_empty() {
                None
            } else {
                Some(kept)
            }
        },
        None => None,
    }
}

/// Whether a token is configured at all.
pub fn token_configured(raw: Option<&str>) -> (configured: bool)
    ensures
        configured == (setting(maybe_text(raw)) is Some),
{
    non_empty(raw).is_some()
}

/// Whether a word switches the scheduler off.
pub open spec fn switches_off(word: Seq<char>) -> bool {
    word == "0"@ || word == "false"@ || word == "off"@
}

/// The number a setting spells, if it is positive and fits.
pub open spec fn positive_or(raw: Option<Seq<char>>, fallback: u64) -> u64 {
    match raw {
        Some(text) => match unsigned_of(trimmed(text)) {
            Some(n) => if 0 < n <= u64::MAX {
                n as u64
            } else {
                fallback
            },
            None => fallback,
        },
        None => fallback,
    }
}

/// The number a setting spells, if it is positive and fits.
pub fn positive_setting(raw: Option<&str>, fallback: u64) -> (number: u64)
    ensures
        number == positive_or(maybe_text(raw), fallback),
{
    match raw {
        Some(text) => match parse_unsigned(trim(text).as_str()) {
            Some(n) => if n > 0 {
                n
            } else {
                fallback
            },
            None => fallback,
        },
        None => fallback,
    }
}

/// The port a setting spells, if it spells one.
pub fn port_setting(raw: Option<&str>) -> (port: u16)
    ensures
        port == (match raw {
            Some(text) => match unsigned_of(trimmed(text@)) {
                Some(n) => if n <= u16::MAX {
                    n as u16
                } else {
                    DEFAULT_PORT
                },
                None => DEFAULT_PORT,
            },
            None => DEFAULT_PORT,
        }),
{
    match raw {
        Some(text) => match parse_unsigned(trim(text).as_str()) {
            Some(n) => if n <= 65535 {
                n as u16
            } else {
                DEFAULT_PORT
            },
            None => DEFAULT_PORT,
        },
        None => DEFAULT_PORT,
    }
}

/// Process-level configuration, resolved once at boot.
#[derive(Clone, Debug)]
pub struct Config {
    /// The loopback port this process listens on.
    pub port: u16,
    /// The shared secret every request must carry. Without one nothing is served.
    pub token: Option<String>,
    /// Whether the tick loop runs at all.
    pub scheduler_enabled: bool,
    /// Seconds between ticks.
    pub tick_secs: u64,
    /// How many queued deliveries one drain may claim.
    pub drain_batch: u64,
}

impl Config {
    /// The configuration that a set of settings asks for, each of them possibly unset.
    /// A number that is not positive, or no number, counts as unset.
    pub fn from_settings(
        port: u16,
        token: Option<&str>,
        scheduler: Option<&str>,
        tick_secs: Option<&str>,
        drain_batch: Option<&str>,
    ) -> (config: Config)
        ensures
            config.port == port,
            maybe_string(config.token) == setting(maybe_text(token)),
            config.scheduler_enabled == !(scheduler matches Some(word) && switches_off(
                trimmed(word@),
            )),
            config.tick_secs == positive_or(maybe_text(tick_secs), 300),
            config.drain_batch == positive_or(maybe_text(drain_batch), 50),
            config.tick_secs > 0,
            config.drain_batch > 0,
            config.scheduler_enabled <==> !(scheduler is Some && (trimmed(scheduler->0@) == "0"@
                || trimmed(scheduler->0@) == "false"@ || trimmed(scheduler->0@) == "off"@)),
            token is None || trimmed(token->0@).len() == 0 ==> config.token is None,
            token is Some && trimmed(token->0@).len() > 0 ==> (config.token matches Some(kept)
                && kept@ == trimmed(token->0@)),
    {
        let scheduler_enabled: bool = match scheduler {
            Some(raw) => {
                let word: String = trim(raw);
                !(same_text(word.as_str(), "0") || same_text(word.as_str(), "false") || same_text(
                    word.as_str(),
                    "off",
                ))
            },
            None => true,
        };
        Config {
            port,
            token: non_empty(token),
            scheduler_enabled,
            tick_secs: positive_setting(tick_secs, 300),
            drain_batch: positive_setting(drain_batch, 50),
        }
    }

    /// Seconds between ticks, but never so few that the tick runs on itself.
    pub fn tick_period_secs(&self) -> (secs: u64)
        ensures
            secs == (if self.tick_secs >= 30 {
                self.tick_secs
            } else {
                30
            }),
    {
        if self.tick_secs >= 30 {
            self.tick_secs
        } else {
            30
        }
    }
}

/// A setting is what is left of it without the white space around it, and nothing where
/// nothing is left.
pub proof fn a_blank_setting_is_none(raw: Seq<char>)
    ensures
        setting(None) is None,
        setting(Some(raw)) is Some <==> trimmed(raw).len() > 0,
        setting(Some(raw)) matches Some(kept) ==> kept == trimmed(raw),
{
}

/// An unsigned number is read place by place: one more digit makes it ten times the number and
/// that digit. A plus sign may stand before it, and anything else is no number.
pub proof fn an_unsigned_number_is_read_place_by_place(s: Seq<char>, c: char)
    ensures
        unsigned_of(s) is Some && '0' <= c && c <= '9' ==> unsigned_of(s.push(c)) == Some(
            (10 * unsigned_of(s)->0 + (c as int - 48)) as nat,
        ),
        !('0' <= c && c <= '9') ==> unsigned_of(s.push(c)) is None,
        '0' <= c && c <= '9' ==> unsigned_of(seq![c]) == Some((c as int - 48) as nat) && unsigned_of(
            seq!['+', c],
        ) == Some((c as int - 48) as nat),
        unsigned_of(seq![]) is None,
{
    let longer = s.push(c);
    let one = seq![c];
    let two = seq!['+', c];
    assert(one.drop_last() =~= seq![]);
    assert(two.skip(1) =~= one);
    reveal_with_fuel(digits_value, 2);
    let digits = if s.len() > 0 && s[0] == '+' {
        s.skip(1)
    } else {
        s
    };
    if unsigned_of(s) is Some && '0' <= c && c <= '9' {
        assert(longer[0] == s[0]);
        assert(if s[0] == '+' {
            longer.skip(1) =~= digits.push(c)
        } else {
            longer =~= digits.push(c)
        });
        assert(digits.push(c).drop_last() =~= digits);
        assert(all_digits(digits.push(c)));
    }
    if !('0' <= c && c <= '9') {
        if s.len() == 0 {
            assert(longer =~= one);
            assert(one[0] == c);
            assert(one.skip(1) =~= seq![]);
        } else {
            assert(longer[0] == s[0]);
            assert(longer[longer.len() - 1] == c);
            assert(longer.skip(1)[longer.len() - 2] == c);
        }
    }
}

/// A number that is set is what its text spells, where that is positive and fits; anything else
/// counts as unset.
pub proof fn a_number_is_set_or_falls_back(raw: Seq<char>, fallback: u64)
    ensures
        positive_or(None, fallback) == fallback,
        unsigned_of(trimmed(raw)) is None ==> positive_or(Some(raw), fallback) == fallback,
        unsigned_of(trimmed(raw)) matches Some(n) ==> (0 < n <= u64::MAX ==> positive_or(
            Some(raw),
            fallback,
        ) == n) && (n == 0 || n > u64::MAX ==> positive_or(Some(raw), fallback) == fallback),
{
}

} // verus!

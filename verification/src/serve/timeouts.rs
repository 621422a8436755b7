//! How long the daemon and its audio sink stay without work.

use crate::kokoro::sink::DEFAULT_SINK_IDLE;
use crate::number;
use crate::text;
use vstd::prelude::*;

verus! {

/// Default lifetime in seconds with no jobs and no live audio sink. The client starts a
/// replacement by itself, so a forgotten daemon shouldn't sit for days.
pub const DEFAULT_IDLE_TIMEOUT_SECS: u64 = 1800;

/// The values that turn the timeout off.
pub open spec fn is_off(val: Seq<char>) -> bool {
    val == ""@ || val == "0"@ || val == "off"@ || val == "none"@ || val == "-1"@
}

/// The timeout in seconds that a setting stands for; `None` means "run until killed".
pub open spec fn idle_timeout(val: Option<Seq<char>>) -> Option<u64> {
    match val {
        None => Some(DEFAULT_IDLE_TIMEOUT_SECS),
        Some(s) => if is_off(s) {
            None
        } else {
            match number::number_in(s) {
                Some(secs) => if secs == 0 {
                    None
                } else {
                    Some(secs)
                },
                None => Some(DEFAULT_IDLE_TIMEOUT_SECS),
            }
        },
    }
}

/// The grace in milliseconds that a setting stands for.
pub open spec fn sink_idle(val: Option<Seq<char>>) -> u64 {
    match val {
        None => DEFAULT_SINK_IDLE,
        Some(s) => match number::number_in(s) {
            Some(ms) => ms,
            None => DEFAULT_SINK_IDLE,
        },
    }
}

/// Parse `$RYK_IDLE_TIMEOUT`, in seconds. `None` means "run until killed".
pub fn parse_idle_timeout(val: Option<&str>) -> (r: Option<u64>)
    ensures
        r == idle_timeout(
            match val {
                Some(s) => Some(s@),
                None => None,
            },
        ),
{
    match val {
        None => Some(DEFAULT_IDLE_TIMEOUT_SECS),
        Some(s) => {
            let chars: Vec<char> = text::chars_of(s);
            let s: &[char] = chars.as_slice();
            if text::eq_str(s, "") || text::eq_str(s, "0") || text::eq_str(s, "off")
                || text::eq_str(s, "none") || text::eq_str(s, "-1") {
                return None;
            }
            match number::parse_u64(s) {
                Some(secs) => if secs == 0 {
                    None
                } else {
                    Some(secs)
                },
                None => Some(DEFAULT_IDLE_TIMEOUT_SECS),
            }
        },
    }
}

/// Parse `$RYK_SINK_IDLE_MS`, in milliseconds. Missing or unparseable values use the
/// 10-minute default.
pub fn parse_sink_idle_ms(val: Option<&str>) -> (r: u64)
    ensures
        r == sink_idle(
            match val {
                Some(s) => Some(s@),
                None => None,
            },
        ),
{
    match val {
        None => DEFAULT_SINK_IDLE,
        Some(s) => {
            let chars: Vec<char> = text::chars_of(s);
            match number::parse_u64(chars.as_slice()) {
                Some(ms) => ms,
                None => DEFAULT_SINK_IDLE,
            }
        },
    }
}

proof fn lemma_off_is_no_number(n: u64)
    requires
        n > 0,
    ensures
        !is_off(number::decimal(n as nat)),
{
    let s = number::decimal(n as nat);
    number::law_decimal_is_read_back(n);
    reveal_strlit("");
    reveal_strlit("0");
    reveal_strlit("off");
    reveal_strlit("none");
    reveal_strlit("-1");
    assert(number::are_digits(number::unsigned(s)));
    if s == "0"@ {
        assert(s =~= seq!['0']);
        assert(number::decimal(0) =~= seq!['0']);
        number::law_decimal_is_read_back(0);
    } else if s == "off"@ || s == "none"@ || s == "-1"@ {
        assert(number::unsigned(s) == s);
        assert(!number::is_digit(s[0]));
    } else if s == ""@ {
        assert(number::unsigned(s).len() == 0);
    }
}

/// A setting that is a number is taken at its word: zero seconds turn the daemon's timeout
/// off, and any other count is the timeout; any count of milliseconds is the sink's grace.
pub proof fn law_numbers_are_taken_as_they_are(n: u64)
    ensures
        n > 0 ==> idle_timeout(Some(number::decimal(n as nat))) == Some(n),
        idle_timeout(Some(number::decimal(0))) is None,
        sink_idle(Some(number::decimal(n as nat))) == n,
{
    number::law_decimal_is_read_back(n);
    number::law_decimal_is_read_back(0);
    if n > 0 {
        lemma_off_is_no_number(n);
    }
}

/// The timeout never is zero: a daemon without one runs until it is killed.
pub proof fn law_no_timeout_is_zero(val: Option<Seq<char>>)
    ensures
        idle_timeout(val) != Some(0u64),
{
}

/// Without a setting the daemon stays for 30 minutes without work and its sink for 10.
pub proof fn law_defaults_are_minutes()
    ensures
        idle_timeout(None) == Some(1800u64),
        sink_idle(None) == 600_000,
{
}

/// However a number is written it is taken at its word, and a setting that is none falls back to
/// the default, but for those that turn the daemon's timeout off.
pub proof fn law_garbage_falls_back(s: Seq<char>)
    ensures
        s == ""@ || s == "0"@ || s == "off"@ || s == "none"@ || s == "-1"@ ==> idle_timeout(
            Some(s),
        ) is None,
        number::number_in(s) is None && s != ""@ && s != "off"@ && s != "none"@ && s != "-1"@
            ==> idle_timeout(Some(s)) == idle_timeout(None),
        number::number_in(s) is None ==> sink_idle(Some(s)) == sink_idle(None),
        number::number_in(s) is Some ==> sink_idle(Some(s)) == number::number_in(s)->0,
        number::number_in(s) is Some && number::number_in(s)->0 == 0 ==> idle_timeout(
            Some(s),
        ) is None,
        number::number_in(s) is Some && number::number_in(s)->0 > 0 && s != ""@ && s != "off"@ && s
            != "none"@ && s != "-1"@ ==> idle_timeout(Some(s)) == number::number_in(s),
{
    reveal_strlit("0");
    if s == "0"@ {
        assert(s =~= number::decimal(0));
        number::law_decimal_is_read_back(0);
    }
}

} // verus!

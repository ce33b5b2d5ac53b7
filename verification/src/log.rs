//! An always-on, file-only diagnostic log for the watch/refresh path.
//!
//! **Always on.** An opt-in log is off precisely when the bug you did not
//! expect happens, and a sync fault is the kind that will not reproduce on
//! demand.
//!
//! **File only**, at `$XDG_STATE_HOME/dextui/log`, falling back to
//! `~/.local/state/dextui/log`. State, not config: it is machine-local and
//! disposable, and must never sit beside `config.toml`, which is the user's
//! hand-edited text.
//!
//! **Size-capped by truncation at startup, not rotation.** A log you `tail -f`
//! while reproducing a fault does not need history, and rotation is machinery
//! for a problem this does not have.

use vstd::prelude::*;

use crate::dex::{fills_in, join_path, known_pattern, path_under};
use crate::text::{concat, is_digit, opt_str, opt_text};

verus! {

/// Above this many bytes the log is truncated at startup. Generous enough to
/// hold a long `tail -f` session's worth of watch/dex/store/registry lines
/// without ever mattering in ordinary use.
pub const CAP: u64 = 1_000_000;

/// Where the log lives, given `XDG_STATE_HOME` and `HOME`.
pub open spec fn log_path(xdg: Option<Seq<char>>, home: Option<Seq<char>>) -> Option<Seq<char>> {
    if xdg is Some && xdg->0.len() > 0 {
        Some(path_under(path_under(xdg->0, "dextui"@), "log"@))
    } else {
        match home {
            Some(h) => Some(
                path_under(
                    path_under(path_under(path_under(h, ".local"@), "state"@), "dextui"@),
                    "log"@,
                ),
            ),
            None => None,
        }
    }
}

/// Where the log lives, honouring `XDG_STATE_HOME` like `config::path` honours
/// `XDG_CONFIG_HOME` -- same shape, different variable, because a log is
/// disposable machine-local state and must never sit beside the user's
/// hand-edited `config.toml`. Takes the values of `XDG_STATE_HOME` and `HOME`.
pub fn resolve(xdg: Option<&str>, home: Option<&str>) -> (r: Option<String>)
    ensures
        opt_text(r) == log_path(opt_str(xdg), opt_str(home)),
{
    let base = match xdg {
        Some(x) if x.unicode_len() > 0 => x.to_owned(),
        _ => match home {
            Some(h) => join_path(join_path(h, ".local").as_str(), "state"),
            None => {
                return None;
            },
        },
    };
    Some(join_path(join_path(base.as_str(), "dextui").as_str(), "log"))
}

/// A text filled up with spaces to a width.
pub open spec fn padded(s: Seq<char>, width: nat) -> Seq<char> {
    if s.len() >= width {
        s
    } else {
        s + Seq::new((width - s.len()) as nat, |i: int| ' ')
    }
}

/// One line of the log, under the time it was written.
pub open spec fn stamped(time: Seq<char>, area: Seq<char>, msg: Seq<char>) -> Seq<char> {
    time + "  "@ + padded(area, 8) + "  "@ + msg + "\n"@
}

/// One line of the log, under the time it was written: `HH:MM:SS  area
/// message`, area padded to a fixed column so the file reads straight rather
/// than ragged. `registry` is the longest of the areas in use, so that is the
/// padding width.
pub fn stamped_line(time: &str, area: &str, msg: &str) -> (r: String)
    ensures
        r@ == stamped(time@, area@, msg@),
{
    let mut out = concat(time, "  ");
    let mut column = area.to_owned();
    let mut n: usize = area.unicode_len();
    assert(column@ =~= area@ + Seq::new(0, |i: int| ' '));
    while n < 8
        invariant
            area@.len() <= n,
            n <= 8 || n == area@.len(),
            column@ == area@ + Seq::new((n - area@.len()) as nat, |i: int| ' '),
        decreases 8 - n,
    {
        column.push(' ');
        n = n + 1;
        assert(column@ =~= area@ + Seq::new((n - area@.len()) as nat, |i: int| ' '));
    }
    assert(column@ =~= padded(area@, 8));
    out.append(column.as_str());
    out.append("  ");
    out.append(msg);
    out.append("\n");
    out
}

/// Whether a text has the shape of a time of day, `HH:MM:SS`.
pub open spec fn is_clock(time: Seq<char>) -> bool {
    &&& time.len() == 8
    &&& time[2] == ':' && time[5] == ':'
    &&& is_digit(time[0]) && is_digit(time[1]) && is_digit(time[3])
    &&& is_digit(time[4]) && is_digit(time[6]) && is_digit(time[7])
}

/// `chrono::Local::now`, shown by `format` under a pattern that it knows in
/// full: it panics on one that it does not. Hours, minutes and seconds are two
/// digits each. Which rests on the clock and the machine's time zone.
#[verifier::external_body]
fn local_clock(pattern: &str) -> (r: String)
    requires
        known_pattern(pattern@),
    ensures
        pattern@ == "%H:%M:%S"@ ==> is_clock(r@),
{
    chrono::Local::now().format(pattern).to_string()
}

proof fn lemma_clock_pattern()
    ensures
        known_pattern("%H:%M:%S"@),
{
    reveal_strlit("%H:%M:%S");
    let p = "%H:%M:%S"@;
    assert(p.len() == 8);
    assert(p[1] == 'H' && p[2] == ':' && p[4] == 'M' && p[5] == ':' && p[7] == 'S');
    assert forall|i: int| 0 <= i < p.len() && #[trigger] p[i] == '%' implies i + 1 < p.len()
        && fills_in(p[i + 1]) by {
        assert(i == 0 || i == 3 || i == 6);
    }
}

/// One line of the log, under the time of the call.
pub fn format_line(area: &str, msg: &str) -> (r: String)
    ensures
        exists|time: Seq<char>| is_clock(time) && r@ == #[trigger] stamped(time, area@, msg@),
{
    proof {
        lemma_clock_pattern();
    }
    let now = local_clock("%H:%M:%S");
    stamped_line(now.as_str(), area, msg)
}

/// Whether a file of this size has to be truncated at startup.
pub fn is_oversized(len: u64) -> (r: bool)
    ensures
        r == (len > CAP),
{
    len > CAP
}

/// Whenever they are written, two lines whose areas fit the column start their
/// messages at the same place.
pub proof fn law_the_area_column_is_aligned(
    earlier: Seq<char>,
    later: Seq<char>,
    a: Seq<char>,
    b: Seq<char>,
    m: Seq<char>,
    n: Seq<char>,
)
    requires
        is_clock(earlier),
        is_clock(later),
        a.len() <= 8,
        b.len() <= 8,
    ensures
        stamped(earlier, a, m).skip(20) == m + "\n"@,
        stamped(later, b, n).skip(20) == n + "\n"@,
{
    reveal_strlit("  ");
    assert(stamped(earlier, a, m).skip(20) =~= m + "\n"@);
    assert(stamped(later, b, n).skip(20) =~= n + "\n"@);
}

/// The log lives under `XDG_STATE_HOME` where that says anything, and under
/// `.local/state` at home where it does not.
pub proof fn law_the_log_follows_xdg(xdg: Seq<char>, home: Seq<char>)
    requires
        xdg.len() > 0,
        xdg.last() != '/',
        home.len() > 0,
        home.last() != '/',
    ensures
        log_path(Some(xdg), Some(home)) == Some(xdg + "/dextui/log"@),
        log_path(None, Some(home)) == Some(home + "/.local/state/dextui/log"@),
        log_path(Some(Seq::empty()), Some(home)) == log_path(None, Some(home)),
        log_path(None, None) is None,
{
    reveal_strlit("/");
    reveal_strlit(".local");
    reveal_strlit("state");
    reveal_strlit("dextui");
    reveal_strlit("log");
    reveal_strlit("/dextui/log");
    reveal_strlit("/.local/state/dextui/log");
    assert(xdg + "/"@ + "dextui"@ + "/"@ + "log"@ =~= xdg + "/dextui/log"@);
    assert(home + "/"@ + ".local"@ + "/"@ + "state"@ + "/"@ + "dextui"@ + "/"@ + "log"@ =~= home
        + "/.local/state/dextui/log"@);
}

/// A line says when, where and what, in that order and each as it was given.
pub proof fn law_a_line_says_when_where_and_what(
    time: Seq<char>,
    area: Seq<char>,
    msg: Seq<char>,
)
    requires
        is_clock(time),
        area.len() <= 8,
    ensures
        stamped(time, area, msg).take(8) == time,
        stamped(time, area, msg).subrange(10, (10 + area.len()) as int) == area,
        stamped(time, area, msg).skip(20) == msg + "\n"@,
{
    law_the_area_column_is_aligned(time, time, area, area, msg, msg);
    reveal_strlit("  ");
    assert(stamped(time, area, msg).take(8) =~= time);
    assert(stamped(time, area, msg).subrange(10, (10 + area.len()) as int) =~= area);
}

} // verus!

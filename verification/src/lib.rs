//! Menu-driven monitor configuration library for a Hyprland compositor setup.
//!
//! The library turns structured monitor and mode records into single-line menu
//! text, parses a user's textual selection back into a typed action, and
//! sequences the two selection rounds (pick a monitor, then pick an action).
//! Formatting and parsing are paired and verified: every menu line produced by
//! the formatters is proved to be invertible by the matching parser, up to the
//! decorative marker glyphs and the two-decimal refresh-rate precision.

use vstd::prelude::*;
use vstd::string::StrSliceExecFns;
use vstd::string::StringExecFns;

pub mod backend;
pub mod pipeline;
pub mod text;

use crate::backend::HyprlandMonitor;
use crate::backend::Mode;
use crate::backend::res_split_at;
use crate::text::decimal_mhz;
use crate::text::decimal_shape;
use crate::text::digits_value;
use crate::text::is_digit;
use crate::text::lemma_numeral_props;
use crate::text::lemma_refresh_2dp_props;
use crate::text::numeral;
use crate::text::refresh_2dp;
use crate::text::rounded_centi;
use crate::text::append_u32;
use crate::text::append_refresh_2dp;
use crate::text::find_char_range;
use crate::text::parse_u32_range;
use crate::text::parse_refresh_mhz_range;

verus! {

/// A typed user choice from the action menu: set an explicit mode (width,
/// height, refresh in millihertz), enable the monitor, or disable it.
#[derive(Debug, Clone, Copy, PartialEq, Eq, Structural)]
pub enum Action {
    SetMode(u32, u32, u32),
    Enable,
    Disable,
}

/// The characters of the synthetic menu entry `"Enable monitor"`.
pub open spec fn enable_text() -> Seq<char> {
    seq!['E', 'n', 'a', 'b', 'l', 'e', ' ', 'm', 'o', 'n', 'i', 't', 'o', 'r']
}

/// The characters of the synthetic menu entry `"Disable monitor"`.
pub open spec fn disable_text() -> Seq<char> {
    seq!['D', 'i', 's', 'a', 'b', 'l', 'e', ' ', 'm', 'o', 'n', 'i', 't', 'o', 'r']
}

/// The characters of the mode-line prefix `"Set: "`.
pub open spec fn set_prefix() -> Seq<char> {
    seq!['S', 'e', 't', ':', ' ']
}

/// The characters of the mode-line separator `" @ "`.
pub open spec fn at_sep() -> Seq<char> {
    seq![' ', '@', ' ']
}

/// The characters of the mode-line unit suffix `" Hz"`.
pub open spec fn hz_word() -> Seq<char> {
    seq![' ', 'H', 'z']
}

/// `p` starts at position 0 of `s`.
pub open spec fn starts_with(s: Seq<char>, p: Seq<char>) -> bool {
    s.len() >= p.len() && s.subrange(0, p.len() as int) == p
}

/// The separator `" @ "` occurs at position `i` of `s`.
pub open spec fn sep_at(s: Seq<char>, i: int) -> bool {
    0 <= i && i + 3 <= s.len() && s.subrange(i, i + 3) == at_sep()
}

/// The tail of a mode-line body: a decimal numeral followed by `" Hz"`, with
/// a millihertz value that fits in a `u32`.
pub open spec fn hz_tail_ok(r: Seq<char>) -> bool {
    &&& r.len() >= 3
    &&& r.subrange(r.len() - 3, r.len() as int) == hz_word()
    &&& decimal_shape(r.subrange(0, r.len() - 3))
    &&& decimal_mhz(r.subrange(0, r.len() - 3)) <= u32::MAX
}

/// A mode-line body `"<W>x<H> @ <R> Hz"` splits at position `i`: the one
/// occurrence of `" @ "` separates a resolution pair from a refresh tail.
pub open spec fn set_body_split_at(s: Seq<char>, i: int) -> bool {
    &&& sep_at(s, i)
    &&& (forall|j: int| 0 <= j < i ==> !sep_at(s, j))
    &&& (forall|j: int| j >= i + 3 ==> !sep_at(s, j))
    &&& (exists|x: int| res_split_at(s.subrange(0, i), x))
    &&& hz_tail_ok(s.subrange(i + 3, s.len() as int))
}

/// `s` has the exact shape of a mode-line body `"<W>x<H> @ <R> Hz"`.
pub open spec fn set_body_ok(s: Seq<char>) -> bool {
    exists|i: int| set_body_split_at(s, i)
}

/// The action described by a well-shaped mode-line body.
pub open spec fn spec_set_action_of(s: Seq<char>) -> Action {
    let i = choose|i: int| set_body_split_at(s, i);
    let p = s.subrange(0, i);
    let x = choose|x: int| res_split_at(p, x);
    let t = s.subrange(i + 3, s.len() as int);
    Action::SetMode(
        digits_value(p.subrange(0, x)) as u32,
        digits_value(p.subrange(x + 1, p.len() as int)) as u32,
        decimal_mhz(t.subrange(0, t.len() - 3)) as u32,
    )
}

/// What parsing an action-menu selection yields. The two synthetic entries
/// match exactly; a mode line matches with or without its two leading marker
/// characters, whose glyph carries no meaning; everything else fails.
pub open spec fn spec_parse_action(s: Seq<char>) -> Option<Action> {
    if s == enable_text() {
        Some(Action::Enable)
    } else if s == disable_text() {
        Some(Action::Disable)
    } else if starts_with(s, set_prefix()) && set_body_ok(s.skip(5)) {
        Some(spec_set_action_of(s.skip(5)))
    } else if s.len() >= 2 && s[1] == ' ' && starts_with(s.skip(2), set_prefix()) && set_body_ok(
        s.skip(7),
    ) {
        Some(spec_set_action_of(s.skip(7)))
    } else {
        None
    }
}

proof fn lemma_set_body_split_at_unique(s: Seq<char>, i1: int, i2: int)
    requires
        set_body_split_at(s, i1),
        set_body_split_at(s, i2),
    ensures
        i1 == i2,
{
}

/// Compares two strings character by character.
pub fn str_eq(a: &str, b: &str) -> (r: bool)
    ensures
        r == (a@ == b@),
{
    let na = a.unicode_len();
    let nb = b.unicode_len();
    if na != nb {
        return false;
    }
    let mut i: usize = 0;
    while i < na
        invariant
            i <= na,
            na == a@.len(),
            na == b@.len(),
            forall|j: int| 0 <= j < i ==> a@[j] == b@[j],
        decreases na - i,
    {
        if a.get_char(i) != b.get_char(i) {
            return false;
        }
        i = i + 1;
    }
    proof {
        assert(a@ =~= b@);
    }
    true
}

/// Reports whether `"Set: "` stands at position `at` of `s`.
fn set_prefix_at(s: &str, at: usize) -> (r: bool)
    requires
        at <= s@.len(),
    ensures
        r == (s@.len() >= at + 5 && s@.subrange(at as int, at as int + 5) == set_prefix()),
{
    let n = s.unicode_len();
    if n - at < 5 {
        return false;
    }
    let r = s.get_char(at) == 'S' && s.get_char(at + 1) == 'e' && s.get_char(at + 2) == 't'
        && s.get_char(at + 3) == ':' && s.get_char(at + 4) == ' ';
    proof {
        let sub = s@.subrange(at as int, at as int + 5);
        assert(sub[0] == s@[at as int]);
        assert(sub[1] == s@[at as int + 1]);
        assert(sub[2] == s@[at as int + 2]);
        assert(sub[3] == s@[at as int + 3]);
        assert(sub[4] == s@[at as int + 4]);
        if r {
            assert(sub =~= set_prefix());
        }
    }
    r
}

/// Finds the first occurrence of `" @ "` at or after position `from`.
fn find_sep_from(s: &str, from: usize) -> (r: Option<usize>)
    requires
        from <= s@.len(),
    ensures
        r matches Some(i) ==> from <= i && i + 3 <= s@.len() && sep_at(s@, i as int) && (forall|
            j: int,
        |
            from <= j < i ==> !sep_at(s@, j)),
        r is None ==> forall|j: int| j >= from ==> !sep_at(s@, j),
{
    let n = s.unicode_len();
    if n < 3 || from > n - 3 {
        return None;
    }
    let mut i: usize = from;
    while i <= n - 3
        invariant
            from <= i <= n - 2,
            n == s@.len(),
            n >= 3,
            forall|j: int| from <= j < i ==> !sep_at(s@, j),
        decreases n - i,
    {
        let hit = s.get_char(i) == ' ' && s.get_char(i + 1) == '@' && s.get_char(i + 2) == ' ';
        proof {
            let sub = s@.subrange(i as int, i as int + 3);
            assert(sub[0] == s@[i as int]);
            assert(sub[1] == s@[i as int + 1]);
            assert(sub[2] == s@[i as int + 2]);
            if hit {
                assert(sub =~= at_sep());
            }
        }
        if hit {
            return Some(i);
        }
        i = i + 1;
    }
    None
}

/// Parses a mode-line body of the exact shape `"<W>x<H> @ <R> Hz"`.
fn parse_set_body(s: &str) -> (r: Option<Action>)
    ensures
        r is Some <==> set_body_ok(s@),
        r matches Some(a) ==> a == spec_set_action_of(s@),
{
    let n = s.unicode_len();
    let i = match find_sep_from(s, 0) {
        Some(i) => i,
        None => {
            return None;
        },
    };
    if let Some(i2) = find_sep_from(s, i + 3) {
        proof {
            assert forall|ii: int| !set_body_split_at(s@, ii) by {
                assert(sep_at(s@, i2 as int));
            }
        }
        return None;
    }
    // " @ " occurs exactly once as a split point, at i
    proof {
        assert forall|ii: int| set_body_split_at(s@, ii) implies ii == i by {}
    }
    let ghost p = s@.subrange(0, i as int);
    let x = match find_char_range(s, 'x', 0, i) {
        Some(x) => x,
        None => {
            proof {
                assert forall|xx: int| !res_split_at(p, xx) by {
                    if 0 <= xx < p.len() {
                        assert(p[xx] == s@[xx]);
                    }
                }
            }
            return None;
        },
    };
    if let Some(x2) = find_char_range(s, 'x', x + 1, i) {
        proof {
            assert(p[x2 as int] == s@[x2 as int]);
            assert(p[x as int] == s@[x as int]);
            assert forall|xx: int| !res_split_at(p, xx) by {}
        }
        return None;
    }
    proof {
        assert(p[x as int] == s@[x as int]);
        assert forall|xx: int| res_split_at(p, xx) implies xx == x by {
            assert(p[xx] == s@[xx]);
        }
        assert(p.subrange(0, x as int) =~= s@.subrange(0, x as int));
        assert(p.subrange(x as int + 1, p.len() as int) =~= s@.subrange(x as int + 1, i as int));
    }
    let w = match parse_u32_range(s, 0, x) {
        Some(w) => w,
        None => {
            proof {
                assert forall|xx: int| !res_split_at(p, xx) by {}
            }
            return None;
        },
    };
    let h = match parse_u32_range(s, x + 1, i) {
        Some(h) => h,
        None => {
            proof {
                assert forall|xx: int| !res_split_at(p, xx) by {}
            }
            return None;
        },
    };
    // the refresh tail: "<R> Hz"
    let ghost t = s@.subrange(i as int + 3, s@.len() as int);
    if n - (i + 3) < 3 {
        return None;
    }
    proof {
        assert(t[t.len() - 3] == s@[n - 3]);
        assert(t[t.len() - 2] == s@[n - 2]);
        assert(t[t.len() - 1] == s@[n - 1]);
        let tw = t.subrange(t.len() - 3, t.len() as int);
        assert(tw[0] == t[t.len() - 3]);
        assert(tw[1] == t[t.len() - 2]);
        assert(tw[2] == t[t.len() - 1]);
    }
    if s.get_char(n - 3) != ' ' || s.get_char(n - 2) != 'H' || s.get_char(n - 1) != 'z' {
        return None;
    }
    proof {
        assert(t.subrange(t.len() - 3, t.len() as int) =~= hz_word());
        assert(t.subrange(0, t.len() - 3) =~= s@.subrange(i as int + 3, n as int - 3));
    }
    let mhz = match parse_refresh_mhz_range(s, i + 3, n - 3) {
        Some(v) => v,
        None => {
            return None;
        },
    };
    proof {
        assert(res_split_at(p, x as int));
        assert(hz_tail_ok(t));
        assert(set_body_split_at(s@, i as int));
        let ci = choose|ii: int| set_body_split_at(s@, ii);
        assert(set_body_split_at(s@, ci));
        lemma_set_body_split_at_unique(s@, ci, i as int);
        let cx = choose|xx: int| res_split_at(p, xx);
        assert(res_split_at(p, cx));
    }
    Some(Action::SetMode(w, h, mhz))
}

impl Action {
    /// Parses an action-menu selection: the exact strings `"Enable monitor"`
    /// and `"Disable monitor"`, and mode lines `"<W>x<H> @ <R> Hz"` after the
    /// prefix `"Set: "`, with or without the two leading marker characters.
    /// Anything else fails; no action is ever defaulted.
    pub fn parse_from_selection(selection: &str) -> (r: Option<Action>)
        ensures
            r == spec_parse_action(selection@),
    {
        proof {
            reveal_strlit("Enable monitor");
            reveal_strlit("Disable monitor");
        }
        if str_eq(selection, "Enable monitor") {
            proof {
                assert("Enable monitor"@ =~= enable_text());
            }
            return Some(Action::Enable);
        }
        if str_eq(selection, "Disable monitor") {
            proof {
                assert("Disable monitor"@ =~= disable_text());
            }
            return Some(Action::Disable);
        }
        proof {
            assert("Enable monitor"@ =~= enable_text());
            assert("Disable monitor"@ =~= disable_text());
        }
        let n = selection.unicode_len();
        if set_prefix_at(selection, 0) {
            let body = selection.substring_char(5, n);
            proof {
                assert(body@ == selection@.skip(5));
                assert(selection@[1] == selection@.subrange(0, 5)[1]);
            }
            return match parse_set_body(body) {
                Some(a) => Some(a),
                None => None,
            };
        }
        if n >= 2 {
            let marker_space = selection.get_char(1) == ' ';
            if marker_space && set_prefix_at(selection, 2) {
                let body = selection.substring_char(7, n);
                proof {
                    assert(body@ == selection@.skip(7));
                    assert(selection@.skip(2).subrange(0, 5) =~= selection@.subrange(2, 7));
                    assert(starts_with(selection@.skip(2), set_prefix()));
                }
                return match parse_set_body(body) {
                    Some(a) => Some(a),
                    None => None,
                };
            }
            proof {
                if marker_space && selection@.len() >= 7 {
                    assert(selection@.skip(2).subrange(0, 5) =~= selection@.subrange(2, 7));
                }
            }
        }
        None
    }
}

/// A candidate mode counts as current when width and height match the
/// monitor's current geometry exactly and the refresh rates, in millihertz,
/// differ by strictly less than 10 (0.01 Hz).
pub open spec fn is_current_mode(m: Mode, cw: int, ch: int, cmhz: int) -> bool {
    m.width == cw && m.height == ch && -10 < m.refresh_mhz - cmhz < 10
}

/// The action-menu line for a mode: `"<marker> Set: <W>x<H> @ <R:2dp> Hz"`,
/// with a bullet marker when the mode is the monitor's current one and a
/// blank placeholder otherwise.
pub open spec fn mode_line_text(m: Mode, cw: int, ch: int, cmhz: int) -> Seq<char> {
    seq![if is_current_mode(m, cw, ch, cmhz) {
        '●'
    } else {
        ' '
    }, ' '] + set_prefix() + numeral(m.width as nat) + seq!['x'] + numeral(m.height as nat)
        + at_sep() + refresh_2dp(m.refresh_mhz as int) + hz_word()
}

/// The monitor-menu line:
/// `"<enabled> <focus> <description> - <W>x<H>@<R:2dp>Hz (<name>)"`, with a
/// check or cross for the enabled state and a bullet or blank for focus.
pub open spec fn monitor_line_text(
    name: Seq<char>,
    desc: Seq<char>,
    w: int,
    h: int,
    mhz: int,
    enabled: bool,
    focused: bool,
) -> Seq<char> {
    seq![if enabled {
        '✓'
    } else {
        '✗'
    }, ' ', if focused {
        '●'
    } else {
        ' '
    }, ' '] + desc + seq![' ', '-', ' '] + numeral(w as nat) + seq!['x'] + numeral(h as nat)
        + seq!['@'] + refresh_2dp(mhz) + seq!['H', 'z', ' ', '('] + name + seq![')']
}

/// Renders one mode as an action-menu line, marking it when it is the
/// monitor's current mode.
pub fn format_mode_for_display(
    mode: &Mode,
    current_width: u32,
    current_height: u32,
    current_refresh_mhz: u32,
) -> (r: String)
    ensures
        r@ == mode_line_text(
            *mode,
            current_width as int,
            current_height as int,
            current_refresh_mhz as int,
        ),
{
    let diff_small = if mode.refresh_mhz >= current_refresh_mhz {
        mode.refresh_mhz - current_refresh_mhz < 10
    } else {
        current_refresh_mhz - mode.refresh_mhz < 10
    };
    let is_current = mode.width == current_width && mode.height == current_height && diff_small;
    let mut out = if is_current {
        String::from_str("●")
    } else {
        String::from_str(" ")
    };
    out.append(" Set: ");
    append_u32(&mut out, mode.width);
    out.append("x");
    append_u32(&mut out, mode.height);
    out.append(" @ ");
    append_refresh_2dp(&mut out, mode.refresh_mhz);
    out.append(" Hz");
    proof {
        reveal_strlit("●");
        reveal_strlit(" ");
        reveal_strlit(" Set: ");
        reveal_strlit("x");
        reveal_strlit(" @ ");
        reveal_strlit(" Hz");
        assert(out@ =~= mode_line_text(
            *mode,
            current_width as int,
            current_height as int,
            current_refresh_mhz as int,
        ));
    }
    out
}

/// Renders one monitor as a monitor-menu line, its name in parentheses at the
/// end.
pub fn format_monitor_for_display(monitor: &HyprlandMonitor) -> (r: String)
    ensures
        r@ == monitor_line_text(
            monitor.name@,
            monitor.description@,
            monitor.width as int,
            monitor.height as int,
            monitor.refresh_mhz as int,
            monitor.dpms_status,
            monitor.focused,
        ),
{
    let mut out = if monitor.dpms_status {
        String::from_str("✓")
    } else {
        String::from_str("✗")
    };
    out.append(" ");
    if monitor.focused {
        out.append("●");
    } else {
        out.append(" ");
    }
    out.append(" ");
    out.append(monitor.description.as_str());
    out.append(" - ");
    append_u32(&mut out, monitor.width);
    out.append("x");
    append_u32(&mut out, monitor.height);
    out.append("@");
    append_refresh_2dp(&mut out, monitor.refresh_mhz);
    out.append("Hz (");
    out.append(monitor.name.as_str());
    out.append(")");
    proof {
        reveal_strlit("✓");
        reveal_strlit("✗");
        reveal_strlit("●");
        reveal_strlit(" ");
        reveal_strlit(" - ");
        reveal_strlit("x");
        reveal_strlit("@");
        reveal_strlit("Hz (");
        reveal_strlit(")");
        assert(out@ =~= monitor_line_text(
            monitor.name@,
            monitor.description@,
            monitor.width as int,
            monitor.height as int,
            monitor.refresh_mhz as int,
            monitor.dpms_status,
            monitor.focused,
        ));
    }
    out
}

/// Round trip of the mode formatter and the action parser: parsing a
/// formatted action-menu line always yields a set-mode action whose width and
/// height are exactly those of the formatted mode and whose refresh rate
/// differs from the formatted one by at most 5 millihertz (the two-decimal
/// display precision), whatever the current-mode marker was.
#[verifier::rlimit(100)]
pub proof fn lemma_mode_line_roundtrip(m: Mode, cw: int, ch: int, cmhz: int)
    requires
        m.refresh_mhz + 5 <= u32::MAX,
    ensures
        ({
            let r10 = rounded_centi(m.refresh_mhz as int) * 10;
            &&& spec_parse_action(mode_line_text(m, cw, ch, cmhz)) == Some(
                Action::SetMode(m.width, m.height, r10 as u32),
            )
            &&& -5 <= r10 - m.refresh_mhz <= 5
        }),
{
    let L = mode_line_text(m, cw, ch, cmhz);
    let wn = numeral(m.width as nat);
    let hn = numeral(m.height as nat);
    let rn = refresh_2dp(m.refresh_mhz as int);
    lemma_numeral_props(m.width as nat);
    lemma_numeral_props(m.height as nat);
    lemma_refresh_2dp_props(m.refresh_mhz as int);
    let marker = if is_current_mode(m, cw, ch, cmhz) {
        '●'
    } else {
        ' '
    };
    let body = wn + seq!['x'] + hn + at_sep() + rn + hz_word();
    assert(L =~= seq![marker, ' '] + set_prefix() + body);
    assert(L.len() == 7 + body.len());
    assert(L.skip(7) =~= body);
    assert(L.skip(2).subrange(0, 5) =~= set_prefix());
    // the marker cannot begin any of the recognized fixed texts
    assert(L[0] == marker);
    assert(L != enable_text());
    assert(L != disable_text());
    assert(!starts_with(L, set_prefix())) by {
        if starts_with(L, set_prefix()) {
            assert(L.subrange(0, 5)[0] == L[0]);
        }
    }
    assert(L[1] == ' ');
    // positions of the pieces of the body
    let x = wn.len() as int;
    let i = x + 1 + hn.len();
    assert(forall|k: int| 0 <= k < wn.len() ==> body[k] == wn[k]);
    assert(body[x] == 'x');
    assert(forall|k: int| 0 <= k < hn.len() ==> body[x + 1 + k] == hn[k]);
    assert(body[i] == ' ');
    assert(body[i + 1] == '@');
    assert(body[i + 2] == ' ');
    assert(forall|k: int| 0 <= k < rn.len() ==> body[i + 3 + k] == rn[k]);
    let e = i + 3 + rn.len();
    assert(body[e] == ' ');
    assert(body[e + 1] == 'H');
    assert(body[e + 2] == 'z');
    assert(body.len() == e + 3);
    // '@' occurs only at i + 1
    assert forall|k: int| 0 <= k < body.len() && body[k] == '@' implies k == i + 1 by {
        if k < x {
            assert(is_digit(wn[k]));
        } else if x < k < i {
            assert(is_digit(hn[k - x - 1]));
        } else if i + 3 <= k < e {
            assert(is_digit(rn[k - i - 3]) || rn[k - i - 3] == '.');
        }
    }
    // so " @ " occurs only at i
    assert forall|j: int| sep_at(body, j) implies j == i by {
        assert(body.subrange(j, j + 3)[1] == body[j + 1]);
    }
    assert(body.subrange(i, i + 3) =~= at_sep());
    assert(sep_at(body, i));
    // the resolution pair
    let p = body.subrange(0, i);
    assert(p.subrange(0, x) =~= wn);
    assert(p.subrange(x + 1, p.len() as int) =~= hn);
    assert forall|k: int| 0 <= k < p.len() && p[k] == 'x' implies k == x by {
        if k < x {
            assert(is_digit(wn[k]));
        } else if x < k {
            assert(is_digit(hn[k - x - 1]));
        }
    }
    assert(res_split_at(p, x));
    // the refresh tail
    let t = body.subrange(i + 3, body.len() as int);
    assert(t.len() == rn.len() + 3);
    assert(t.subrange(t.len() - 3, t.len() as int) =~= hz_word());
    assert(t.subrange(0, t.len() - 3) =~= rn);
    let rc = rounded_centi(m.refresh_mhz as int);
    assert(10 * rc <= m.refresh_mhz + 5);
    assert(decimal_mhz(rn) == rc * 10);
    assert(hz_tail_ok(t));
    assert(set_body_split_at(body, i));
    // the parser's witnesses are pinned by uniqueness
    let ci = choose|ii: int| set_body_split_at(body, ii);
    assert(set_body_split_at(body, ci));
    lemma_set_body_split_at_unique(body, ci, i);
    let cx = choose|xx: int| res_split_at(p, xx);
    assert(res_split_at(p, cx));
    assert(cx == x);
    assert(digits_value(p.subrange(0, cx)) == m.width);
    assert(digits_value(p.subrange(cx + 1, p.len() as int)) == m.height);
    assert(decimal_mhz(t.subrange(0, t.len() - 3)) == rc * 10);
    assert(spec_set_action_of(body) == Action::SetMode(m.width, m.height, (rc * 10) as u32));
    assert(10 * rc > m.refresh_mhz + 5 - 10);
    assert(rc * 10 >= m.refresh_mhz - 4);
    assert(spec_parse_action(L) == Some(spec_set_action_of(L.skip(7))));
}

/// Positions `i < j` frame a monitor name: `i` holds the first `'('` of `s`
/// and `j` the first `')'` after it.
pub open spec fn paren_pair_at(s: Seq<char>, i: int, j: int) -> bool {
    &&& 0 <= i < j < s.len()
    &&& s[i] == '('
    &&& (forall|k: int| 0 <= k < i ==> s[k] != '(')
    &&& s[j] == ')'
    &&& (forall|k: int| i < k < j ==> s[k] != ')')
}

/// `s` holds an opening parenthesis with a closing one after it.
pub open spec fn name_extract_ok(s: Seq<char>) -> bool {
    exists|i: int, j: int| paren_pair_at(s, i, j)
}

/// The substring strictly between the first `'('` of `s` and the next `')'`.
pub open spec fn spec_extract_name(s: Seq<char>) -> Seq<char> {
    let (i, j) = choose|i: int, j: int| paren_pair_at(s, i, j);
    s.subrange(i + 1, j)
}

proof fn lemma_paren_pair_at_unique(s: Seq<char>, i1: int, j1: int, i2: int, j2: int)
    requires
        paren_pair_at(s, i1, j1),
        paren_pair_at(s, i2, j2),
    ensures
        i1 == i2,
        j1 == j2,
{
}

/// Round trip of the monitor formatter and the name extraction: for a
/// description holding no `'('` and a name holding no `')'`, extracting the
/// monitor name from a formatted monitor line yields exactly the name.
#[verifier::rlimit(100)]
pub proof fn lemma_monitor_line_roundtrip(
    name: Seq<char>,
    desc: Seq<char>,
    w: int,
    h: int,
    mhz: int,
    enabled: bool,
    focused: bool,
)
    requires
        0 <= w,
        0 <= h,
        0 <= mhz,
        forall|k: int| 0 <= k < desc.len() ==> desc[k] != '(',
        forall|k: int| 0 <= k < name.len() ==> name[k] != ')',
    ensures
        name_extract_ok(monitor_line_text(name, desc, w, h, mhz, enabled, focused)),
        spec_extract_name(monitor_line_text(name, desc, w, h, mhz, enabled, focused)) == name,
{
    let L = monitor_line_text(name, desc, w, h, mhz, enabled, focused);
    let wn = numeral(w as nat);
    let hn = numeral(h as nat);
    let rn = refresh_2dp(mhz);
    lemma_numeral_props(w as nat);
    lemma_numeral_props(h as nat);
    lemma_refresh_2dp_props(mhz);
    let d0 = 4int;
    let n0 = d0 + desc.len();
    let w0 = n0 + 3;
    let x0 = w0 + wn.len();
    let h0 = x0 + 1;
    let a0 = h0 + hn.len();
    let r0 = a0 + 1;
    let z0 = r0 + rn.len();
    let i = z0 + 3;
    let j = i + 1 + name.len();
    assert(L.len() == j + 1);
    assert(L[1] == ' ' && L[3] == ' ');
    assert(forall|k: int| 0 <= k < desc.len() ==> L[d0 + k] == desc[k]);
    assert(L[n0] == ' ' && L[n0 + 1] == '-' && L[n0 + 2] == ' ');
    assert(forall|k: int| 0 <= k < wn.len() ==> L[w0 + k] == wn[k]);
    assert(L[x0] == 'x');
    assert(forall|k: int| 0 <= k < hn.len() ==> L[h0 + k] == hn[k]);
    assert(L[a0] == '@');
    assert(forall|k: int| 0 <= k < rn.len() ==> L[r0 + k] == rn[k]);
    assert(L[z0] == 'H' && L[z0 + 1] == 'z' && L[z0 + 2] == ' ' && L[i] == '(');
    assert(forall|k: int| 0 <= k < name.len() ==> L[i + 1 + k] == name[k]);
    assert(L[j] == ')');
    assert forall|k: int| 0 <= k < i implies L[k] != '(' by {
        if k < d0 {
        } else if k < n0 {
            assert(L[k] == desc[k - d0]);
        } else if k < w0 {
        } else if k < x0 {
            assert(is_digit(wn[k - w0]));
        } else if k == x0 {
        } else if k < a0 {
            assert(is_digit(hn[k - h0]));
        } else if k == a0 {
        } else if k < z0 {
            assert(is_digit(rn[k - r0]) || rn[k - r0] == '.');
        } else {
        }
    }
    assert forall|k: int| i < k < j implies L[k] != ')' by {
        assert(L[k] == name[k - i - 1]);
    }
    assert(paren_pair_at(L, i, j));
    let (ci, cj) = choose|ii: int, jj: int| paren_pair_at(L, ii, jj);
    assert(paren_pair_at(L, ci, cj));
    lemma_paren_pair_at_unique(L, ci, cj, i, j);
    assert(L.subrange(i + 1, j) =~= name);
}

/// Extracts the monitor name from a menu line: the substring strictly between
/// the first `'('` and the next `')'` after it; fails when either is missing.
pub fn parse_monitor_name_from_selection(selection: &str) -> (r: Option<String>)
    ensures
        r is Some <==> name_extract_ok(selection@),
        r matches Some(v) ==> v@ == spec_extract_name(selection@),
{
    let n = selection.unicode_len();
    let i = match find_char_range(selection, '(', 0, n) {
        Some(i) => i,
        None => {
            return None;
        },
    };
    let j = match find_char_range(selection, ')', i + 1, n) {
        Some(j) => j,
        None => {
            proof {
                assert forall|ii: int, jj: int| !paren_pair_at(selection@, ii, jj) by {}
            }
            return None;
        },
    };
    let name = selection.substring_char(i + 1, j).to_owned();
    proof {
        assert(paren_pair_at(selection@, i as int, j as int));
        let (ci, cj) = choose|ii: int, jj: int| paren_pair_at(selection@, ii, jj);
        assert(paren_pair_at(selection@, ci, cj));
        lemma_paren_pair_at_unique(selection@, ci, cj, i as int, j as int);
    }
    Some(name)
}

} // verus!

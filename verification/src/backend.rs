//! Monitor and mode records for the Hyprland compositor, best-effort parsing
//! of raw mode strings of the shape `"<W>x<H>@<R>Hz"`, and the argument lists
//! handed to the external `hyprctl` control utility.
//!
//! Refresh rates are carried as integer millihertz throughout, so that the
//! two-decimal display precision and the current-mode tolerance are exact.

use vstd::prelude::*;
use vstd::string::StrSliceExecFns;
use vstd::string::StringExecFns;

use crate::text::all_digits;
use crate::text::decimal_mhz;
use crate::text::decimal_shape;
use crate::text::digits_value;
use crate::text::numeral;
use crate::text::refresh_2dp;
use crate::text::append_u32;
use crate::text::append_refresh_2dp;
use crate::text::find_char_range;
use crate::text::parse_u32_range;
use crate::text::parse_refresh_mhz_range;

verus! {

/// A display mode: width and height in pixels, refresh rate in millihertz.
#[derive(Debug, Clone, Copy, PartialEq, Eq, Structural)]
pub struct Mode {
    pub width: u32,
    pub height: u32,
    pub refresh_mhz: u32,
}

/// A snapshot of one monitor as reported by the compositor: identifying name,
/// human-readable description, current geometry and refresh rate (millihertz),
/// focus and enabled state, and the raw available-mode strings.
#[derive(Debug, Clone)]
pub struct HyprlandMonitor {
    pub name: String,
    pub description: String,
    pub width: u32,
    pub height: u32,
    pub refresh_mhz: u32,
    pub focused: bool,
    pub dpms_status: bool,
    pub available_modes: Vec<String>,
}

/// The refresh field of a raw mode string: a decimal numeral followed by the
/// suffix `"Hz"`, with a millihertz value that fits in a `u32`.
pub open spec fn hz_field_ok(r: Seq<char>) -> bool {
    &&& r.len() >= 2
    &&& r[r.len() - 2] == 'H'
    &&& r[r.len() - 1] == 'z'
    &&& decimal_shape(r.subrange(0, r.len() - 2))
    &&& decimal_mhz(r.subrange(0, r.len() - 2)) <= u32::MAX
}

/// The resolution part of a raw mode string splits at position `x` into two
/// non-empty digit strings whose values fit in a `u32`.
pub open spec fn res_split_at(p: Seq<char>, x: int) -> bool {
    &&& 0 <= x < p.len()
    &&& p[x] == 'x'
    &&& (forall|j: int| 0 <= j < p.len() && p[j] == 'x' ==> j == x)
    &&& x >= 1
    &&& all_digits(p.subrange(0, x))
    &&& digits_value(p.subrange(0, x)) <= u32::MAX
    &&& x + 1 < p.len()
    &&& all_digits(p.subrange(x + 1, p.len() as int))
    &&& digits_value(p.subrange(x + 1, p.len() as int)) <= u32::MAX
}

/// A raw mode string splits at position `a` into `"<W>x<H>"` and `"<R>Hz"`,
/// with `a` the position of the only `'@'`.
pub open spec fn mode_split_at(s: Seq<char>, a: int) -> bool {
    &&& 0 <= a < s.len()
    &&& s[a] == '@'
    &&& (forall|j: int| 0 <= j < s.len() && s[j] == '@' ==> j == a)
    &&& (exists|x: int| res_split_at(s.subrange(0, a), x))
    &&& hz_field_ok(s.subrange(a + 1, s.len() as int))
}

/// `s` has the exact shape `"<W>x<H>@<R>Hz"`.
pub open spec fn mode_string_ok(s: Seq<char>) -> bool {
    exists|a: int| mode_split_at(s, a)
}

/// The mode described by a well-shaped raw mode string.
pub open spec fn spec_mode_of(s: Seq<char>) -> Mode {
    let a = choose|a: int| mode_split_at(s, a);
    let p = s.subrange(0, a);
    let x = choose|x: int| res_split_at(p, x);
    let rb = s.subrange(a + 1, s.len() as int).subrange(0, s.len() - a - 1 - 2);
    Mode {
        width: digits_value(p.subrange(0, x)) as u32,
        height: digits_value(p.subrange(x + 1, p.len() as int)) as u32,
        refresh_mhz: decimal_mhz(rb) as u32,
    }
}

/// What parsing one raw mode string yields: the described mode for a
/// well-shaped string, nothing otherwise.
pub open spec fn spec_parse_mode(s: Seq<char>) -> Option<Mode> {
    if mode_string_ok(s) {
        Some(spec_mode_of(s))
    } else {
        None
    }
}

/// What parsing a list of raw mode strings yields: one mode per well-shaped
/// entry, in input order, ill-shaped entries silently dropped.
pub open spec fn spec_parse_modes(ss: Seq<Seq<char>>) -> Seq<Mode>
    decreases ss.len(),
{
    if ss.len() == 0 {
        Seq::empty()
    } else {
        spec_parse_modes(ss.drop_last()) + match spec_parse_mode(ss.last()) {
            Some(m) => seq![m],
            None => Seq::empty(),
        }
    }
}

proof fn lemma_mode_split_at_unique(s: Seq<char>, a1: int, a2: int)
    requires
        mode_split_at(s, a1),
        mode_split_at(s, a2),
    ensures
        a1 == a2,
{
}

proof fn lemma_res_split_at_unique(p: Seq<char>, x1: int, x2: int)
    requires
        res_split_at(p, x1),
        res_split_at(p, x2),
    ensures
        x1 == x2,
{
}

/// Parses one raw mode string of the exact shape `"<W>x<H>@<R>Hz"`.
pub fn parse_mode(s: &str) -> (r: Option<Mode>)
    ensures
        r == spec_parse_mode(s@),
{
    let n = s.unicode_len();
    let a = match find_char_range(s, '@', 0, n) {
        Some(a) => a,
        None => {
            return None;
        },
    };
    if let Some(_) = find_char_range(s, '@', a + 1, n) {
        proof {
            assert forall|aa: int| !mode_split_at(s@, aa) by {}
        }
        return None;
    }
    // '@' occurs exactly once, at a
    proof {
        assert forall|aa: int| mode_split_at(s@, aa) implies aa == a by {}
    }
    let ghost p = s@.subrange(0, a as int);
    let x = match find_char_range(s, 'x', 0, a) {
        Some(x) => x,
        None => {
            proof {
                assert forall|xx: int| !res_split_at(p, xx) by {
                    if 0 <= xx < p.len() {
                        assert(p[xx] == s@[xx]);
                    }
                }
            }
            return None;
        },
    };
    if let Some(x2) = find_char_range(s, 'x', x + 1, a) {
        proof {
            assert(p[x2 as int] == s@[x2 as int]);
            assert(p[x as int] == s@[x as int]);
            assert forall|xx: int| !res_split_at(p, xx) by {}
        }
        return None;
    }
    proof {
        assert(p[x as int] == s@[x as int]);
        assert forall|xx: int| res_split_at(p, xx) implies xx == x by {
            assert(p[xx] == s@[xx]);
        }
        assert(p.subrange(0, x as int) =~= s@.subrange(0, x as int));
        assert(p.subrange(x as int + 1, p.len() as int) =~= s@.subrange(x as int + 1, a as int));
    }
    let w = match parse_u32_range(s, 0, x) {
        Some(w) => w,
        None => {
            proof {
                assert forall|xx: int| !res_split_at(p, xx) by {}
            }
            return None;
        },
    };
    let h = match parse_u32_range(s, x + 1, a) {
        Some(h) => h,
        None => {
            proof {
                assert forall|xx: int| !res_split_at(p, xx) by {}
            }
            return None;
        },
    };
    // the refresh field: "<R>Hz"
    let ghost rfield = s@.subrange(a as int + 1, s@.len() as int);
    if n - a - 1 < 2 {
        return None;
    }
    proof {
        assert(rfield[rfield.len() - 2] == s@[n - 2]);
        assert(rfield[rfield.len() - 1] == s@[n - 1]);
    }
    if s.get_char(n - 2) != 'H' || s.get_char(n - 1) != 'z' {
        return None;
    }
    proof {
        assert(rfield.subrange(0, rfield.len() - 2) =~= s@.subrange(a as int + 1, n as int - 2));
    }
    let mhz = match parse_refresh_mhz_range(s, a + 1, n - 2) {
        Some(v) => v,
        None => {
            return None;
        },
    };
    proof {
        assert(res_split_at(p, x as int));
        assert(hz_field_ok(rfield));
        assert(mode_split_at(s@, a as int));
        let ca = choose|aa: int| mode_split_at(s@, aa);
        assert(mode_split_at(s@, ca));
        lemma_mode_split_at_unique(s@, ca, a as int);
        let cx = choose|xx: int| res_split_at(p, xx);
        assert(res_split_at(p, cx));
        lemma_res_split_at_unique(p, cx, x as int);
    }
    Some(Mode { width: w, height: h, refresh_mhz: mhz })
}

pub struct HyprlandBackend;

impl HyprlandBackend {
    pub fn new() -> (r: Self) {
        Self
    }

    /// Parses a list of raw mode strings, best-effort: each entry of the
    /// exact shape `"<W>x<H>@<R>Hz"` yields one mode, in input order; any
    /// other entry is dropped without affecting the rest.
    pub fn parse_modes(mode_strings: &Vec<String>) -> (r: Vec<Mode>)
        ensures
            r@ == spec_parse_modes(mode_strings.deep_view()),
    {
        let ghost dv = mode_strings.deep_view();
        let mut r: Vec<Mode> = Vec::new();
        let mut i: usize = 0;
        proof {
            assert(dv.subrange(0, 0) =~= Seq::<Seq<char>>::empty());
        }
        while i < mode_strings.len()
            invariant
                i <= mode_strings@.len(),
                dv == mode_strings.deep_view(),
                dv.len() == mode_strings@.len(),
                forall|j: int| 0 <= j < dv.len() ==> dv[j] == mode_strings@[j]@,
                r@ == spec_parse_modes(dv.subrange(0, i as int)),
            decreases mode_strings@.len() - i,
        {
            let parsed = parse_mode(mode_strings[i].as_str());
            proof {
                assert(dv.subrange(0, i as int + 1).drop_last() =~= dv.subrange(0, i as int));
                assert(dv.subrange(0, i as int + 1).last() == dv[i as int]);
            }
            match parsed {
                Some(m) => {
                    r.push(m);
                    proof {
                        assert(r@ =~= spec_parse_modes(dv.subrange(0, i as int + 1)));
                    }
                },
                None => {
                    proof {
                        assert(r@ =~= spec_parse_modes(dv.subrange(0, i as int + 1)));
                    }
                },
            }
            i = i + 1;
        }
        proof {
            assert(dv.subrange(0, i as int) =~= dv);
        }
        r
    }

    /// The `hyprctl` argument list that sets a named monitor to an explicit
    /// mode with automatic positioning:
    /// `keyword monitor <name>,<W>x<H>@<R:2dp>,auto,1`.
    pub fn set_monitor_mode(&self, monitor: &str, width: u32, height: u32, refresh_mhz: u32) -> (r:
        Vec<String>)
        ensures
            r@.len() == 3,
            r@[0]@ == keyword_text(),
            r@[1]@ == monitor_text(),
            r@[2]@ == set_mode_config(monitor@, width as int, height as int, refresh_mhz as int),
    {
        let mut cfg = monitor.to_owned();
        cfg.append(",");
        append_u32(&mut cfg, width);
        cfg.append("x");
        append_u32(&mut cfg, height);
        cfg.append("@");
        append_refresh_2dp(&mut cfg, refresh_mhz);
        cfg.append(",auto,1");
        proof {
            reveal_strlit(",");
            reveal_strlit("x");
            reveal_strlit("@");
            reveal_strlit(",auto,1");
            assert(cfg@ =~= set_mode_config(
                monitor@,
                width as int,
                height as int,
                refresh_mhz as int,
            ));
        }
        hyprctl_args(cfg)
    }

    /// The `hyprctl` argument list that enables a named monitor at its
    /// preferred mode: `keyword monitor <name>,preferred,auto,1`.
    pub fn enable_monitor(&self, monitor: &str) -> (r: Vec<String>)
        ensures
            r@.len() == 3,
            r@[0]@ == keyword_text(),
            r@[1]@ == monitor_text(),
            r@[2]@ == monitor@ + enable_suffix(),
    {
        let mut cfg = monitor.to_owned();
        cfg.append(",preferred,auto,1");
        proof {
            reveal_strlit(",preferred,auto,1");
            assert(cfg@ =~= monitor@ + enable_suffix());
        }
        hyprctl_args(cfg)
    }

    /// The `hyprctl` argument list that disables a named monitor:
    /// `keyword monitor <name>,disable`.
    pub fn disable_monitor(&self, monitor: &str) -> (r: Vec<String>)
        ensures
            r@.len() == 3,
            r@[0]@ == keyword_text(),
            r@[1]@ == monitor_text(),
            r@[2]@ == monitor@ + disable_suffix(),
    {
        let mut cfg = monitor.to_owned();
        cfg.append(",disable");
        proof {
            reveal_strlit(",disable");
            assert(cfg@ =~= monitor@ + disable_suffix());
        }
        hyprctl_args(cfg)
    }
}

/// The characters of `"keyword"`, the first `hyprctl` argument.
pub open spec fn keyword_text() -> Seq<char> {
    seq!['k', 'e', 'y', 'w', 'o', 'r', 'd']
}

/// The characters of `"monitor"`, the second `hyprctl` argument.
pub open spec fn monitor_text() -> Seq<char> {
    seq!['m', 'o', 'n', 'i', 't', 'o', 'r']
}

/// The configuration suffix that enables a monitor at its preferred mode.
pub open spec fn enable_suffix() -> Seq<char> {
    seq![',', 'p', 'r', 'e', 'f', 'e', 'r', 'r', 'e', 'd', ',', 'a', 'u', 't', 'o', ',', '1']
}

/// The configuration suffix that disables a monitor.
pub open spec fn disable_suffix() -> Seq<char> {
    seq![',', 'd', 'i', 's', 'a', 'b', 'l', 'e']
}

/// The configuration suffix for automatic positioning and unit scale.
pub open spec fn auto_suffix() -> Seq<char> {
    seq![',', 'a', 'u', 't', 'o', ',', '1']
}

/// The monitor configuration that sets an explicit mode:
/// `<name>,<W>x<H>@<R:2dp>,auto,1`.
pub open spec fn set_mode_config(monitor: Seq<char>, w: int, h: int, mhz: int) -> Seq<char> {
    monitor + seq![','] + numeral(w as nat) + seq!['x'] + numeral(h as nat) + seq!['@']
        + refresh_2dp(mhz) + auto_suffix()
}

/// Wraps a monitor configuration in the full `hyprctl` argument list.
fn hyprctl_args(cfg: String) -> (r: Vec<String>)
    ensures
        r@.len() == 3,
        r@[0]@ == keyword_text(),
        r@[1]@ == monitor_text(),
        r@[2]@ == cfg@,
{
    let mut r: Vec<String> = Vec::new();
    let kw = String::from_str("keyword");
    proof {
        reveal_strlit("keyword");
        assert(kw@ =~= keyword_text());
    }
    let mon = String::from_str("monitor");
    proof {
        reveal_strlit("monitor");
        assert(mon@ =~= monitor_text());
    }
    r.push(kw);
    r.push(mon);
    r.push(cfg);
    r
}

} // verus!

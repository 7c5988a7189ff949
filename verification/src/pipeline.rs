//! The selection pipeline: the two menus in their strict sequence, the
//! resolution of each returned selection, and the confirmation text of the
//! dispatched action. The caller performs the blocking external calls (the
//! monitor query, the menu launcher, the control utility) between the steps.

use vstd::prelude::*;
use vstd::string::StringExecFns;

use crate::Action;
use crate::str_eq;
use crate::backend::HyprlandBackend;
use crate::backend::HyprlandMonitor;
use crate::backend::spec_parse_modes;
use crate::disable_text;
use crate::enable_text;
use crate::format_mode_for_display;
use crate::format_monitor_for_display;
use crate::mode_line_text;
use crate::monitor_line_text;
use crate::name_extract_ok;
use crate::parse_monitor_name_from_selection;
use crate::spec_extract_name;
use crate::spec_parse_action;
use crate::text::numeral;
use crate::text::refresh_2dp;
use crate::text::append_u32;
use crate::text::append_refresh_2dp;

verus! {

/// Why a selection round failed. Every failure is fatal to the run; no action
/// is ever defaulted.
#[derive(Debug, Clone, Copy, PartialEq, Eq, Structural)]
pub enum SelectionError {
    /// The returned monitor selection held no parenthesized name.
    NoMonitorName,
    /// The extracted name matched no monitor in the live list.
    MonitorNotFound,
    /// The returned action selection matched none of the recognized shapes.
    UnrecognizedAction,
}

impl SelectionError {
    /// The user-facing, single-line message for this failure.
    pub fn message(&self) -> (r: String)
        ensures
            *self == SelectionError::NoMonitorName ==> r@
                == "Failed to parse monitor name from selection"@,
            *self == SelectionError::MonitorNotFound ==> r@ == "Selected monitor not found"@,
            *self == SelectionError::UnrecognizedAction ==> r@
                == "Failed to parse action from selection"@,
    {
        match self {
            SelectionError::NoMonitorName => String::from_str(
                "Failed to parse monitor name from selection",
            ),
            SelectionError::MonitorNotFound => String::from_str("Selected monitor not found"),
            SelectionError::UnrecognizedAction => String::from_str(
                "Failed to parse action from selection",
            ),
        }
    }
}

/// The monitor menu: one formatted line per monitor, in list order. An empty
/// monitor list yields an empty menu, the early-exit case of the pipeline.
pub fn monitor_menu(monitors: &Vec<HyprlandMonitor>) -> (r: Vec<String>)
    ensures
        r@.len() == monitors@.len(),
        forall|k: int|
            0 <= k < r@.len() ==> r@[k]@ == monitor_line_text(
                monitors@[k].name@,
                monitors@[k].description@,
                monitors@[k].width as int,
                monitors@[k].height as int,
                monitors@[k].refresh_mhz as int,
                monitors@[k].dpms_status,
                monitors@[k].focused,
            ),
{
    let mut r: Vec<String> = Vec::new();
    let mut i: usize = 0;
    while i < monitors.len()
        invariant
            i <= monitors@.len(),
            r@.len() == i,
            forall|k: int|
                0 <= k < i ==> r@[k]@ == monitor_line_text(
                    monitors@[k].name@,
                    monitors@[k].description@,
                    monitors@[k].width as int,
                    monitors@[k].height as int,
                    monitors@[k].refresh_mhz as int,
                    monitors@[k].dpms_status,
                    monitors@[k].focused,
                ),
        decreases monitors@.len() - i,
    {
        let line = format_monitor_for_display(&monitors[i]);
        r.push(line);
        i = i + 1;
    }
    r
}

/// Resolves the monitor-menu selection: extracts the parenthesized name and
/// finds the first monitor of that name in the live list. Either failure is
/// fatal.
pub fn select_monitor(monitors: &Vec<HyprlandMonitor>, selection: &str) -> (r: Result<
    usize,
    SelectionError,
>)
    ensures
        !name_extract_ok(selection@) ==> r == Err::<usize, SelectionError>(
            SelectionError::NoMonitorName,
        ),
        name_extract_ok(selection@) ==> ({
            let nm = spec_extract_name(selection@);
            if exists|k: int| 0 <= k < monitors@.len() && monitors@[k].name@ == nm {
                &&& r matches Ok(ix)
                &&& 0 <= (ix as int) < monitors@.len()
                &&& monitors@[ix as int].name@ == nm
                &&& forall|k: int| 0 <= k < ix as int ==> monitors@[k].name@ != nm
            } else {
                r == Err::<usize, SelectionError>(SelectionError::MonitorNotFound)
            }
        }),
{
    let name = match parse_monitor_name_from_selection(selection) {
        Some(n) => n,
        None => {
            return Err(SelectionError::NoMonitorName);
        },
    };
    let mut ix: usize = 0;
    while ix < monitors.len()
        invariant
            ix <= monitors@.len(),
            name_extract_ok(selection@),
            name@ == spec_extract_name(selection@),
            forall|k: int| 0 <= k < ix ==> monitors@[k].name@ != name@,
        decreases monitors@.len() - ix,
    {
        if str_eq(monitors[ix].name.as_str(), name.as_str()) {
            return Ok(ix);
        }
        ix = ix + 1;
    }
    Err(SelectionError::MonitorNotFound)
}

/// The action menu for the selected monitor: one line per parseable raw mode
/// string, marked against the monitor's current geometry and refresh rate,
/// then exactly one synthetic toggle entry: `"Disable monitor"` when the
/// monitor is enabled, `"Enable monitor"` otherwise.
pub fn action_menu(monitor: &HyprlandMonitor) -> (r: Vec<String>)
    ensures
        ({
            let modes = spec_parse_modes(monitor.available_modes.deep_view());
            &&& r@.len() == modes.len() + 1
            &&& (forall|k: int|
                0 <= k < modes.len() ==> r@[k]@ == mode_line_text(
                    modes[k],
                    monitor.width as int,
                    monitor.height as int,
                    monitor.refresh_mhz as int,
                ))
            &&& r@[modes.len() as int]@ == (if monitor.dpms_status {
                disable_text()
            } else {
                enable_text()
            })
        }),
{
    let modes = HyprlandBackend::parse_modes(&monitor.available_modes);
    let ghost specs = spec_parse_modes(monitor.available_modes.deep_view());
    let mut r: Vec<String> = Vec::new();
    let mut i: usize = 0;
    while i < modes.len()
        invariant
            i <= modes@.len(),
            modes@ == specs,
            r@.len() == i,
            forall|k: int|
                0 <= k < i ==> r@[k]@ == mode_line_text(
                    specs[k],
                    monitor.width as int,
                    monitor.height as int,
                    monitor.refresh_mhz as int,
                ),
        decreases modes@.len() - i,
    {
        let line = format_mode_for_display(
            &modes[i],
            monitor.width,
            monitor.height,
            monitor.refresh_mhz,
        );
        r.push(line);
        i = i + 1;
    }
    if monitor.dpms_status {
        let entry = String::from_str("Disable monitor");
        proof {
            reveal_strlit("Disable monitor");
            assert(entry@ =~= disable_text());
        }
        r.push(entry);
    } else {
        let entry = String::from_str("Enable monitor");
        proof {
            reveal_strlit("Enable monitor");
            assert(entry@ =~= enable_text());
        }
        r.push(entry);
    }
    r
}

/// The characters of the action-menu prompt prefix `"Action for "`.
pub open spec fn action_for_text() -> Seq<char> {
    seq!['A', 'c', 't', 'i', 'o', 'n', ' ', 'f', 'o', 'r', ' ']
}

/// The prompt shown with the action menu: `"Action for <name>:"`.
pub fn action_prompt(name: &str) -> (r: String)
    ensures
        r@ == action_for_text() + name@ + seq![':'],
{
    let mut out = String::from_str("Action for ");
    out.append(name);
    out.append(":");
    proof {
        reveal_strlit("Action for ");
        reveal_strlit(":");
        assert(out@ =~= action_for_text() + name@ + seq![':']);
    }
    out
}

/// Resolves the action-menu selection into a typed action; an unrecognized
/// selection is fatal.
pub fn select_action(selection: &str) -> (r: Result<Action, SelectionError>)
    ensures
        spec_parse_action(selection@) matches Some(a) ==> r == Ok::<Action, SelectionError>(a),
        spec_parse_action(selection@) is None ==> r == Err::<Action, SelectionError>(
            SelectionError::UnrecognizedAction,
        ),
{
    match Action::parse_from_selection(selection) {
        Some(a) => Ok(a),
        None => Err(SelectionError::UnrecognizedAction),
    }
}

/// The characters of the confirmation prefix `"Set monitor "`.
pub open spec fn set_confirm_prefix() -> Seq<char> {
    seq!['S', 'e', 't', ' ', 'm', 'o', 'n', 'i', 't', 'o', 'r', ' ']
}

/// The characters of the confirmation infix `" to "`.
pub open spec fn to_text() -> Seq<char> {
    seq![' ', 't', 'o', ' ']
}

/// The characters of the confirmation prefix `"Enabled monitor "`.
pub open spec fn enabled_confirm_prefix() -> Seq<char> {
    seq!['E', 'n', 'a', 'b', 'l', 'e', 'd', ' ', 'm', 'o', 'n', 'i', 't', 'o', 'r', ' ']
}

/// The characters of the confirmation prefix `"Disabled monitor "`.
pub open spec fn disabled_confirm_prefix() -> Seq<char> {
    seq!['D', 'i', 's', 'a', 'b', 'l', 'e', 'd', ' ', 'm', 'o', 'n', 'i', 't', 'o', 'r', ' ']
}

/// The confirmation text of a set-mode dispatch:
/// `"Set monitor <name> to <W>x<H>@<R:2dp>Hz"`.
pub open spec fn set_confirm_text(name: Seq<char>, w: int, h: int, mhz: int) -> Seq<char> {
    set_confirm_prefix() + name + to_text() + numeral(w as nat) + seq!['x'] + numeral(h as nat)
        + seq!['@'] + refresh_2dp(mhz) + seq!['H', 'z']
}

/// The confirmation message describing the applied action.
pub fn confirmation_message(action: &Action, name: &str) -> (r: String)
    ensures
        *action matches Action::SetMode(w, h, mhz) ==> r@ == set_confirm_text(
            name@,
            w as int,
            h as int,
            mhz as int,
        ),
        *action == Action::Enable ==> r@ == enabled_confirm_prefix() + name@,
        *action == Action::Disable ==> r@ == disabled_confirm_prefix() + name@,
{
    match action {
        Action::SetMode(w, h, mhz) => {
            let mut out = String::from_str("Set monitor ");
            out.append(name);
            out.append(" to ");
            append_u32(&mut out, *w);
            out.append("x");
            append_u32(&mut out, *h);
            out.append("@");
            append_refresh_2dp(&mut out, *mhz);
            out.append("Hz");
            proof {
                reveal_strlit("Set monitor ");
                reveal_strlit(" to ");
                reveal_strlit("x");
                reveal_strlit("@");
                reveal_strlit("Hz");
                assert(out@ =~= set_confirm_text(name@, *w as int, *h as int, *mhz as int));
            }
            out
        },
        Action::Enable => {
            let mut out = String::from_str("Enabled monitor ");
            out.append(name);
            proof {
                reveal_strlit("Enabled monitor ");
                assert(out@ =~= enabled_confirm_prefix() + name@);
            }
            out
        },
        Action::Disable => {
            let mut out = String::from_str("Disabled monitor ");
            out.append(name);
            proof {
                reveal_strlit("Disabled monitor ");
                assert(out@ =~= disabled_confirm_prefix() + name@);
            }
            out
        },
    }
}

} // verus!

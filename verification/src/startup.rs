use crate::text::{ascii_small, is_text, trim, trimmed};
use vstd::prelude::*;

verus! {

/// A setting without the white space around it and with small letters.
pub open spec fn normalized(raw: Seq<char>) -> Seq<char> {
    lowered(trimmed(raw))
}

/// A setting with small letters.
pub open spec fn lowered(raw: Seq<char>) -> Seq<char> {
    raw.map_values(|c: char| ascii_small(c))
}

/// The automatic mode as the rest of the program knows it.
pub fn normalize_auto_mode(raw: &str) -> (mode: String)
    ensures
        mode@ == normalized(raw@),
{
    trim(raw).as_str().to_ascii_lowercase()
}

/// What the automatic quoting does.
#[derive(Debug, Clone, Copy, PartialEq, Eq, Structural)]
pub struct AutoMode {
    /// Markets are scanned and quotes planned.
    pub enabled: bool,
    /// Planned quotes are sent as orders; otherwise they are only logged.
    pub live: bool,
    /// Sending orders was asked for but is not allowed.
    pub unconfirmed: bool,
    /// The mode is none that exists.
    pub unknown: bool,
}

pub open spec fn auto_mode_of(mode: Seq<char>, live_allowed: bool) -> AutoMode {
    AutoMode {
        enabled: mode == "shadow"@ || mode == "live"@,
        live: live_allowed,
        unconfirmed: mode == "live"@ && !live_allowed,
        unknown: mode.len() > 0 && mode != "off"@ && mode != "shadow"@ && mode != "live"@,
    }
}

/// What a normalised mode means, given whether its confirmation allows sending orders.
pub fn resolve_auto_mode(mode: &str, live_allowed: bool) -> (r: AutoMode)
    ensures
        r == auto_mode_of(mode@, live_allowed),
{
    let shadow = is_text(mode, "shadow");
    let live = is_text(mode, "live");
    let off = is_text(mode, "off");
    AutoMode {
        enabled: shadow || live,
        live: live_allowed,
        unconfirmed: live && !live_allowed,
        unknown: !mode.is_empty() && !off && !shadow && !live,
    }
}

/// How the state of the program is shown.
#[derive(Debug, Clone, Copy, PartialEq, Eq, Structural)]
pub enum UserInterface {
    /// The dashboard is served, and a browser opened on it.
    WebOpened,
    /// The dashboard is served, and its address logged.
    WebLogged,
    Terminal,
    Hidden,
}

pub open spec fn interface_of(ui_mode: Seq<char>, dashboard: bool, auto_open: bool) -> UserInterface {
    if lowered(ui_mode) == "web"@ && dashboard {
        if auto_open {
            UserInterface::WebOpened
        } else {
            UserInterface::WebLogged
        }
    } else if lowered(ui_mode) == "tui"@ {
        UserInterface::Terminal
    } else {
        UserInterface::Hidden
    }
}

/// The interface that the settings ask for.
pub fn choose_interface(ui_mode: &str, dashboard_enabled: bool, auto_open: bool) -> (r: UserInterface)
    ensures
        r == interface_of(ui_mode@, dashboard_enabled, auto_open),
{
    let mode = ui_mode.to_ascii_lowercase();
    if is_text(mode.as_str(), "web") && dashboard_enabled {
        if auto_open {
            UserInterface::WebOpened
        } else {
            UserInterface::WebLogged
        }
    } else if is_text(mode.as_str(), "tui") {
        UserInterface::Terminal
    } else {
        UserInterface::Hidden
    }
}

/// Asking to send orders without being allowed to leaves the quotes planned and none sent.
pub proof fn lemma_unconfirmed_live_is_shadow(mode: Seq<char>)
    requires
        mode == "live"@,
    ensures
        auto_mode_of(mode, false).enabled,
        !auto_mode_of(mode, false).live,
        auto_mode_of(mode, false).unconfirmed,
{
}

/// A mode that does not exist switches the quoting off.
pub proof fn lemma_unknown_mode_is_off(mode: Seq<char>, live_allowed: bool)
    requires
        auto_mode_of(mode, live_allowed).unknown,
    ensures
        !auto_mode_of(mode, live_allowed).enabled,
{
}

} // verus!

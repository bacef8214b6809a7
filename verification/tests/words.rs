use rust_mm_bot::startup::{
    choose_interface, normalize_auto_mode, resolve_auto_mode, AutoMode, UserInterface,
};
use rust_mm_bot::text::{is_blank, is_text, precedes, trim};

#[test]
fn trim_cuts_what_the_standard_library_cuts() {
    for n in 0..0x11_0000u32 {
        if let Some(c) = char::from_u32(n) {
            let text = c.to_string();
            assert_eq!(trim(&text), text.trim(), "U+{:04X}", n);
        }
    }
    for text in ["", "   ", " a", "a ", " a b ", "\u{a0}\u{3000}x\n\t", "x"] {
        assert_eq!(trim(text), text.trim());
        assert_eq!(is_blank(text), text.trim().is_empty());
    }
}

#[test]
fn texts_are_ordered_as_the_standard_library_orders_them() {
    let list = ["", "a", "aa", "ab", "b", "B", "10", "9", "\u{e9}", "z", "\u{1F600}", "\u{FFFD}"];
    for a in list {
        for b in list {
            assert_eq!(precedes(a, b), a < b);
            assert_eq!(is_text(a, b), a == b);
        }
    }
}

#[test]
fn auto_mode_is_normalised() {
    assert_eq!(normalize_auto_mode("  LIVE\n"), "live");
    assert_eq!(normalize_auto_mode("Shadow"), "shadow");
    assert_eq!(normalize_auto_mode("\u{c9}OFF"), "\u{c9}off");
    assert_eq!(normalize_auto_mode("   "), "");
}

fn mode(enabled: bool, live: bool, unconfirmed: bool, unknown: bool) -> AutoMode {
    AutoMode { enabled, live, unconfirmed, unknown }
}

#[test]
fn live_without_confirmation_runs_in_shadow() {
    assert_eq!(resolve_auto_mode("live", false), mode(true, false, true, false));
    assert_eq!(resolve_auto_mode("live", true), mode(true, true, false, false));
}

#[test]
fn other_modes_are_off_or_shadow() {
    assert_eq!(resolve_auto_mode("shadow", false), mode(true, false, false, false));
    assert_eq!(resolve_auto_mode("off", false), mode(false, false, false, false));
    assert_eq!(resolve_auto_mode("", false), mode(false, false, false, false));
    assert_eq!(resolve_auto_mode("paper", false), mode(false, false, false, true));
}

#[test]
fn interface_follows_the_settings() {
    assert_eq!(choose_interface("WEB", true, true), UserInterface::WebOpened);
    assert_eq!(choose_interface("web", true, false), UserInterface::WebLogged);
    assert_eq!(choose_interface("web", false, true), UserInterface::Hidden);
    assert_eq!(choose_interface("Tui", false, false), UserInterface::Terminal);
    assert_eq!(choose_interface(" web", true, true), UserInterface::Hidden);
    assert_eq!(choose_interface("none", true, true), UserInterface::Hidden);
}

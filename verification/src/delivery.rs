//! Delivery of the final text: clipboard first, then a synthesized paste
//! keystroke.
//!
//! The paste keystroke uses the keycode that currently produces the letter
//! `v` under the active keyboard layout, so paste works under non-QWERTY and
//! non-Latin layouts. Layout inspection happens outside and hands in its
//! result; when it fails, the standard QWERTY physical keycode is used.

use vstd::prelude::*;

verus! {

/// Physical keycode of the `v` key on a QWERTY layout.
pub const QWERTY_V_KEYCODE: u16 = 9;

/// The keycode to synthesize for paste: the layout-resolved keycode for the
/// letter `v` when layout inspection produced one, else the QWERTY default.
pub fn get_paste_keycode(resolved: Option<u16>) -> (k: u16)
    ensures
        k == match resolved {
            Some(c) => c,
            None => QWERTY_V_KEYCODE,
        },
{
    match resolved {
        Some(c) => c,
        None => QWERTY_V_KEYCODE,
    }
}

/// Whether and with which keycode to send the paste keystroke: only after
/// the clipboard write succeeded, and never with stale clipboard content.
pub fn paste_plan(clipboard_ok: bool, resolved: Option<u16>) -> (p: Option<u16>)
    ensures
        p is Some <==> clipboard_ok,
        clipboard_ok ==> p == Some(
            match resolved {
                Some(c) => c,
                None => QWERTY_V_KEYCODE,
            },
        ),
{
    if clipboard_ok {
        Some(get_paste_keycode(resolved))
    } else {
        None
    }
}

} // verus!

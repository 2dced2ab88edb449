//! Pasting into other windows: what is decided, and in which order.
use crate::find::starts_with;
use crate::text::same_text;
use vstd::prelude::*;

verus! {

use crate::text::opt_view;

/// Whether windows of a class take no paste message: the text area is none of the
/// system's own controls.
pub open spec fn draws_its_own_text(class: Seq<char>) -> bool {
    "Chrome_WidgetWin"@.is_prefix_of(class) || class == "MozillaWindowClass"@
}

/// Whether windows of a class take no paste message.
pub fn is_chromium_class(class: &str) -> (r: bool)
    ensures
        r == draws_its_own_text(class@),
{
    starts_with(class, "Chrome_WidgetWin") || same_text(class, "MozillaWindowClass")
}

/// How a paste is brought about.
#[derive(Debug, Clone, Copy, PartialEq, Eq, Structural)]
pub enum Route {
    /// By a message to the focused control.
    Message,
    /// By pressing the keys.
    Keys,
}

/// How a paste into a window begins: by the keys where there is no window, or one
/// that takes no message. The class is absent where the system does not tell it.
pub open spec fn first_route(target: isize, class: Option<Seq<char>>) -> Route {
    if target == 0 {
        Route::Keys
    } else {
        match class {
            Some(c) => if draws_its_own_text(c) {
                Route::Keys
            } else {
                Route::Message
            },
            None => Route::Message,
        }
    }
}

/// How a paste into a window begins.
pub fn paste_route(target: isize, class: &Option<String>) -> (r: Route)
    ensures
        r == first_route(target, opt_view(*class)),
{
    if target == 0 {
        return Route::Keys;
    }
    match class {
        Some(c) => if is_chromium_class(c.as_str()) {
            Route::Keys
        } else {
            Route::Message
        },
        None => Route::Message,
    }
}

/// What to try after a paste: the keys where a message did not arrive, nothing where
/// it did or the keys were pressed.
pub fn next_route(tried: Route, arrived: bool) -> (r: Option<Route>)
    ensures
        r == (if tried == Route::Message && !arrived {
            Some(Route::Keys)
        } else {
            None
        }),
{
    if tried == Route::Message && !arrived {
        Some(Route::Keys)
    } else {
        None
    }
}

/// The routes that a paste takes, in order, by whether a message would arrive.
pub open spec fn routes(target: isize, class: Option<Seq<char>>, arrives: bool) -> Seq<Route> {
    match first_route(target, class) {
        Route::Keys => seq![Route::Keys],
        Route::Message => if arrives {
            seq![Route::Message]
        } else {
            seq![Route::Message, Route::Keys]
        },
    }
}

/// A paste is brought about once: the last route that is taken is either a message
/// that arrived or the keys, and every route before it is a message that did not.
pub proof fn law_one_paste(target: isize, class: Option<Seq<char>>, arrives: bool)
    ensures
        ({
            let l = routes(target, class, arrives);
            &&& l.len() > 0
            &&& l.last() == Route::Keys || arrives
            &&& forall|i: int| 0 <= i < l.len() - 1 ==> #[trigger] l[i] == Route::Message && !arrives
        }),
{
}

/// How long to wait, in milliseconds, between a window's coming to the front and the
/// paste.
pub fn settle_ms(restored: bool) -> (r: u64)
    ensures
        r == (if restored {
            40int
        } else {
            0
        }),
{
    if restored {
        40
    } else {
        0
    }
}

/// How often the clipboard is tried where another program holds it.
pub const CLIPBOARD_TRIES: u64 = 8;

/// How long to wait, in milliseconds, after a try that failed.
pub fn retry_ms(attempt: u64) -> (r: u64)
    requires
        attempt < CLIPBOARD_TRIES,
    ensures
        r == 5 * (attempt + 1),
{
    5 * (attempt + 1)
}

/// How often to look for a copied selection, 10 milliseconds apart.
pub const SELECTION_POLLS: u64 = 40;

/// Whether the clipboard is put back after a selection was read from it: where the
/// selection was copied, and there was text before.
pub fn puts_back(copied: bool, previous: &Option<String>) -> (r: bool)
    ensures
        r == (copied && previous is Some),
{
    copied && previous.is_some()
}

/// The selection, by whether it was copied and what the clipboard then held; none
/// where nothing was selected.
pub open spec fn selection(copied: bool, held: Option<Seq<char>>) -> Option<Seq<char>> {
    match held {
        Some(s) => if copied && s.len() > 0 {
            Some(s)
        } else {
            None
        },
        None => None,
    }
}

/// The selection, by whether it was copied and what the clipboard then held.
pub fn captured(copied: bool, held: Option<String>) -> (r: Option<String>)
    ensures
        opt_view(r) == selection(copied, opt_view(held)),
{
    match held {
        Some(s) => if copied && s.as_str().unicode_len() > 0 {
            Some(s)
        } else {
            None
        },
        None => None,
    }
}

/// Brings a window to the front on systems that have no such call: never done.
pub fn restore_foreground(_hwnd: isize) -> (r: bool)
    ensures
        !r,
{
    false
}

/// Writes the clipboard directly, on systems where that is not needed: never done.
pub fn write_clipboard_unicode(_text: &str) -> (r: Result<(), String>)
    ensures
        r matches Err(e) && e@ == "write_clipboard_unicode is Windows-only"@,
{
    Err("write_clipboard_unicode is Windows-only".to_owned())
}

/// Reads the selection of another window, on systems that have no such call: never
/// done.
pub fn capture_selection_windows() -> (r: Result<Option<String>, String>)
    ensures
        r matches Err(e) && e@ == "capture_selection_windows is Windows-only"@,
{
    Err("capture_selection_windows is Windows-only".to_owned())
}

/// A window that draws its own text gets keys, as does one that is not known; any other window
/// gets a message first.
pub proof fn law_windows_get_what_they_take(target: isize, rest: Seq<char>, class: Seq<char>)
    ensures
        first_route(0, Some(class)) == Route::Keys,
        first_route(0, None) == Route::Keys,
        first_route(target, Some("Chrome_WidgetWin"@ + rest)) == Route::Keys,
        first_route(target, Some("MozillaWindowClass"@)) == Route::Keys,
        target != 0 ==> first_route(target, None) == Route::Message,
        target != 0 && class != "MozillaWindowClass"@ && class.len() < 16 ==> first_route(
            target,
            Some(class),
        ) == Route::Message,
        target != 0 && class.len() > 0 && class[0] != 'C' && class[0] != 'M' ==> first_route(
            target,
            Some(class),
        ) == Route::Message,
{
    reveal_strlit("Chrome_WidgetWin");
    reveal_strlit("MozillaWindowClass");
    let c = "Chrome_WidgetWin"@;
    let w = c + rest;
    assert(w.subrange(0, c.len() as int) =~= c);
    assert(c.is_prefix_of(w));
    assert(c.len() == 16 && c[0] == 'C');
    assert("MozillaWindowClass"@[0] == 'M');
    if c.is_prefix_of(class) {
        assert(class.subrange(0, 16)[0] == c[0]);
    }
}

} // verus!

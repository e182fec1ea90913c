//! The system clipboard, reached through trusted wrappers: failures
//! are reported as plain values and callers treat them as non-fatal.

use vstd::prelude::*;

verus! {

/// Relies on arboard::Clipboard::new and set_text: puts the text on
/// the system clipboard; whether that succeeds depends on the
/// environment, so nothing is promised of the answer.
#[verifier::external_body]
pub fn clipboard_set_text(text: &str) -> bool {
    match arboard::Clipboard::new() {
        Ok(mut clipboard) => clipboard.set_text(text).is_ok(),
        Err(_) => false,
    }
}

/// Relies on arboard::Clipboard::new and get_text: reads the system
/// clipboard; what comes back depends on the environment, so nothing
/// is promised of the answer.
#[verifier::external_body]
pub fn clipboard_get_text() -> Option<String> {
    match arboard::Clipboard::new() {
        Ok(mut clipboard) => clipboard.get_text().ok(),
        Err(_) => None,
    }
}

} // verus!

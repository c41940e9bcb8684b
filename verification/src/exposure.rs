//! The clipboard exposure manager: time-limited exposure of one secret.
//!
//! `expose` writes a secret to the system clipboard at once and hands out a
//! token for the deferred clear; the caller schedules `clear_exposed` with
//! that token after the exposure window. A clear acts only while its token
//! is still the newest one, so a stale clear never wipes a newer exposure.

use vstd::prelude::*;
use crate::errors::VaultError;

verus! {

/// The clipboard handle type of the outside clipboard crate.
#[verifier::external_type_specification]
#[verifier::external_body]
pub struct ExClipboard(arboard::Clipboard);

/// Relies on `arboard::Clipboard::new`: opens the system clipboard, and
/// fails when none is available (headless session, unsupported platform).
#[verifier::external_body]
fn clipboard_open() -> (r: Result<arboard::Clipboard, VaultError>)
    ensures
        r matches Err(e) ==> e == VaultError::ClipboardUnavailable,
{
    match arboard::Clipboard::new() {
        Ok(c) => Ok(c),
        Err(_) => Err(VaultError::ClipboardUnavailable),
    }
}

/// Relies on `arboard::Clipboard::set_text`: replaces the clipboard's text
/// slot with exactly the given text; the outcome depends on the platform's
/// clipboard state.
#[verifier::external_body]
fn clipboard_write(clipboard: &mut arboard::Clipboard, text: &str) -> (r: Result<(), VaultError>)
    ensures
        r matches Err(e) ==> e == VaultError::ClipboardUnavailable,
{
    match clipboard.set_text(text.to_owned()) {
        Ok(()) => Ok(()),
        Err(_) => Err(VaultError::ClipboardUnavailable),
    }
}

/// One successful exposure: the clear token to schedule, and the window
/// after which the clear is due, exactly as requested.
pub struct Exposure {
    pub token: u64,
    pub window_millis: u64,
}

/// Bookkeeping for the exposure window: one token per successful exposure.
pub struct ExposureManager {
    current: u64,
}

impl ExposureManager {
    /// The token handed out by the most recent successful exposure.
    pub closed spec fn current_token(&self) -> u64 {
        self.current
    }

    /// A manager with no exposure yet.
    pub fn new() -> (r: ExposureManager)
        ensures
            r.current_token() == 0,
    {
        ExposureManager { current: 0 }
    }

    /// Copy `secret` to the system clipboard now, observable at once, and
    /// hand out the clear token of this exposure together with the window
    /// after which the caller runs the deferred clear. On failure nothing
    /// was written, the token state is untouched, and no clear is to be
    /// scheduled.
    pub fn expose(&mut self, secret: &str, window_millis: u64) -> (r: Result<
        Exposure,
        VaultError,
    >)
        requires
            old(self).current_token() < u64::MAX,
        ensures
            match r {
                Ok(e) => final(self).current_token() == old(self).current_token() + 1 && e.token
                    == final(self).current_token() && e.window_millis == window_millis,
                Err(e) => e == VaultError::ClipboardUnavailable && *final(self) == *old(self),
            },
    {
        let mut clipboard = match clipboard_open() {
            Ok(c) => c,
            Err(e) => {
                return Err(e);
            },
        };
        match clipboard_write(&mut clipboard, secret) {
            Ok(_) => {
                self.current = self.current + 1;
                Ok(Exposure { token: self.current, window_millis })
            },
            Err(e) => Err(e),
        }
    }

    /// Whether the deferred clear holding `token` should still act.
    pub fn should_clear(&self, token: u64) -> (r: bool)
        ensures
            r == (token == self.current_token()),
    {
        token == self.current
    }

    /// Run the deferred clear for `token` once its window has elapsed: the
    /// clipboard is overwritten with the empty string only if no newer
    /// exposure has been made since; a stale token does nothing.
    pub fn clear_exposed(&self, token: u64) -> (r: Result<bool, VaultError>)
        ensures
            r matches Ok(acted) ==> acted == (token == self.current_token()),
            r matches Err(e) ==> e == VaultError::ClipboardUnavailable && token
                == self.current_token(),
    {
        if token == self.current {
            let mut clipboard = match clipboard_open() {
                Ok(c) => c,
                Err(e) => {
                    return Err(e);
                },
            };
            match clipboard_write(&mut clipboard, "") {
                Ok(_) => Ok(true),
                Err(e) => Err(e),
            }
        } else {
            Ok(false)
        }
    }
}

} // verus!

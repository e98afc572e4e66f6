//! State model of the toast notification: an unobtrusive popup that closes
//! itself after a fixed time. This module holds the popup's decision state
//! — message, lifetime, visibility and whether its close timer has been
//! armed — with exact contracts; drawing the widget, sleeping and closing
//! are the embedding UI's work, driven by what these methods return.

use vstd::prelude::*;

verus! {

/// Default lifetime of a toast, in milliseconds.
pub const DEFAULT_TOAST_TIME: u64 = 2000;

/// The toast's state. The close timer is armed at most once: the first
/// time the toast becomes visible.
pub struct ToastPopup {
    /// The message the toast displays.
    pub message: String,
    /// Milliseconds before the toast closes itself.
    pub time: u64,
    /// Whether the close timer has been armed.
    pub timer_started: bool,
    /// Whether the toast is currently shown.
    pub visible: bool,
}

impl ToastPopup {
    /// A new toast with the given message and lifetime; not yet visible,
    /// timer not armed.
    pub fn new(message: String, time: u64) -> (r: ToastPopup)
        ensures
            r.message@ == message@,
            r.time == time,
            !r.timer_started,
            !r.visible,
    {
        ToastPopup { message, time, timer_started: false, visible: false }
    }

    /// A new toast with the default lifetime of two seconds.
    pub fn new_with_default_time(message: String) -> (r: ToastPopup)
        ensures
            r.message@ == message@,
            r.time == DEFAULT_TOAST_TIME,
            !r.timer_started,
            !r.visible,
    {
        ToastPopup::new(message, DEFAULT_TOAST_TIME)
    }

    /// Arms the close timer. Returns whether the caller must schedule the
    /// delayed close now: true only on the first call.
    pub fn start_timer(&mut self) -> (schedule: bool)
        ensures
            final(self).timer_started,
            schedule == !old(self).timer_started,
            final(self).message@ == old(self).message@,
            final(self).time == old(self).time,
            final(self).visible == old(self).visible,
    {
        if self.timer_started {
            return false;
        }
        self.timer_started = true;
        true
    }

    /// Shows or hides the toast. Becoming visible arms the close timer;
    /// the result says whether the caller must schedule the delayed close.
    pub fn set_visible(&mut self, visible: bool) -> (schedule: bool)
        ensures
            final(self).visible == visible,
            final(self).timer_started == (old(self).timer_started || visible),
            schedule == (visible && !old(self).timer_started),
            final(self).message@ == old(self).message@,
            final(self).time == old(self).time,
    {
        let mut schedule = false;
        if visible {
            schedule = self.start_timer();
        }
        self.visible = visible;
        schedule
    }

    /// Whether the toast is currently shown.
    pub fn is_visible(&self) -> (r: bool)
        ensures
            r == self.visible,
    {
        self.visible
    }
}

impl Clone for ToastPopup {
    /// A copy for handing to the close timer: same message, lifetime and
    /// visibility, with the timer flag reset.
    fn clone(&self) -> (r: ToastPopup)
        ensures
            r.message@ == self.message@,
            r.time == self.time,
            !r.timer_started,
            r.visible == self.visible,
    {
        ToastPopup {
            message: self.message.clone(),
            time: self.time,
            timer_started: false,
            visible: self.visible,
        }
    }
}

/// Whether any toast of the list is visible.
pub fn has_toast_popups(toasts: &Vec<ToastPopup>) -> (r: bool)
    ensures
        r == exists|k: int| 0 <= k < toasts@.len() && (#[trigger] toasts@[k]).visible,
{
    let mut i: usize = 0;
    let mut found = false;
    while i < toasts.len()
        invariant
            i <= toasts@.len(),
            found ==> exists|k: int| 0 <= k < toasts@.len() && (#[trigger] toasts@[k]).visible,
            !found ==> forall|k: int| 0 <= k < i ==> !(#[trigger] toasts@[k]).visible,
        decreases toasts@.len() - i,
    {
        if toasts[i].is_visible() {
            found = true;
        }
        i = i + 1;
    }
    found
}

} // verus!

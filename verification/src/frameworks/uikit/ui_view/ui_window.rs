//! `UIWindow`.
#![allow(non_upper_case_globals)]

use crate::mem::GuestAddress;
use vstd::prelude::*;

verus! {

/// Name of the notification that the keyboard will show.
pub const UIKeyboardWillShowNotification: &'static str = "UIKeyboardWillShowNotification";

/// Name of the notification that the keyboard did show.
pub const UIKeyboardDidShowNotification: &'static str = "UIKeyboardDidShowNotification";

/// Name of the notification that the keyboard will hide.
pub const UIKeyboardWillHideNotification: &'static str = "UIKeyboardWillHideNotification";

/// Name of the notification that the keyboard did hide.
pub const UIKeyboardDidHideNotification: &'static str = "UIKeyboardDidHideNotification";

/// Key under which a keyboard notification holds the keyboard's bounds.
pub const UIKeyboardBoundsUserInfoKey: &'static str = "UIKeyboardBoundsUserInfoKey";

/// What `UIWindow` keeps between calls. Neither field retains its windows.
pub struct State {
    /// The windows that are not hidden, oldest first.
    pub visible_windows: Vec<GuestAddress>,
    /// The window that most recently became the key window.
    pub key_window: Option<GuestAddress>,
}

/// The first position at or after `from` at which `window` stands in
/// `windows`, or the length of `windows` where it stands at none.
pub open spec fn first_position(windows: Seq<GuestAddress>, window: GuestAddress, from: int) -> int
    decreases windows.len() - from,
{
    if from < 0 || from >= windows.len() {
        windows.len() as int
    } else if windows[from] == window {
        from
    } else {
        first_position(windows, window, from + 1)
    }
}

/// `windows` without the first occurrence of `window`.
pub open spec fn without_first(windows: Seq<GuestAddress>, window: GuestAddress) -> Seq<
    GuestAddress,
> {
    let at = first_position(windows, window, 0);
    if at < windows.len() {
        windows.remove(at)
    } else {
        windows
    }
}

/// The visible windows after the hidden flag of `window` went from
/// `was_hidden` to `is_hidden`.
pub open spec fn visible_after(
    windows: Seq<GuestAddress>,
    window: GuestAddress,
    was_hidden: bool,
    is_hidden: bool,
) -> Seq<GuestAddress> {
    if is_hidden && !was_hidden {
        without_first(windows, window)
    } else if !is_hidden && was_hidden {
        windows.push(window)
    } else {
        windows
    }
}

impl State {
    /// Whether this is the state at process start: no window.
    pub open spec fn is_fresh(&self) -> bool {
        self.visible_windows@ == Seq::<GuestAddress>::empty() && self.key_window is None
    }

    /// The state at process start: no window.
    pub fn new() -> (s: State)
        ensures
            s.is_fresh(),
    {
        State { visible_windows: Vec::new(), key_window: None }
    }
}

/// How a window takes a subview in.
#[derive(Clone, Copy, Debug, PartialEq, Eq, Structural)]
pub enum AddSubview {
    /// As any view does.
    Plain,
    /// As any view does, but tell this view controller before that its view
    /// will appear, and after that it did.
    Appearing(GuestAddress),
}

/// How a window takes in `view`, whose view controller is `view_controller`:
/// the controller of a view that has one is told of the appearance.
pub open spec fn add_subview_plan(view: GuestAddress, view_controller: GuestAddress) -> AddSubview {
    if view == 0 || view_controller == 0 {
        AddSubview::Plain
    } else {
        AddSubview::Appearing(view_controller)
    }
}

/// How a window takes in `view`, whose view controller is `view_controller`.
pub fn add_subview(view: GuestAddress, view_controller: GuestAddress) -> (plan: AddSubview)
    ensures
        plan == add_subview_plan(view, view_controller),
{
    if view == 0 || view_controller == 0 {
        AddSubview::Plain
    } else {
        AddSubview::Appearing(view_controller)
    }
}

impl State {
    /// Whether `window` is among the visible windows.
    pub fn is_visible(&self, window: GuestAddress) -> (visible: bool)
        ensures
            visible == self.visible_windows@.contains(window),
    {
        let mut i: usize = 0;
        while i < self.visible_windows.len()
            invariant
                i <= self.visible_windows@.len(),
                forall|k: int| 0 <= k < i ==> self.visible_windows@[k] != window,
            decreases self.visible_windows@.len() - i,
        {
            if self.visible_windows[i] == window {
                return true;
            }
            i += 1;
        }
        false
    }

    /// Takes the first occurrence of `window` out of the visible windows.
    fn remove_visible(&mut self, window: GuestAddress)
        requires
            old(self).visible_windows@.contains(window),
        ensures
            final(self).visible_windows@ == without_first(old(self).visible_windows@, window),
            final(self).key_window == old(self).key_window,
    {
        let mut i: usize = 0;
        while i < self.visible_windows.len()
            invariant
                *self == *old(self),
                self.visible_windows@.contains(window),
                i <= self.visible_windows@.len(),
                forall|k: int| 0 <= k < i ==> self.visible_windows@[k] != window,
                first_position(self.visible_windows@, window, 0) == first_position(
                    self.visible_windows@,
                    window,
                    i as int,
                ),
            decreases self.visible_windows@.len() - i,
        {
            if self.visible_windows[i] == window {
                self.visible_windows.remove(i);
                return ;
            }
            i += 1;
        }
    }

    /// A window was initialised: it is visible from the start.
    pub fn window_created(&mut self, window: GuestAddress)
        ensures
            final(self).visible_windows@ == old(self).visible_windows@.push(window),
            final(self).key_window == old(self).key_window,
    {
        self.visible_windows.push(window);
    }

    /// The hidden flag of `window` went from `was_hidden` to `is_hidden`: a
    /// window that got hidden leaves the visible windows, one that got shown
    /// joins them last.
    pub fn hidden_changed(&mut self, window: GuestAddress, was_hidden: bool, is_hidden: bool)
        requires
            is_hidden && !was_hidden ==> old(self).visible_windows@.contains(window),
        ensures
            final(self).visible_windows@ == visible_after(
                old(self).visible_windows@,
                window,
                was_hidden,
                is_hidden,
            ),
            final(self).key_window == old(self).key_window,
    {
        if is_hidden && !was_hidden {
            self.remove_visible(window);
        } else if !is_hidden && was_hidden {
            self.visible_windows.push(window);
        }
    }

    /// `window` becomes the key window. It is then to be shown.
    pub fn make_key(&mut self, window: GuestAddress)
        requires
            old(self).key_window is None,
        ensures
            final(self).key_window == Some(window),
            final(self).visible_windows@ == old(self).visible_windows@,
    {
        self.key_window = Some(window);
    }

    /// `window` is being deallocated: it is the key window no longer, and
    /// unless it was hidden it leaves the visible windows.
    pub fn window_deallocated(&mut self, window: GuestAddress, is_hidden: bool)
        requires
            !is_hidden ==> old(self).visible_windows@.contains(window),
        ensures
            final(self).key_window == (if old(self).key_window == Some(window) {
                None
            } else {
                old(self).key_window
            }),
            final(self).visible_windows@ == (if is_hidden {
                old(self).visible_windows@
            } else {
                without_first(old(self).visible_windows@, window)
            }),
    {
        match self.key_window {
            Some(key_window) => {
                if key_window == window {
                    self.key_window = None;
                }
            },
            None => {},
        }
        if !is_hidden {
            self.remove_visible(window);
        }
    }
}

impl Default for State {
    fn default() -> (s: State)
        ensures
            s.is_fresh(),
    {
        State::new()
    }
}

} // verus!

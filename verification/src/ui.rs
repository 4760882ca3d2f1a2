//! The declarative menu mode and the quit sentinel.

use vstd::prelude::*;
use crate::States;
use crate::Key;

verus! {

/// One entry of a menu, laid out top to bottom by its declared height in
/// pixels.
pub enum MenuEntry {
    /// A message that transitions to another mode when its key is pressed.
    Transition(u32, String, Key, States),
    /// A message with no transition.
    Message(u32, String),
    /// Vertical space between entries.
    VSpace(u32),
}

/// The mode the first matching transition entry sends the menu to when `k`
/// is pressed, scanning entries in order.
pub open spec fn first_transition(opts: Seq<MenuEntry>, k: Key, from: int) -> Option<States>
    decreases opts.len() - from,
{
    if from < 0 || from >= opts.len() {
        Option::None
    } else {
        match opts[from] {
            MenuEntry::Transition(_, _, key, st) => if key == k {
                Option::Some(st)
            } else {
                first_transition(opts, k, from + 1)
            },
            _ => first_transition(opts, k, from + 1),
        }
    }
}

/// The declared height of one entry, in pixels.
pub open spec fn entry_height(e: MenuEntry) -> int {
    match e {
        MenuEntry::Transition(h, _, _, _) => h as int,
        MenuEntry::Message(h, _) => h as int,
        MenuEntry::VSpace(h) => h as int,
    }
}

/// The running vertical offset in front of entry `j`: the declared heights
/// of all earlier entries, summed.
pub open spec fn height_before(opts: Seq<MenuEntry>, j: int) -> int
    decreases j,
{
    if j <= 0 {
        0
    } else {
        height_before(opts, j - 1) + entry_height(opts[j - 1])
    }
}

/// A menu: an ordered list of entries and the transition it has pending.
pub struct UI {
    pub goto_state: Option<States>,
    /// The entries shown on the screen, top to bottom.
    pub options: Vec<MenuEntry>,
}

impl UI {
    /// A menu over the given entries, with no transition pending.
    pub fn new(options: Vec<MenuEntry>) -> (r: UI)
        ensures
            r.goto_state is None,
            r.options == options,
    {
        UI { goto_state: Option::None, options }
    }

    /// A key press: the first transition entry bound to this key, in entry
    /// order, becomes the pending transition; any other key changes
    /// nothing.
    pub fn key_down_event(&mut self, key: Key)
        ensures
            final(self).options == old(self).options,
            final(self).goto_state == (match first_transition(old(self).options@, key, 0) {
                Option::Some(st) => Option::Some(st),
                Option::None => old(self).goto_state,
            }),
    {
        let mut i: usize = 0;
        while i < self.options.len()
            invariant
                *self == *old(self),
                0 <= i <= self.options@.len(),
                first_transition(old(self).options@, key, 0) == first_transition(
                    old(self).options@,
                    key,
                    i as int,
                ),
            decreases self.options@.len() - i,
        {
            if let MenuEntry::Transition(_, _, k, st) = &self.options[i] {
                if *k == key {
                    let target = *st;
                    self.goto_state = Option::Some(target);
                    return ;
                }
            }
            i += 1;
        }
    }

    /// Where each entry starts vertically: entries are laid out top to
    /// bottom, each one advancing the running offset by its declared
    /// height.
    pub fn layout_tops(&self) -> (r: Vec<u64>)
        requires
            self.options@.len() < 0x1_0000_0000,
        ensures
            r@.len() == self.options@.len(),
            forall|j: int| 0 <= j < r@.len() ==> r@[j] == height_before(self.options@, j),
    {
        let mut r: Vec<u64> = Vec::new();
        let mut top: u64 = 0;
        let mut j: usize = 0;
        while j < self.options.len()
            invariant
                self.options@.len() < 0x1_0000_0000,
                0 <= j <= self.options@.len(),
                r@.len() == j,
                top == height_before(self.options@, j as int),
                top <= j * 0xFFFF_FFFF,
                forall|k: int| 0 <= k < j ==> r@[k] == height_before(self.options@, k),
            decreases self.options@.len() - j,
        {
            r.push(top);
            let h = match &self.options[j] {
                MenuEntry::Transition(h, _, _, _) => *h,
                MenuEntry::Message(h, _) => *h,
                MenuEntry::VSpace(h) => *h,
            };
            top = top + h as u64;
            j += 1;
        }
        r
    }

    /// Quitting while a menu is shown is intercepted: the answer signals
    /// that the process must not quit, so that leaving goes through the
    /// explicit Quit mode instead.
    pub fn quit_event(&self) -> (r: bool)
        ensures
            r == true,
    {
        true
    }

    /// Hands over the pending transition, clearing it.
    pub fn next_state(&mut self) -> (r: Option<States>)
        ensures
            r == old(self).goto_state,
            *final(self) == (UI { goto_state: Option::None, ..*old(self) }),
    {
        self.goto_state.take()
    }
}

/// The quit sentinel: a mode whose only act is to ask the front end to end
/// the process.
pub struct Quit;

impl Quit {
    /// Never requests a transition.
    pub fn next_state(&mut self) -> (r: Option<States>)
        ensures
            r is None,
    {
        Option::None
    }
}

} // verus!

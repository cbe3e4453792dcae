//! Keyboard and pointer decisions of the selection widgets (dropdown select,
//! tabs, table, checkbox, toggle, radio button, modal).  Their values live in
//! signals: each decision takes the value it reads and says which value, if
//! any, is to be written back.
use vstd::prelude::*;

use crate::keys::{Key, KeyEvent, NamedKey, is_named};

verus! {

/// What an input event did to a widget whose value lives in a signal: whether
/// the event was consumed, and the value to write to the signal, if any.
#[derive(Debug)]
pub struct Handled<T> {
    pub consumed: bool,
    pub write: Option<T>,
}

/// `n.saturating_sub(1)`.
pub open spec fn last(n: int) -> int {
    if n > 0 {
        n - 1
    } else {
        0
    }
}

pub open spec fn min(a: int, b: int) -> int {
    if a <= b {
        a
    } else {
        b
    }
}

/// One step down a list of `n` entries, stopping at the last.
pub open spec fn step_down(cur: int, n: int) -> int {
    min(cur + 1, last(n))
}

/// One step up a list, stopping at the first.
pub open spec fn step_up(cur: int) -> int {
    if cur > 0 {
        cur - 1
    } else {
        0
    }
}

fn step_down_exec(cur: usize, n: usize) -> (r: usize)
    requires
        cur < usize::MAX,
    ensures
        r == step_down(cur as int, n as int),
{
    let last = n.saturating_sub(1);
    if cur + 1 < last {
        cur + 1
    } else {
        last
    }
}

/// The arrow keys of a list of `n` entries (select, table) move one entry
/// and stop at the ends: Down goes to the next entry, or stays on the last;
/// Up goes to the previous one, or stays on the first; either result is an
/// entry of the list, and Down then Up (or Up then Down) comes back.
pub proof fn list_arrows_step_one_and_stop_at_the_ends(cur: int, n: int)
    requires
        0 <= cur < n,
    ensures
        0 <= step_down(cur, n) < n,
        0 <= step_up(cur) < n,
        cur + 1 < n ==> step_down(cur, n) == cur + 1 && step_up(step_down(cur, n)) == cur,
        cur + 1 == n ==> step_down(cur, n) == cur,
        cur > 0 ==> step_up(cur) == cur - 1 && step_down(step_up(cur), n) == cur,
        cur == 0 ==> step_up(cur) == 0,
{
}

// ── Select (dropdown) ───────────────────────────────────────────────────

/// The interaction state of a dropdown select.
#[derive(Clone, Copy, Debug)]
pub struct SelectState {
    pub open: bool,
    pub hover: bool,
    pub hover_index: Option<usize>,
    pub focus: bool,
}

/// The entry that the arrow keys move from: the hovered entry while the list is
/// open, else the selected one.
pub open spec fn select_current(s: SelectState, selected: usize) -> int {
    if s.open && s.hover_index is Some {
        s.hover_index->0 as int
    } else {
        selected as int
    }
}

impl SelectState {
    /// Closed, not hovered, no focus.
    pub fn new() -> (s: Self)
        ensures
            !s.open && !s.hover && s.hover_index is None && !s.focus,
    {
        SelectState { open: false, hover: false, hover_index: None, focus: false }
    }

    /// A key while the select has focus, with `selected` the selected index and
    /// `option_count` the number of options.  Space/Enter open the list, or
    /// close it choosing the hovered entry; Escape closes an open list; the
    /// arrows move the hover (list open) or the selection (list closed) one
    /// entry, within the options.
    pub fn handle_key_event(&mut self, event: &KeyEvent, selected: usize, option_count: usize) -> (h:
        Handled<usize>)
        requires
            event.is_press_of(NamedKey::ArrowDown) ==> select_current(*old(self), selected) < usize::MAX,
        ensures
            !event.pressed ==> !h.consumed && h.write is None && *final(self) == *old(self),
            event.is_press_of(NamedKey::Space) || event.is_press_of(NamedKey::Enter) ==> {
                &&& h.consumed
                &&& final(self).open == !old(self).open
                &&& h.write == (if old(self).open { old(self).hover_index } else { None })
                &&& final(self).hover_index == old(self).hover_index
            },
            event.is_press_of(NamedKey::Escape) ==> {
                &&& h.consumed == old(self).open
                &&& !final(self).open
                &&& h.write is None
                &&& final(self).hover_index == old(self).hover_index
            },
            event.is_press_of(NamedKey::ArrowDown) ==> h.consumed && if old(self).open {
                &&& final(self).hover_index == Some(
                    step_down(select_current(*old(self), selected), option_count as int) as usize,
                )
                &&& h.write is None
                &&& final(self).open
            } else {
                &&& h.write == Some(step_down(selected as int, option_count as int) as usize)
                &&& *final(self) == *old(self)
            },
            event.is_press_of(NamedKey::ArrowUp) ==> h.consumed && if old(self).open {
                &&& final(self).hover_index == Some(step_up(select_current(*old(self), selected)) as usize)
                &&& h.write is None
                &&& final(self).open
            } else {
                &&& h.write == Some(step_up(selected as int) as usize)
                &&& *final(self) == *old(self)
            },
            event.pressed && !event.is_named(NamedKey::Space) && !event.is_named(NamedKey::Enter)
                && !event.is_named(NamedKey::Escape) && !event.is_named(NamedKey::ArrowDown)
                && !event.is_named(NamedKey::ArrowUp) ==> !h.consumed && h.write is None && *final(self)
                == *old(self),
            final(self).hover == old(self).hover,
            final(self).focus == old(self).focus,
    {
        if !event.pressed {
            return Handled { consumed: false, write: None };
        }
        let key = &event.key;
        if is_named(key, NamedKey::Space) || is_named(key, NamedKey::Enter) {
            let mut write = None;
            if self.open {
                write = self.hover_index;
                self.open = false;
            } else {
                self.open = true;
            }
            Handled { consumed: true, write }
        } else if is_named(key, NamedKey::Escape) {
            if self.open {
                self.open = false;
                Handled { consumed: true, write: None }
            } else {
                Handled { consumed: false, write: None }
            }
        } else if is_named(key, NamedKey::ArrowDown) {
            if self.open {
                let current = match self.hover_index {
                    Some(i) => i,
                    None => selected,
                };
                self.hover_index = Some(step_down_exec(current, option_count));
                Handled { consumed: true, write: None }
            } else {
                Handled { consumed: true, write: Some(step_down_exec(selected, option_count)) }
            }
        } else if is_named(key, NamedKey::ArrowUp) {
            if self.open {
                let current = match self.hover_index {
                    Some(i) => i,
                    None => selected,
                };
                self.hover_index = Some(current.saturating_sub(1));
                Handled { consumed: true, write: None }
            } else {
                Handled { consumed: true, write: Some(selected.saturating_sub(1)) }
            }
        } else {
            Handled { consumed: false, write: None }
        }
    }

    /// A left press.  An open list closes, choosing the hovered entry if any; a
    /// closed list opens when the pointer is over the box.
    pub fn click(&mut self) -> (h: Handled<usize>)
        ensures
            old(self).open ==> {
                &&& h.consumed
                &&& h.write == old(self).hover_index
                &&& !final(self).open
                &&& final(self).hover_index is None
            },
            !old(self).open ==> h.write is None && h.consumed == old(self).hover && final(self).open
                == old(self).hover && final(self).hover_index == old(self).hover_index,
            final(self).hover == old(self).hover,
            final(self).focus == old(self).focus,
    {
        if self.open {
            match self.hover_index {
                Some(idx) => {
                    self.open = false;
                    self.hover_index = None;
                    Handled { consumed: true, write: Some(idx) }
                },
                None => {
                    self.open = false;
                    Handled { consumed: true, write: None }
                },
            }
        } else if self.hover {
            self.open = true;
            Handled { consumed: true, write: None }
        } else {
            Handled { consumed: false, write: None }
        }
    }

    /// The pointer moved: `over` tells whether it is over the box, `item` which
    /// list entry it is over.  The hovered entry is tracked only while the list
    /// is open.
    pub fn pointer_moved(&mut self, over: bool, item: Option<usize>)
        ensures
            final(self).hover == over,
            final(self).hover_index == (if old(self).open { item } else { old(self).hover_index }),
            final(self).open == old(self).open,
            final(self).focus == old(self).focus,
    {
        self.hover = over;
        if self.open {
            self.hover_index = item;
        }
    }

    /// Gives or takes the focus; losing it closes the list.
    pub fn set_focus(&mut self, focused: bool)
        ensures
            final(self).focus == focused,
            final(self).open == (old(self).open && focused),
            final(self).hover == old(self).hover,
            final(self).hover_index == old(self).hover_index,
    {
        self.focus = focused;
        if !focused {
            self.open = false;
        }
    }

    /// Activation from the keyboard: the list opens or closes.
    pub fn activate(&mut self)
        ensures
            *final(self) == (SelectState { open: !old(self).open, ..*old(self) }),
    {
        self.open = !self.open;
    }
}

/// The text of the selected option, or "" when the index is out of range.
pub fn selected_text(options: &Vec<String>, idx: usize) -> (r: &str)
    ensures
        idx < options@.len() ==> r@ == options@[idx as int]@,
        idx >= options@.len() ==> r@ == Seq::<char>::empty(),
{
    if idx < options.len() {
        options[idx].as_str()
    } else {
        proof {
            reveal_strlit("");
        }
        ""
    }
}

// ── Tabs ────────────────────────────────────────────────────────────────

/// The tab after `active` among `count` tabs, wrapping to the first.
pub open spec fn next_tab(active: int, count: int) -> int {
    (active + 1) % count
}

/// The tab before `active` among `count` tabs, wrapping to the last.
pub open spec fn prev_tab(active: int, count: int) -> int {
    if active == 0 {
        count - 1
    } else {
        active - 1
    }
}

/// The right arrow followed by the left arrow, or the left followed by the
/// right, gives back the tab that was active.
pub proof fn tab_right_then_left_restores(active: int, count: int)
    requires
        0 <= active < count,
    ensures
        prev_tab(next_tab(active, count), count) == active,
        next_tab(prev_tab(active, count), count) == active,
{
    if active + 1 < count {
        assert((active + 1) % count == active + 1) by (nonlinear_arith)
            requires
                0 <= active,
                active + 1 < count,
        ;
    } else {
        assert((active + 1) % count == 0) by (nonlinear_arith)
            requires
                active + 1 == count,
                0 <= active,
        ;
    }
    if active == 0 {
        assert(count % count == 0) by (nonlinear_arith)
            requires
                count > 0,
        ;
    } else {
        assert(active % count == active) by (nonlinear_arith)
            requires
                0 < active < count,
        ;
    }
}

/// Tab switching wraps around: from the last tab the right arrow goes to the
/// first, from the first the left arrow goes to the last, and otherwise each
/// moves one tab; the result is always one of the tabs.
pub proof fn tabs_wrap_around(active: int, count: int)
    requires
        0 <= active < count,
    ensures
        0 <= next_tab(active, count) < count,
        0 <= prev_tab(active, count) < count,
        next_tab(active, count) == (if active + 1 == count { 0 } else { active + 1 }),
        prev_tab(active, count) == (if active == 0 { count - 1 } else { active - 1 }),
{
    if active + 1 < count {
        assert((active + 1) % count == active + 1) by (nonlinear_arith)
            requires
                0 <= active,
                active + 1 < count,
        ;
    } else {
        assert((active + 1) % count == 0) by (nonlinear_arith)
            requires
                active + 1 == count,
                0 <= active,
        ;
    }
}

/// A key on a focused tab bar of `count` tabs whose active tab is `active`:
/// the right arrow activates the next tab and the left arrow the previous one,
/// both wrapping around.
pub fn tabs_key(event: &KeyEvent, active: usize, count: usize) -> (h: Handled<usize>)
    requires
        event.is_press_of(NamedKey::ArrowRight) ==> active < usize::MAX,
    ensures
        !event.pressed || count == 0 ==> !h.consumed && h.write is None,
        event.pressed && count > 0 && event.is_named(NamedKey::ArrowRight) ==> h.consumed && h.write
            == Some(next_tab(active as int, count as int) as usize),
        event.pressed && count > 0 && event.is_named(NamedKey::ArrowLeft) ==> h.consumed && h.write
            == Some(prev_tab(active as int, count as int) as usize),
        event.pressed && count > 0 && !event.is_named(NamedKey::ArrowRight) && !event.is_named(
            NamedKey::ArrowLeft,
        ) ==> !h.consumed && h.write is None,
{
    if !event.pressed || count == 0 {
        return Handled { consumed: false, write: None };
    }
    if is_named(&event.key, NamedKey::ArrowRight) {
        Handled { consumed: true, write: Some((active + 1) % count) }
    } else if is_named(&event.key, NamedKey::ArrowLeft) {
        let next = if active == 0 { count - 1 } else { active - 1 };
        Handled { consumed: true, write: Some(next) }
    } else {
        Handled { consumed: false, write: None }
    }
}

/// A left press on a tab bar: the hovered tab, if any, becomes active.
pub fn tabs_click(hover_index: Option<usize>) -> (h: Handled<usize>)
    ensures
        h.consumed == hover_index is Some,
        h.write == hover_index,
{
    match hover_index {
        Some(idx) => Handled { consumed: true, write: Some(idx) },
        None => Handled { consumed: false, write: None },
    }
}

// ── Table ───────────────────────────────────────────────────────────────

/// A key on a focused table of `count` rows whose selected row is `selected`:
/// the arrows move the selection one row (from row 0 when nothing is selected),
/// Home and End select the first and the last row.
pub fn table_key(event: &KeyEvent, selected: Option<usize>, count: usize) -> (h: Handled<Option<usize>>)
    requires
        event.is_press_of(NamedKey::ArrowDown) && selected is Some ==> selected->0 < usize::MAX,
    ensures
        !event.pressed || count == 0 ==> !h.consumed && h.write is None,
        event.pressed && count > 0 ==> {
            let cur = match selected {
                Some(i) => i as int,
                None => 0,
            };
            if event.is_named(NamedKey::ArrowDown) {
                h.consumed && h.write == Some(Some(step_down(cur, count as int) as usize))
            } else if event.is_named(NamedKey::ArrowUp) {
                h.consumed && h.write == Some(Some(step_up(cur) as usize))
            } else if event.is_named(NamedKey::Home) {
                h.consumed && h.write == Some(Some(0usize))
            } else if event.is_named(NamedKey::End) {
                h.consumed && h.write == Some(Some((count - 1) as usize))
            } else {
                !h.consumed && h.write is None
            }
        },
{
    if !event.pressed || count == 0 {
        return Handled { consumed: false, write: None };
    }
    let current = match selected {
        Some(i) => i,
        None => 0,
    };
    let key = &event.key;
    if is_named(key, NamedKey::ArrowDown) {
        Handled { consumed: true, write: Some(Some(step_down_exec(current, count))) }
    } else if is_named(key, NamedKey::ArrowUp) {
        Handled { consumed: true, write: Some(Some(current.saturating_sub(1))) }
    } else if is_named(key, NamedKey::Home) {
        Handled { consumed: true, write: Some(Some(0)) }
    } else if is_named(key, NamedKey::End) {
        Handled { consumed: true, write: Some(Some(count - 1)) }
    } else {
        Handled { consumed: false, write: None }
    }
}

/// A left press on a table: clicking the hovered row selects it, or clears the
/// selection when it was already selected.
pub fn table_click(hover_row: Option<usize>, selected: Option<usize>) -> (h: Handled<Option<usize>>)
    ensures
        h.consumed == hover_row is Some,
        hover_row is None ==> h.write is None,
        hover_row is Some ==> h.write == Some(if selected == hover_row { None } else { hover_row }),
{
    match hover_row {
        Some(idx) => {
            let now_selected = match selected {
                Some(s) => s == idx,
                None => false,
            };
            if now_selected {
                Handled { consumed: true, write: Some(None) }
            } else {
                Handled { consumed: true, write: Some(Some(idx)) }
            }
        },
        None => Handled { consumed: false, write: None },
    }
}

// ── Checkbox, toggle, radio button ──────────────────────────────────────

/// A key on a focused checkbox or toggle: Space and Enter flip the value.
pub fn toggle_key(event: &KeyEvent, checked: bool) -> (h: Handled<bool>)
    ensures
        event.is_press_of(NamedKey::Space) || event.is_press_of(NamedKey::Enter) ==> h.consumed
            && h.write == Some(!checked),
        !(event.is_press_of(NamedKey::Space) || event.is_press_of(NamedKey::Enter)) ==> !h.consumed
            && h.write is None,
{
    if event.pressed && (is_named(&event.key, NamedKey::Space) || is_named(&event.key, NamedKey::Enter)) {
        Handled { consumed: true, write: Some(!checked) }
    } else {
        Handled { consumed: false, write: None }
    }
}

/// A left press on a checkbox or toggle: over it (`hover`), the value flips.
pub fn toggle_click(hover: bool, checked: bool) -> (h: Handled<bool>)
    ensures
        h.consumed == hover,
        h.write == (if hover { Some(!checked) } else { None }),
{
    if hover {
        Handled { consumed: true, write: Some(!checked) }
    } else {
        Handled { consumed: false, write: None }
    }
}

/// A key on the focused radio button number `index` of a group whose selected
/// index is `selected`: Space and Enter select it (writing only when it was not
/// selected already).
pub fn radio_key(event: &KeyEvent, selected: usize, index: usize) -> (h: Handled<usize>)
    ensures
        event.is_press_of(NamedKey::Space) || event.is_press_of(NamedKey::Enter) ==> h.consumed
            && h.write == (if selected != index { Some(index) } else { None }),
        !(event.is_press_of(NamedKey::Space) || event.is_press_of(NamedKey::Enter)) ==> !h.consumed
            && h.write is None,
{
    if event.pressed && (is_named(&event.key, NamedKey::Space) || is_named(&event.key, NamedKey::Enter)) {
        if selected != index {
            Handled { consumed: true, write: Some(index) }
        } else {
            Handled { consumed: true, write: None }
        }
    } else {
        Handled { consumed: false, write: None }
    }
}

/// A left press on the radio button number `index` of a group whose selected
/// index is `selected`: over it (`hover`) and not yet selected, it becomes
/// selected.  Otherwise the press is left to the siblings.
pub fn radio_click(hover: bool, selected: usize, index: usize) -> (h: Handled<usize>)
    ensures
        h.consumed == (hover && selected != index),
        h.write == (if hover && selected != index { Some(index) } else { None }),
{
    if hover && selected != index {
        Handled { consumed: true, write: Some(index) }
    } else {
        Handled { consumed: false, write: None }
    }
}

// ── Slider ──────────────────────────────────────────────────────────────

/// What a key does to a focused slider.
#[derive(Clone, Copy, Debug, PartialEq, Eq, Structural)]
pub enum SliderKey {
    /// One step down.
    Decrease,
    /// One step up.
    Increase,
    /// To the lowest value.
    ToMin,
    /// To the highest value.
    ToMax,
}

/// A key on a focused slider: the left and right arrows step the value,
/// Home and End jump to the ends of the range.  Other keys, and releases,
/// are not the slider's.
pub fn slider_key(event: &KeyEvent) -> (r: Option<SliderKey>)
    ensures
        r == (if event.is_press_of(NamedKey::ArrowLeft) {
            Some(SliderKey::Decrease)
        } else if event.is_press_of(NamedKey::ArrowRight) {
            Some(SliderKey::Increase)
        } else if event.is_press_of(NamedKey::Home) {
            Some(SliderKey::ToMin)
        } else if event.is_press_of(NamedKey::End) {
            Some(SliderKey::ToMax)
        } else {
            None
        }),
{
    if !event.pressed {
        return None;
    }
    let key = &event.key;
    if is_named(key, NamedKey::ArrowLeft) {
        Some(SliderKey::Decrease)
    } else if is_named(key, NamedKey::ArrowRight) {
        Some(SliderKey::Increase)
    } else if is_named(key, NamedKey::Home) {
        Some(SliderKey::ToMin)
    } else if is_named(key, NamedKey::End) {
        Some(SliderKey::ToMax)
    } else {
        None
    }
}

// ── Button ──────────────────────────────────────────────────────────────

/// The interaction state of a push button: the pointer over it, its active
/// (latched) look, and the keyboard focus.
#[derive(Clone, Copy, Debug, PartialEq, Eq, Structural)]
pub struct ButtonState {
    pub hover: bool,
    pub active: bool,
    pub focus: bool,
}

/// Which of its colour sets a button is drawn with.
#[derive(Clone, Copy, Debug, PartialEq, Eq, Structural)]
pub enum ButtonLook {
    Normal,
    Hover,
    Active,
    Focus,
}

impl ButtonState {
    /// The background look: active wins over hover, hover over focus.
    pub fn look(&self) -> (l: ButtonLook)
        ensures
            l == (if self.active {
                ButtonLook::Active
            } else if self.hover {
                ButtonLook::Hover
            } else if self.focus {
                ButtonLook::Focus
            } else {
                ButtonLook::Normal
            }),
    {
        if self.active {
            ButtonLook::Active
        } else if self.hover {
            ButtonLook::Hover
        } else if self.focus {
            ButtonLook::Focus
        } else {
            ButtonLook::Normal
        }
    }

    /// The text look: as the background, but focus does not change the text.
    pub fn text_look(&self) -> (l: ButtonLook)
        ensures
            l == (if self.active {
                ButtonLook::Active
            } else if self.hover {
                ButtonLook::Hover
            } else {
                ButtonLook::Normal
            }),
    {
        if self.active {
            ButtonLook::Active
        } else if self.hover {
            ButtonLook::Hover
        } else {
            ButtonLook::Normal
        }
    }

    /// A button that is neither hovered, active nor focused.
    pub fn new() -> (b: Self)
        ensures
            b == (ButtonState { hover: false, active: false, focus: false }),
    {
        ButtonState { hover: false, active: false, focus: false }
    }

    /// The pointer moved; `over` tells whether it is over the button.
    /// Returns whether the hover state changed.
    pub fn pointer_moved(&mut self, over: bool) -> (changed: bool)
        ensures
            *final(self) == (ButtonState { hover: over, ..*old(self) }),
            changed == (over != old(self).hover),
    {
        let changed = over != self.hover;
        self.hover = over;
        changed
    }

    /// A left press.  Over the button, it flips the active look and the
    /// button is clicked: the return value tells whether to run the click
    /// handler.
    pub fn press(&mut self) -> (clicked: bool)
        ensures
            clicked == old(self).hover,
            *final(self) == (if clicked {
                ButtonState { active: !old(self).active, ..*old(self) }
            } else {
                *old(self)
            }),
    {
        if self.hover {
            self.active = !self.active;
            true
        } else {
            false
        }
    }

    /// Enter or Space on the focused button: flips the active look; the
    /// click handler is to run.
    pub fn activate(&mut self)
        ensures
            *final(self) == (ButtonState { active: !old(self).active, ..*old(self) }),
    {
        self.active = !self.active;
    }

    /// Escape: the active look goes.
    pub fn clear_active(&mut self)
        ensures
            *final(self) == (ButtonState { active: false, ..*old(self) }),
    {
        self.active = false;
    }

    /// Gives or takes the keyboard focus.
    pub fn set_focus(&mut self, focused: bool)
        ensures
            *final(self) == (ButtonState { focus: focused, ..*old(self) }),
    {
        self.focus = focused;
    }
}

// ── Modal ───────────────────────────────────────────────────────────────

/// A key while a modal dialog has focus: a closed dialog takes no keys; an open
/// one takes every key, and Escape closes it.
pub fn modal_key(event: &KeyEvent, open: bool) -> (h: Handled<bool>)
    ensures
        !open ==> !h.consumed && h.write is None,
        open ==> h.consumed && h.write == (if event.is_press_of(NamedKey::Escape) {
            Some(false)
        } else {
            None
        }),
{
    if !open {
        return Handled { consumed: false, write: None };
    }
    if event.pressed && is_named(&event.key, NamedKey::Escape) {
        Handled { consumed: true, write: Some(false) }
    } else {
        Handled { consumed: true, write: None }
    }
}

/// A pointer event on a modal dialog (`left_press` for a left-button press): a
/// closed dialog takes none; an open one takes all, and a left press closes it
/// when clicks on the backdrop close it.
pub fn modal_event(left_press: bool, open: bool, close_on_backdrop: bool) -> (h: Handled<bool>)
    ensures
        h.consumed == open,
        h.write == (if open && left_press && close_on_backdrop { Some(false) } else { None }),
{
    if !open {
        return Handled { consumed: false, write: None };
    }
    if left_press && close_on_backdrop {
        return Handled { consumed: true, write: Some(false) };
    }
    Handled { consumed: true, write: None }
}

} // verus!

//! The editing state of a single-line text field: the text, the caret and the
//! selection, and how keys and the mouse change them.
//!
//! Positions are counted in characters.  A position past the end of the text
//! (which a stale mouse position can produce) is treated as the end wherever
//! the text is cut.
use vstd::prelude::*;

use crate::keys::{Key, KeyEvent, Modifiers, NamedKey};

verus! {

/// The abstract state of a text field.
pub struct EditModel {
    pub text: Seq<char>,
    pub cursor: int,
    pub selection: Option<(int, int)>,
    pub placeholder: Seq<char>,
    pub focused: bool,
    pub dragging: bool,
}

pub open spec fn min(a: int, b: int) -> int {
    if a <= b {
        a
    } else {
        b
    }
}

/// The two ends of a selection, smaller first.
pub open spec fn ordered(sel: (int, int)) -> (int, int) {
    if sel.0 < sel.1 {
        sel
    } else {
        (sel.1, sel.0)
    }
}

/// `t` with the characters `lo..hi` replaced by `ins` (both ends cut to the text).
pub open spec fn splice(t: Seq<char>, lo: int, hi: int, ins: Seq<char>) -> Seq<char> {
    let l = min(lo, t.len() as int);
    let h = min(hi, t.len() as int);
    t.subrange(0, l) + ins + t.subrange(h, t.len() as int)
}

impl EditModel {
    /// Removes the selected text, if there is a selection; the caret goes to
    /// the selection's start.  The flag tells whether there was a selection.
    pub open spec fn delete_selection(self) -> (EditModel, bool) {
        match self.selection {
            None => (self, false),
            Some(sel) => {
                let (lo, hi) = ordered(sel);
                (
                    EditModel {
                        text: splice(self.text, lo, hi, Seq::empty()),
                        cursor: lo,
                        selection: None,
                        ..self
                    },
                    true,
                )
            },
        }
    }

    /// Typing or pasting `s`: the selection is replaced; `s` goes in at the
    /// caret and the caret moves past it.
    pub open spec fn insert(self, s: Seq<char>) -> EditModel {
        let m = self.delete_selection().0;
        EditModel { text: splice(m.text, m.cursor, m.cursor, s), cursor: m.cursor + s.len(), ..m }
    }

    /// Backspace: deletes the selection, or else the character before the caret.
    pub open spec fn delete_back(self) -> EditModel {
        let (m, had) = self.delete_selection();
        if had {
            m
        } else if self.cursor > 0 {
            EditModel {
                text: splice(self.text, self.cursor - 1, self.cursor, Seq::empty()),
                cursor: self.cursor - 1,
                ..self
            }
        } else {
            self
        }
    }

    /// Delete: deletes the selection, or else the character after the caret.
    pub open spec fn delete_forward(self) -> EditModel {
        let (m, had) = self.delete_selection();
        if had {
            m
        } else if self.cursor < self.text.len() {
            EditModel { text: splice(self.text, self.cursor, self.cursor + 1, Seq::empty()), ..self }
        } else {
            self
        }
    }

    /// Moves the caret to `pos`; with `shift` the selection runs from its old
    /// anchor (or the old caret) to `pos`, without it the selection is dropped.
    pub open spec fn move_to(self, pos: int, shift: bool) -> EditModel {
        EditModel {
            cursor: pos,
            selection: if shift {
                match self.selection {
                    None => Some((self.cursor, pos)),
                    Some(sel) => Some((sel.0, pos)),
                }
            } else {
                None
            },
            ..self
        }
    }

    /// Arrow keys: one character left (stopping at 0) or right (stopping at the end).
    pub open spec fn move_by(self, delta: int, shift: bool) -> EditModel {
        let pos = if delta < 0 {
            if self.cursor >= -delta {
                self.cursor + delta
            } else {
                0
            }
        } else {
            min(self.cursor + delta, self.text.len() as int)
        };
        self.move_to(pos, shift)
    }

    /// Ctrl+A: everything selected, the caret at the end.
    pub open spec fn select_all(self) -> EditModel {
        EditModel {
            selection: Some((0, self.text.len() as int)),
            cursor: self.text.len() as int,
            ..self
        }
    }

    /// The selected text, if there is a selection.
    pub open spec fn selected_text(self) -> Option<Seq<char>> {
        match self.selection {
            None => None,
            Some(sel) => {
                let (lo, hi) = ordered(sel);
                let l = min(lo, self.text.len() as int);
                let h = min(hi, self.text.len() as int);
                Some(self.text.subrange(l, h))
            },
        }
    }

    /// Whether Backspace can be applied: with no selection, a caret past the end
    /// of the text would remove a character that is not there.
    pub open spec fn delete_back_defined(self) -> bool {
        self.selection is None && self.cursor > 0 ==> self.cursor - 1 < self.text.len()
    }

    /// The caret position after the selection (if any) is deleted.
    pub open spec fn caret_after_delete(self) -> int {
        match self.selection {
            None => self.cursor,
            Some(sel) => ordered(sel).0,
        }
    }
}

/// What a key did to a text field, beyond its own state.
#[derive(Debug)]
pub enum EditKeyOutcome {
    /// The key is not the field's.
    Ignored,
    /// The key was handled.
    Handled,
    /// The key was handled and this text is to be put on the clipboard.
    Copy(String),
    /// The key asks for the clipboard's text to be pasted (see [`TextInput::paste_text`]).
    Paste,
}

/// The result of a key on a text field: what the key did, and the text to
/// report to whoever follows the field's text, when the key changed it.
#[derive(Debug)]
pub struct EditKey {
    pub outcome: EditKeyOutcome,
    pub changed: Option<String>,
}

/// Whether a key edits the text (and the edit is to be reported): typing
/// without Ctrl; Ctrl+X, Backspace and Delete with a selection; Backspace
/// with the caret past the start; Delete with the caret before the end.
/// Moving, selecting, copying and ignored keys do not.
pub open spec fn key_edits(m: EditModel, event: KeyEvent, mods: Modifiers) -> bool {
    match event.key {
        Key::Character(s) => {
            if mods.ctrl && (is_char(s@, 'a') || is_char(s@, 'c') || is_char(s@, 'v')) {
                false
            } else if mods.ctrl && is_char(s@, 'x') {
                m.selection is Some
            } else {
                !mods.ctrl
            }
        },
        Key::Named(k) => {
            if k == NamedKey::Backspace {
                m.selection is Some || m.cursor > 0
            } else if k == NamedKey::Delete {
                m.selection is Some || m.cursor < m.text.len()
            } else {
                false
            }
        },
        Key::Unidentified => false,
    }
}

/// Whether `s` is the single character `c`.
pub open spec fn is_char(s: Seq<char>, c: char) -> bool {
    s == seq![c]
}

/// The state after a key, and what the key did.  Ctrl+A selects all, Ctrl+C
/// copies, Ctrl+V asks to paste, Ctrl+X copies and deletes the selection;
/// other text keys are typed unless Ctrl is held; Backspace, Delete, the left
/// and right arrows, Home and End edit or move (Shift extends the selection);
/// every other key is ignored.
pub open spec fn key_spec(m: EditModel, event: KeyEvent, mods: Modifiers) -> (EditModel, int) {
    // the outcome: 0 ignored, 1 handled, 2 copy, 3 paste
    match event.key {
        Key::Character(s) => {
            if mods.ctrl && is_char(s@, 'a') {
                (m.select_all(), 1)
            } else if mods.ctrl && is_char(s@, 'c') {
                (m, if m.selected_text() is Some { 2 } else { 1 })
            } else if mods.ctrl && is_char(s@, 'v') {
                (m, 3)
            } else if mods.ctrl && is_char(s@, 'x') {
                (m.delete_selection().0, if m.selected_text() is Some { 2 } else { 1 })
            } else if !mods.ctrl {
                (m.insert(s@), 1)
            } else {
                (m, 0)
            }
        },
        Key::Named(k) => {
            if k == NamedKey::Backspace {
                (m.delete_back(), 1)
            } else if k == NamedKey::Delete {
                (m.delete_forward(), 1)
            } else if k == NamedKey::ArrowLeft {
                (m.move_by(-1, mods.shift), 1)
            } else if k == NamedKey::ArrowRight {
                (m.move_by(1, mods.shift), 1)
            } else if k == NamedKey::Home {
                (m.move_to(0, mods.shift), 1)
            } else if k == NamedKey::End {
                (m.move_to(m.text.len() as int, mods.shift), 1)
            } else {
                (m, 0)
            }
        },
        Key::Unidentified => (m, 0),
    }
}

/// Whether a key can be applied without a caret position overflowing or
/// Backspace removing a character that is not there.
pub open spec fn key_defined(m: EditModel, event: KeyEvent, mods: Modifiers) -> bool {
    match event.key {
        Key::Character(s) => !mods.ctrl ==> m.caret_after_delete() + s@.len() <= usize::MAX,
        Key::Named(k) => {
            &&& (k == NamedKey::Backspace ==> m.delete_back_defined())
            &&& (k == NamedKey::ArrowRight ==> m.cursor + 1 <= usize::MAX)
        },
        Key::Unidentified => true,
    }
}

/// A single-line text field's editing state.
pub struct TextInput {
    text: String,
    cursor_pos: usize,
    selection: Option<(usize, usize)>,
    placeholder: String,
    focused: bool,
    mouse_dragging: bool,
}

impl View for TextInput {
    type V = EditModel;

    closed spec fn view(&self) -> EditModel {
        EditModel {
            text: self.text@,
            cursor: self.cursor_pos as int,
            selection: match self.selection {
                None => None,
                Some(s) => Some((s.0 as int, s.1 as int)),
            },
            placeholder: self.placeholder@,
            focused: self.focused,
            dragging: self.mouse_dragging,
        }
    }
}

/// The characters `lo..hi` of `t` as a new string.
fn substring(t: &String, lo: usize, hi: usize) -> (r: String)
    requires
        lo <= hi <= t@.len(),
    ensures
        r@ == t@.subrange(lo as int, hi as int),
{
    String::from_str(t.as_str().substring_char(lo, hi))
}

/// `t` with the characters `lo..hi` (cut to the text) replaced by `ins`.
fn splice_exec(t: &String, lo: usize, hi: usize, ins: &str) -> (r: String)
    requires
        lo <= hi,
    ensures
        r@ == splice(t@, lo as int, hi as int, ins@),
{
    let len = t.as_str().unicode_len();
    let l = if lo < len { lo } else { len };
    let h = if hi < len { hi } else { len };
    let mut r = substring(t, 0, l);
    r.append(ins);
    let rest = substring(t, h, len);
    r.append(rest.as_str());
    r
}

impl TextInput {
    /// An empty field.  Every edit of its text is reported in the result of
    /// the call that made it, for the owner to pass on.
    pub fn new() -> (t: Self)
        ensures
            t@.text == Seq::<char>::empty(),
            t@.cursor == 0,
            t@.selection is None,
            t@.placeholder == Seq::<char>::empty(),
            !t@.focused,
            !t@.dragging,
    {
        TextInput {
            text: String::new(),
            cursor_pos: 0,
            selection: None,
            placeholder: String::new(),
            focused: false,
            mouse_dragging: false,
        }
    }

    /// Sets the text shown while the field is empty.
    pub fn with_placeholder(self, text: &str) -> (t: Self)
        ensures
            t@ == (EditModel { placeholder: text@, ..self@ }),
    {
        TextInput { placeholder: String::from_str(text), ..self }
    }

    /// Sets the initial text; the caret goes to its end.
    pub fn with_initial_value(self, text: &str) -> (t: Self)
        ensures
            t@ == (EditModel { text: text@, cursor: text@.len() as int, ..self@ }),
    {
        let n = text.unicode_len();
        TextInput { text: String::from_str(text), cursor_pos: n, ..self }
    }

    fn char_count(&self) -> (n: usize)
        ensures
            n == self.text@.len(),
    {
        self.text.as_str().unicode_len()
    }

    /// Removes the selected text, if any; returns whether there was a selection.
    fn delete_selection(&mut self) -> (had: bool)
        ensures
            (final(self)@, had) == old(self)@.delete_selection(),
    {
        match self.selection {
            Some((start, end)) => {
                let (lo, hi) = if start < end { (start, end) } else { (end, start) };
                self.text = splice_exec(&self.text, lo, hi, "");
                proof {
                    reveal_strlit("");
                }
                self.cursor_pos = lo;
                self.selection = None;
                assert(self@.text =~= old(self)@.delete_selection().0.text);
                true
            },
            None => false,
        }
    }

    fn insert_text(&mut self, s: &str)
        requires
            old(self)@.caret_after_delete() + s@.len() <= usize::MAX,
        ensures
            final(self)@ == old(self)@.insert(s@),
    {
        self.delete_selection();
        self.text = splice_exec(&self.text, self.cursor_pos, self.cursor_pos, s);
        self.cursor_pos = self.cursor_pos + s.unicode_len();
    }

    fn delete_back(&mut self) -> (changed: bool)
        requires
            old(self)@.delete_back_defined(),
        ensures
            final(self)@ == old(self)@.delete_back(),
            changed == (old(self)@.selection is Some || old(self)@.cursor > 0),
    {
        if self.delete_selection() {
            return true;
        }
        if self.cursor_pos > 0 {
            self.cursor_pos = self.cursor_pos - 1;
            self.text = splice_exec(&self.text, self.cursor_pos, self.cursor_pos + 1, "");
            proof {
                reveal_strlit("");
            }
            assert(self@.text =~= old(self)@.delete_back().text);
            true
        } else {
            false
        }
    }

    fn delete_forward(&mut self) -> (changed: bool)
        ensures
            final(self)@ == old(self)@.delete_forward(),
            changed == (old(self)@.selection is Some || old(self)@.cursor < old(self)@.text.len()),
    {
        if self.delete_selection() {
            return true;
        }
        let n = self.char_count();
        if self.cursor_pos < n {
            self.text = splice_exec(&self.text, self.cursor_pos, self.cursor_pos + 1, "");
            proof {
                reveal_strlit("");
            }
            assert(self@.text =~= old(self)@.delete_forward().text);
            true
        } else {
            false
        }
    }

    fn move_to(&mut self, pos: usize, shift: bool)
        ensures
            final(self)@ == old(self)@.move_to(pos as int, shift),
    {
        let old_pos = self.cursor_pos;
        self.cursor_pos = pos;
        if shift {
            match self.selection {
                None => self.selection = Some((old_pos, pos)),
                Some((anchor, _)) => self.selection = Some((anchor, pos)),
            }
        } else {
            self.selection = None;
        }
    }

    fn select_all(&mut self)
        ensures
            final(self)@ == old(self)@.select_all(),
    {
        let n = self.char_count();
        self.selection = Some((0, n));
        self.cursor_pos = n;
    }

    /// The selected text, if there is a selection.
    pub fn selected_text(&self) -> (r: Option<String>)
        ensures
            match r {
                Some(s) => self@.selected_text() == Some(s@),
                None => self@.selected_text() is None,
            },
    {
        match self.selection {
            Some((start, end)) => {
                let (lo, hi) = if start < end { (start, end) } else { (end, start) };
                let len = self.char_count();
                let l = if lo < len { lo } else { len };
                let h = if hi < len { hi } else { len };
                Some(substring(&self.text, l, h))
            },
            None => None,
        }
    }

    /// A copy of the text.
    fn text_copy(&self) -> (r: String)
        ensures
            r@ == self@.text,
    {
        String::from_str(self.text.as_str())
    }

    /// Inserts text taken from the clipboard at the caret, replacing the selection.
    /// Returns the new text, to be reported.
    pub fn paste_text(&mut self, s: &str) -> (changed: String)
        requires
            old(self)@.caret_after_delete() + s@.len() <= usize::MAX,
        ensures
            final(self)@ == old(self)@.insert(s@),
            changed@ == final(self)@.text,
    {
        self.insert_text(s);
        self.text_copy()
    }

    /// Handles a key while the field has focus.  The result says what the
    /// key did and, when it edited the text, carries the new text to report.
    pub fn handle_key_event(&mut self, event: &KeyEvent, modifiers: Modifiers) -> (out: EditKey)
        requires
            key_defined(old(self)@, *event, modifiers),
        ensures
            final(self)@ == key_spec(old(self)@, *event, modifiers).0,
            match out.changed {
                Some(t) => key_edits(old(self)@, *event, modifiers) && t@ == final(self)@.text,
                None => !key_edits(old(self)@, *event, modifiers),
            },
            match out.outcome {
                EditKeyOutcome::Ignored => key_spec(old(self)@, *event, modifiers).1 == 0,
                EditKeyOutcome::Handled => key_spec(old(self)@, *event, modifiers).1 == 1,
                EditKeyOutcome::Copy(s) => key_spec(old(self)@, *event, modifiers).1 == 2
                    && old(self)@.selected_text() == Some(s@),
                EditKeyOutcome::Paste => key_spec(old(self)@, *event, modifiers).1 == 3,
            },
    {
        let (outcome, edited) = self.apply_key(event, modifiers);
        let changed = if edited {
            Some(self.text_copy())
        } else {
            None
        };
        EditKey { outcome, changed }
    }

    fn apply_key(&mut self, event: &KeyEvent, modifiers: Modifiers) -> (out: (EditKeyOutcome, bool))
        requires
            key_defined(old(self)@, *event, modifiers),
        ensures
            final(self)@ == key_spec(old(self)@, *event, modifiers).0,
            out.1 == key_edits(old(self)@, *event, modifiers),
            match out.0 {
                EditKeyOutcome::Ignored => key_spec(old(self)@, *event, modifiers).1 == 0,
                EditKeyOutcome::Handled => key_spec(old(self)@, *event, modifiers).1 == 1,
                EditKeyOutcome::Copy(s) => key_spec(old(self)@, *event, modifiers).1 == 2
                    && old(self)@.selected_text() == Some(s@),
                EditKeyOutcome::Paste => key_spec(old(self)@, *event, modifiers).1 == 3,
            },
    {
        let ctrl = modifiers.ctrl;
        let shift = modifiers.shift;
        match &event.key {
            Key::Character(c) => {
                let s = c.as_str();
                let single = s.unicode_len() == 1;
                let first = if single {
                    s.get_char(0)
                } else {
                    '\0'
                };
                proof {
                    if !single {
                        assert(!is_char(c@, 'a') && !is_char(c@, 'c') && !is_char(c@, 'v') && !is_char(c@, 'x'));
                    }
                    if single {
                        assert(c@ =~= seq![first]);
                        assert(is_char(c@, 'a') == (first == 'a'));
                        assert(is_char(c@, 'c') == (first == 'c'));
                        assert(is_char(c@, 'v') == (first == 'v'));
                        assert(is_char(c@, 'x') == (first == 'x'));
                    }
                }
                if ctrl && single && first == 'a' {
                    self.select_all();
                    (EditKeyOutcome::Handled, false)
                } else if ctrl && single && first == 'c' {
                    match self.selected_text() {
                        Some(t) => (EditKeyOutcome::Copy(t), false),
                        None => (EditKeyOutcome::Handled, false),
                    }
                } else if ctrl && single && first == 'v' {
                    (EditKeyOutcome::Paste, false)
                } else if ctrl && single && first == 'x' {
                    let copied = self.selected_text();
                    let had = self.delete_selection();
                    match copied {
                        Some(t) => (EditKeyOutcome::Copy(t), had),
                        None => (EditKeyOutcome::Handled, had),
                    }
                } else if !ctrl {
                    self.insert_text(s);
                    (EditKeyOutcome::Handled, true)
                } else {
                    (EditKeyOutcome::Ignored, false)
                }
            },
            Key::Named(k) => {
                match k {
                    NamedKey::Backspace => {
                        let changed = self.delete_back();
                        (EditKeyOutcome::Handled, changed)
                    },
                    NamedKey::Delete => {
                        let changed = self.delete_forward();
                        (EditKeyOutcome::Handled, changed)
                    },
                    NamedKey::ArrowLeft => {
                        let pos = self.cursor_pos.saturating_sub(1);
                        self.move_to(pos, shift);
                        (EditKeyOutcome::Handled, false)
                    },
                    NamedKey::ArrowRight => {
                        let n = self.char_count();
                        let pos = if self.cursor_pos + 1 < n {
                            self.cursor_pos + 1
                        } else {
                            n
                        };
                        self.move_to(pos, shift);
                        (EditKeyOutcome::Handled, false)
                    },
                    NamedKey::Home => {
                        self.move_to(0, shift);
                        (EditKeyOutcome::Handled, false)
                    },
                    NamedKey::End => {
                        let n = self.char_count();
                        self.move_to(n, shift);
                        (EditKeyOutcome::Handled, false)
                    },
                    _ => (EditKeyOutcome::Ignored, false),
                }
            },
            Key::Unidentified => (EditKeyOutcome::Ignored, false),
        }
    }

    /// A left press: inside the field (`hit`) the caret goes to the character
    /// position `pos` under the pointer, the selection is dropped and a drag
    /// begins; returns whether the press was inside.
    pub fn press(&mut self, hit: bool, pos: usize) -> (consumed: bool)
        ensures
            consumed == hit,
            hit ==> final(self)@ == (EditModel { cursor: pos as int, selection: None, dragging: true, ..old(self)@ }),
            !hit ==> final(self)@ == old(self)@,
    {
        if hit {
            self.cursor_pos = pos;
            self.selection = None;
            self.mouse_dragging = true;
            true
        } else {
            false
        }
    }

    /// A left release: the drag ends.
    pub fn release(&mut self)
        ensures
            final(self)@ == (EditModel { dragging: false, ..old(self)@ }),
    {
        self.mouse_dragging = false;
    }

    /// The pointer moved over character position `pos`: while dragging with
    /// focus, the caret follows it and the selection runs from the anchor (the
    /// selection's start, or the caret where the drag began) to it.  Returns
    /// whether the caret moved.
    pub fn drag_to(&mut self, pos: usize) -> (moved: bool)
        ensures
            moved == (old(self)@.dragging && old(self)@.focused && pos != old(self)@.cursor),
            moved ==> {
                let anchor = match old(self)@.selection {
                    Some(sel) => sel.0,
                    None => old(self)@.cursor,
                };
                final(self)@ == (EditModel {
                    cursor: pos as int,
                    selection: if anchor != pos { Some((anchor, pos as int)) } else { None },
                    ..old(self)@
                })
            },
            !moved ==> final(self)@ == old(self)@,
    {
        if self.mouse_dragging && self.focused && pos != self.cursor_pos {
            let anchor = match self.selection {
                Some((a, _)) => a,
                None => self.cursor_pos,
            };
            self.cursor_pos = pos;
            if anchor != pos {
                self.selection = Some((anchor, pos));
            } else {
                self.selection = None;
            }
            true
        } else {
            false
        }
    }

    /// Gives or takes the keyboard focus.
    pub fn set_focus(&mut self, focused: bool)
        ensures
            final(self)@ == (EditModel { focused: focused, ..old(self)@ }),
    {
        self.focused = focused;
    }

    /// The text before the caret.
    pub fn text_before_cursor(&self) -> (r: &str)
        ensures
            r@ == self@.text.subrange(0, min(self@.cursor, self@.text.len() as int)),
    {
        let len = self.char_count();
        let p = if self.cursor_pos < len { self.cursor_pos } else { len };
        self.text.as_str().substring_char(0, p)
    }

    /// The full text.
    pub fn text(&self) -> (r: &str)
        ensures
            r@ == self@.text,
    {
        self.text.as_str()
    }

    /// The caret position, in characters.
    pub fn cursor(&self) -> (r: usize)
        ensures
            r == self@.cursor,
    {
        self.cursor_pos
    }

    /// The selection (anchor, caret), in characters.
    pub fn selection(&self) -> (r: Option<(usize, usize)>)
        ensures
            match r {
                None => self@.selection is None,
                Some(s) => self@.selection == Some((s.0 as int, s.1 as int)),
            },
    {
        self.selection
    }

    /// The text shown while the field is empty.
    pub fn placeholder(&self) -> (r: &str)
        ensures
            r@ == self@.placeholder,
    {
        self.placeholder.as_str()
    }

    /// Whether the field has the keyboard focus.
    pub fn is_focused(&self) -> (r: bool)
        ensures
            r == self@.focused,
    {
        self.focused
    }
}

/// Typing a character and then pressing Backspace gives back the text and
/// the caret as they were (with nothing selected and the caret within the
/// text).
pub proof fn type_then_backspace_restores(m: EditModel, c: char)
    requires
        m.selection is None,
        0 <= m.cursor <= m.text.len(),
    ensures
        m.insert(seq![c]).delete_back() == m,
{
    let m1 = m.insert(seq![c]);
    assert(m1.text =~= m.text.subrange(0, m.cursor) + seq![c] + m.text.subrange(m.cursor, m.text.len() as int));
    assert(m1.delete_back().text =~= m.text);
}

/// Select-all selects the whole text.
pub proof fn select_all_selects_everything(m: EditModel)
    ensures
        m.select_all().selected_text() == Some(m.text),
{
    assert(m.text.subrange(0, m.text.len() as int) =~= m.text);
}

/// Cutting the selection and pasting the cut text at once puts the text back
/// as it was (for a selection within the text); the caret ends after it.
pub proof fn cut_then_paste_restores(m: EditModel)
    requires
        m.selection is Some,
        0 <= (m.selection->0).0 <= m.text.len(),
        0 <= (m.selection->0).1 <= m.text.len(),
    ensures
        m.delete_selection().0.insert(m.selected_text()->0).text == m.text,
        m.delete_selection().0.insert(m.selected_text()->0).cursor == ordered(m.selection->0).1,
        m.delete_selection().0.insert(m.selected_text()->0).selection is None,
{
    let (lo, hi) = ordered(m.selection->0);
    let cut = m.text.subrange(lo, hi);
    let m1 = m.delete_selection().0;
    assert(m1.text =~= m.text.subrange(0, lo) + m.text.subrange(hi, m.text.len() as int));
    assert(m1.insert(cut).text =~= m.text);
}

/// The caret keys move the caret and leave the text alone: the right arrow
/// one character on (stopping at the end), the left arrow one back (stopping
/// at the start), Home to the start and End to the end.  With Shift the
/// selection runs from its anchor (the old selection's start, or else the
/// old caret) to the new caret; without Shift there is no selection after.
pub proof fn caret_keys_move_and_shift_selects(m: EditModel, mods: Modifiers)
    requires
        0 <= m.cursor,
    ensures
        ({
            let anchor = match m.selection {
                Some(sel) => sel.0,
                None => m.cursor,
            };
            let press = |k: NamedKey| KeyEvent { key: Key::Named(k), pressed: true };
            let right = key_spec(m, press(NamedKey::ArrowRight), mods).0;
            let left = key_spec(m, press(NamedKey::ArrowLeft), mods).0;
            let home = key_spec(m, press(NamedKey::Home), mods).0;
            let end = key_spec(m, press(NamedKey::End), mods).0;
            &&& right.cursor == (if m.cursor < m.text.len() { m.cursor + 1 } else { m.text.len() as int })
            &&& left.cursor == (if m.cursor > 0 { m.cursor - 1 } else { 0 })
            &&& home.cursor == 0
            &&& end.cursor == m.text.len()
            &&& forall|r: EditModel|
                #![trigger r.selection]
                r == right || r == left || r == home || r == end ==> {
                    &&& r.text == m.text
                    &&& (mods.shift ==> r.selection == Some((anchor, r.cursor)))
                    &&& (!mods.shift ==> r.selection is None)
                }
        }),
{
}


/// Typing, Backspace and Delete with nothing selected: a character typed
/// (without Ctrl) goes in at the caret and the caret moves past it;
/// Backspace removes the character before the caret and moves back onto
/// its place (nothing at the start); Delete removes the character after
/// the caret, which stays (nothing at the end).  Each is handled.
pub proof fn typing_and_deleting_at_the_caret(m: EditModel, c: char, s: String, mods: Modifiers)
    requires
        m.selection is None,
        0 <= m.cursor <= m.text.len(),
        s@ == seq![c],
        !mods.ctrl,
    ensures
        ({
            let t = m.text;
            let k = m.cursor;
            let typed = key_spec(m, KeyEvent { key: Key::Character(s), pressed: true }, mods);
            let back = key_spec(m, KeyEvent { key: Key::Named(NamedKey::Backspace), pressed: true }, mods);
            let del = key_spec(m, KeyEvent { key: Key::Named(NamedKey::Delete), pressed: true }, mods);
            &&& typed.1 == 1 && back.1 == 1 && del.1 == 1
            &&& typed.0.text == t.subrange(0, k) + seq![c] + t.subrange(k, t.len() as int)
            &&& typed.0.cursor == k + 1 && typed.0.selection is None
            &&& k > 0 ==> back.0.text == t.subrange(0, k - 1) + t.subrange(k, t.len() as int) && back.0.cursor
                == k - 1
            &&& k == 0 ==> back.0 == m
            &&& k < t.len() ==> del.0.text == t.subrange(0, k) + t.subrange(k + 1, t.len() as int)
                && del.0.cursor == k
            &&& k == t.len() ==> del.0 == m
            &&& back.0.selection is None && del.0.selection is None
        }),
{
    let t = m.text;
    let k = m.cursor;
    assert(!is_char(s@, 'a') || !mods.ctrl);
    assert(t.subrange(0, k) + seq![c] + t.subrange(k, t.len() as int) =~= t.subrange(0, k) + seq![c]
        + t.subrange(k, t.len() as int));
    assert(splice(t, k, k, seq![c]) =~= t.subrange(0, k) + seq![c] + t.subrange(k, t.len() as int));
}

/// With a selection inside the text, typing, Backspace and Delete all
/// remove the selected characters, typing then puts its character in their
/// place; the caret ends at the selection's start (after the typed
/// character) and nothing stays selected.
pub proof fn editing_keys_replace_the_selection(m: EditModel, c: char, s: String, mods: Modifiers)
    requires
        m.selection is Some,
        0 <= (m.selection->0).0 <= m.text.len(),
        0 <= (m.selection->0).1 <= m.text.len(),
        s@ == seq![c],
        !mods.ctrl,
    ensures
        ({
            let t = m.text;
            let (lo, hi) = ordered(m.selection->0);
            let typed = key_spec(m, KeyEvent { key: Key::Character(s), pressed: true }, mods).0;
            let back = key_spec(m, KeyEvent { key: Key::Named(NamedKey::Backspace), pressed: true }, mods).0;
            let del = key_spec(m, KeyEvent { key: Key::Named(NamedKey::Delete), pressed: true }, mods).0;
            &&& typed.text == t.subrange(0, lo) + seq![c] + t.subrange(hi, t.len() as int)
            &&& typed.cursor == lo + 1 && typed.selection is None
            &&& back.text == t.subrange(0, lo) + t.subrange(hi, t.len() as int)
            &&& back.cursor == lo && back.selection is None
            &&& del == back
        }),
{
    let t = m.text;
    let (lo, hi) = ordered(m.selection->0);
    let m1 = m.delete_selection().0;
    assert(m1.text =~= t.subrange(0, lo) + t.subrange(hi, t.len() as int));
    assert(m1.insert(seq![c]).text =~= t.subrange(0, lo) + seq![c] + t.subrange(hi, t.len() as int));
}

/// The Ctrl shortcuts: Ctrl+A selects the whole text with the caret at its
/// end; Ctrl+C copies the selection (when there is one) and changes
/// nothing; Ctrl+V asks for the clipboard and changes nothing; Ctrl+X
/// copies the selection and removes it.  None of them types its letter.
pub proof fn ctrl_shortcuts_select_copy_paste_and_cut(
    m: EditModel,
    a: String,
    c: String,
    v: String,
    x: String,
    mods: Modifiers,
)
    requires
        a@ == seq!['a'],
        c@ == seq!['c'],
        v@ == seq!['v'],
        x@ == seq!['x'],
        mods.ctrl,
    ensures
        ({
            let press = |s: String| KeyEvent { key: Key::Character(s), pressed: true };
            let all = key_spec(m, press(a), mods);
            let copy = key_spec(m, press(c), mods);
            let paste = key_spec(m, press(v), mods);
            let cut = key_spec(m, press(x), mods);
            &&& all.1 == 1 && all.0.text == m.text && all.0.cursor == m.text.len()
            &&& all.0.selection == Some((0int, m.text.len() as int))
            &&& copy.0 == m && copy.1 == (if m.selection is Some { 2int } else { 1int })
            &&& paste.0 == m && paste.1 == 3
            &&& cut.1 == (if m.selection is Some { 2int } else { 1int })
            &&& (m.selection is None ==> cut.0 == m)
            &&& (m.selection is Some ==> cut.0.selection is None && cut.0.text == splice(
                m.text,
                ordered(m.selection->0).0,
                ordered(m.selection->0).1,
                Seq::empty(),
            ))
            &&& !key_edits(m, press(a), mods) && !key_edits(m, press(c), mods) && !key_edits(m, press(v), mods)
        }),
{
    assert(c@[0] == 'c' && v@[0] == 'v' && x@[0] == 'x');
    assert(seq!['a'][0] == 'a' && seq!['c'][0] == 'c' && seq!['v'][0] == 'v');
    assert(is_char(a@, 'a'));
    assert(is_char(c@, 'c') && !is_char(c@, 'a'));
    assert(is_char(v@, 'v') && !is_char(v@, 'a') && !is_char(v@, 'c'));
    assert(is_char(x@, 'x') && !is_char(x@, 'a') && !is_char(x@, 'c') && !is_char(x@, 'v'));
}

} // verus!

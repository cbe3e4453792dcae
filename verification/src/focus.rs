//! Keyboard focus of a window: the focusable widgets in tab order, which of
//! them has the focus, and what the window does with a key that the focused
//! widget did not take.
use vstd::prelude::*;

use crate::keys::{Key, Modifiers, NamedKey, is_named};
use crate::tree::{WidgetNode, collect_focus_paths, focus_paths, path_seqs};

verus! {

/// The abstract state of a focus ring.
pub struct FocusModel {
    pub paths: Seq<Seq<usize>>,
    pub focused: Option<int>,
}

impl FocusModel {
    /// The focused index is one of the paths.
    pub open spec fn wf(self) -> bool {
        self.focused is Some ==> 0 <= self.focused->0 < self.paths.len()
    }

    /// The index after `Tab` (or before it, with `reverse`): one step along
    /// the ring from the focused index (from 0 when nothing has focus),
    /// wrapping at both ends.  Nothing changes when there are no paths.
    pub open spec fn step(self, reverse: bool) -> FocusModel {
        let n = self.paths.len() as int;
        let cur = match self.focused {
            Some(i) => i,
            None => 0,
        };
        if n == 0 {
            self
        } else if reverse {
            FocusModel { focused: Some((cur + n - 1) % n), ..self }
        } else {
            FocusModel { focused: Some((cur + 1) % n), ..self }
        }
    }

    /// Focus on the first path equal to `path`; nothing changes when no path
    /// is.
    pub open spec fn focus_path(self, path: Seq<usize>) -> FocusModel {
        match self.paths.index_of_first(path) {
            Some(i) => FocusModel { focused: Some(i), ..self },
            None => self,
        }
    }
}

/// The focusable widgets of a window, by path, and which one has the focus.
pub struct FocusRing {
    paths: Vec<Vec<usize>>,
    focused: Option<usize>,
}

impl FocusRing {
    /// The focused index is one of the paths.
    #[verifier::type_invariant]
    spec fn inv(self) -> bool {
        self.focused is Some ==> self.focused->0 < self.paths@.len()
    }
}

impl View for FocusRing {
    type V = FocusModel;

    closed spec fn view(&self) -> FocusModel {
        FocusModel {
            paths: path_seqs(self.paths@),
            focused: match self.focused {
                Some(i) => Some(i as int),
                None => None,
            },
        }
    }
}

/// What the window does with a key that the focused widget did not take.
#[derive(Clone, Copy, Debug, PartialEq, Eq, Structural)]
pub enum WindowKeyAction {
    /// Nothing.
    Ignore,
    /// The focus moved along the ring: the widgets learn which has it now.
    FocusMoved,
    /// The focused widget is activated (as by a click).
    Activate,
    /// Every widget drops its active state (open menus, drags).
    ClearActive,
}

impl FocusRing {
    /// The ring of `root`'s focusable widgets in tab order; the first has the
    /// focus, when there is one.
    pub fn new<W>(root: &WidgetNode<W>) -> (r: Self)
        ensures
            r@.paths == focus_paths(*root, Seq::empty()),
            r@.focused == (if r@.paths.len() > 0 {
                Some(0int)
            } else {
                None
            }),
            r@.wf(),
    {
        let mut path: Vec<usize> = Vec::new();
        let mut paths: Vec<Vec<usize>> = Vec::new();
        collect_focus_paths(root, &mut path, &mut paths);
        assert(path_seqs(paths@) =~= focus_paths(*root, Seq::empty()));
        let focused = if paths.len() > 0 {
            Some(0)
        } else {
            None
        };
        FocusRing { paths, focused }
    }

    /// The number of focusable widgets.  The focused index, if any, is below
    /// it.
    pub fn len(&self) -> (n: usize)
        ensures
            n == self@.paths.len(),
            self@.wf(),
    {
        proof {
            use_type_invariant(&*self);
        }
        self.paths.len()
    }

    /// The path of the `i`-th focusable widget.
    pub fn path(&self, i: usize) -> (p: &Vec<usize>)
        requires
            i < self@.paths.len(),
        ensures
            p@ == self@.paths[i as int],
    {
        &self.paths[i]
    }

    /// The index of the focused widget (one of the paths).
    pub fn focused_index(&self) -> (r: Option<usize>)
        ensures
            match r {
                Some(i) => self@.focused == Some(i as int),
                None => self@.focused is None,
            },
            self@.wf(),
    {
        proof {
            use_type_invariant(&*self);
        }
        self.focused
    }

    /// Whether the `i`-th focusable widget has the focus.
    pub fn is_focused(&self, i: usize) -> (b: bool)
        ensures
            b == (self@.focused == Some(i as int)),
    {
        match self.focused {
            Some(j) => i == j,
            None => false,
        }
    }

    /// The path of the focused widget.
    pub fn focused_path(&self) -> (p: Option<&Vec<usize>>)
        ensures
            match p {
                Some(v) => self@.focused is Some && v@ == self@.paths[self@.focused->0],
                None => self@.focused is None,
            },
    {
        proof {
            use_type_invariant(&*self);
        }
        match self.focused {
            Some(i) => Some(&self.paths[i]),
            None => None,
        }
    }

    /// Moves the focus one step along the ring (backwards with `reverse`).
    pub fn focus_next(&mut self, reverse: bool)
        ensures
            final(self)@ == old(self)@.step(reverse),
            final(self)@.wf(),
    {
        proof {
            use_type_invariant(&*self);
        }
        let count = self.paths.len();
        if count == 0 {
            return;
        }
        let current = match self.focused {
            Some(i) => i,
            None => 0,
        };
        let next = if reverse {
            if current == 0 {
                count - 1
            } else {
                current - 1
            }
        } else {
            if current + 1 >= count {
                0
            } else {
                current + 1
            }
        };
        proof {
            let n = count as int;
            let c = current as int;
            if reverse {
                if c == 0 {
                    assert((c + n - 1) % n == n - 1) by (nonlinear_arith)
                        requires
                            c == 0,
                            n > 0,
                    ;
                } else {
                    assert((c + n - 1) % n == c - 1) by (nonlinear_arith)
                        requires
                            0 < c < n,
                    ;
                }
            } else {
                if c + 1 >= n {
                    assert((c + 1) % n == 0) by (nonlinear_arith)
                        requires
                            0 <= c,
                            c + 1 == n,
                    ;
                } else {
                    assert((c + 1) % n == c + 1) by (nonlinear_arith)
                        requires
                            0 <= c,
                            c + 1 < n,
                    ;
                }
            }
        }
        self.focused = Some(next);
    }

    /// The index of the first path equal to `path`.
    pub fn position(&self, path: &[usize]) -> (r: Option<usize>)
        ensures
            match r {
                Some(i) => self@.paths.index_of_first(path@) == Some(i as int),
                None => self@.paths.index_of_first(path@) is None,
            },
    {
        let ghost ps = self@.paths;
        let n = self.paths.len();
        let mut i: usize = 0;
        while i < n
            invariant
                n == self.paths@.len() == ps.len(),
                ps == self@.paths,
                i <= n,
                forall|j: int| 0 <= j < i ==> ps[j] != path@,
            decreases n - i,
        {
            if slices_equal(self.paths[i].as_slice(), path) {
                proof {
                    lemma_first_index(ps, path@, i as int);
                }
                return Some(i);
            }
            i = i + 1;
        }
        proof {
            ps.index_of_first_ensures(path@);
            if ps.index_of_first(path@) is Some {
                let k = ps.index_of_first(path@)->0;
                assert(ps[k] == path@);
            }
        }
        None
    }

    /// Gives the focus to the widget at `path` (the widget a click landed
    /// on), if it is focusable.
    pub fn set_focus_by_path(&mut self, path: &[usize])
        ensures
            final(self)@ == old(self)@.focus_path(path@),
            final(self)@.wf(),
    {
        proof {
            use_type_invariant(&*self);
        }
        match self.position(path) {
            Some(i) => {
                proof {
                    self@.paths.index_of_first_ensures(path@);
                }
                self.focused = Some(i);
            },
            None => {},
        }
    }

    /// A key that the focused widget did not take.  `Tab` moves the focus
    /// forward (backward with `Shift`), `Enter` and `Space` activate the
    /// focused widget, `Escape` clears the active state of every widget.
    pub fn handle_unconsumed_key(&mut self, key: &Key, modifiers: Modifiers) -> (a: WindowKeyAction)
        ensures
            final(self)@.wf(),
            *key == Key::Named(NamedKey::Tab) ==> a == WindowKeyAction::FocusMoved && final(self)@ == old(
                self,
            )@.step(modifiers.shift),
            *key != Key::Named(NamedKey::Tab) ==> final(self)@ == old(self)@,
            *key == Key::Named(NamedKey::Enter) || *key == Key::Named(NamedKey::Space) ==> a
                == WindowKeyAction::Activate,
            *key == Key::Named(NamedKey::Escape) ==> a == WindowKeyAction::ClearActive,
            *key != Key::Named(NamedKey::Tab) && *key != Key::Named(NamedKey::Enter) && *key != Key::Named(
                NamedKey::Space,
            ) && *key != Key::Named(NamedKey::Escape) ==> a == WindowKeyAction::Ignore,
    {
        proof {
            use_type_invariant(&*self);
        }
        if is_named(key, NamedKey::Tab) {
            self.focus_next(modifiers.shift);
            WindowKeyAction::FocusMoved
        } else if is_named(key, NamedKey::Enter) || is_named(key, NamedKey::Space) {
            WindowKeyAction::Activate
        } else if is_named(key, NamedKey::Escape) {
            WindowKeyAction::ClearActive
        } else {
            WindowKeyAction::Ignore
        }
    }
}

proof fn lemma_first_index(ps: Seq<Seq<usize>>, p: Seq<usize>, i: int)
    requires
        0 <= i < ps.len(),
        ps[i] == p,
        forall|j: int| 0 <= j < i ==> ps[j] != p,
    ensures
        ps.index_of_first(p) == Some(i),
{
    ps.index_of_first_ensures(p);
    assert(ps.contains(p));
}

/// Tab then Shift+Tab, or Shift+Tab then Tab, gives the focus back to the
/// widget that had it.
pub proof fn tab_then_back_restores_focus(m: FocusModel)
    requires
        m.wf(),
        m.focused is Some,
    ensures
        m.step(false).step(true) == m,
        m.step(true).step(false) == m,
{
    let n = m.paths.len() as int;
    let c = m.focused->0;
    assert(((c + 1) % n + n - 1) % n == c) by (nonlinear_arith)
        requires
            0 <= c < n,
    {
        if c + 1 < n {
            assert((c + 1) % n == c + 1);
            assert((c + n) % n == c);
        } else {
            assert((c + 1) % n == 0);
            assert((n - 1) % n == n - 1);
        }
    }
    assert(((c + n - 1) % n + 1) % n == c) by (nonlinear_arith)
        requires
            0 <= c < n,
    {
        if c == 0 {
            assert((c + n - 1) % n == n - 1);
            assert(n % n == 0);
        } else {
            assert((c + n - 1) % n == c - 1);
        }
    }
}

/// The focus after `k` presses of Tab (of Shift+Tab with `reverse`).
pub open spec fn steps(m: FocusModel, reverse: bool, k: nat) -> FocusModel
    decreases k,
{
    if k == 0 {
        m
    } else {
        steps(m, reverse, (k - 1) as nat).step(reverse)
    }
}

proof fn lemma_steps_forward(m: FocusModel, k: nat)
    requires
        m.wf(),
        m.focused is Some,
    ensures
        steps(m, false, k) == (FocusModel {
            focused: Some((m.focused->0 + k) % (m.paths.len() as int)),
            ..m
        }),
    decreases k,
{
    let n = m.paths.len() as int;
    let c = m.focused->0;
    if k == 0 {
        assert(c % n == c) by (nonlinear_arith)
            requires
                0 <= c < n,
        ;
    } else {
        lemma_steps_forward(m, (k - 1) as nat);
        let j = (k - 1) as int;
        assert(((c + j) % n + 1) % n == (c + j + 1) % n) by {
            vstd::arithmetic::div_mod::lemma_add_mod_noop_right(1, c + j, n);
        }
    }
}

/// Pressing Tab once per focusable widget brings the focus back around to
/// the widget that had it.
pub proof fn tab_around_the_ring_restores_focus(m: FocusModel)
    requires
        m.wf(),
        m.focused is Some,
    ensures
        steps(m, false, m.paths.len()) == m,
{
    lemma_steps_forward(m, m.paths.len());
    let n = m.paths.len() as int;
    let c = m.focused->0;
    assert((c + n) % n == c) by (nonlinear_arith)
        requires
            0 <= c < n,
    ;
}

/// A step along the ring keeps the focus on one of the focusable widgets.
pub proof fn step_keeps_focus_in_ring(m: FocusModel, reverse: bool)
    requires
        m.wf(),
    ensures
        m.step(reverse).wf(),
        m.paths.len() > 0 ==> m.step(reverse).focused is Some,
{
    let n = m.paths.len() as int;
    if n > 0 {
        let c = match m.focused {
            Some(i) => i,
            None => 0,
        };
        assert(0 <= (c + n - 1) % n < n && 0 <= (c + 1) % n < n) by (nonlinear_arith)
            requires
                0 <= c < n,
        ;
    }
}

/// Tab moves the focus to the next focusable widget and Shift+Tab to the
/// previous one, one at a time: from widget `i` Tab focuses `i + 1` (the
/// first after the last) and Shift+Tab `i - 1` (the last before the first);
/// with nothing focused Tab focuses the second widget (or the only one) and
/// Shift+Tab the last.  The list of widgets does not change.
pub proof fn tab_focuses_the_neighbour(m: FocusModel)
    requires
        m.wf(),
        m.paths.len() > 0,
    ensures
        ({
            let n = m.paths.len() as int;
            let i = match m.focused {
                Some(i) => i,
                None => 0,
            };
            &&& m.step(false).focused == Some(if i + 1 < n { i + 1 } else { 0 })
            &&& m.step(true).focused == Some(if i > 0 { i - 1 } else { n - 1 })
            &&& m.step(false).paths == m.paths && m.step(true).paths == m.paths
        }),
{
    let n = m.paths.len() as int;
    let i = match m.focused {
        Some(i) => i,
        None => 0,
    };
    assert((i + 1) % n == (if i + 1 < n { i + 1 } else { 0 })) by (nonlinear_arith)
        requires
            0 <= i < n,
    ;
    assert((i + n - 1) % n == (if i > 0 { i - 1 } else { n - 1 })) by (nonlinear_arith)
        requires
            0 <= i < n,
    ;
}

/// Whether two paths are equal.
pub fn slices_equal(a: &[usize], b: &[usize]) -> (r: bool)
    ensures
        r == (a@ == b@),
{
    if a.len() != b.len() {
        return false;
    }
    let mut i: usize = 0;
    while i < a.len()
        invariant
            a@.len() == b@.len(),
            i <= a@.len(),
            forall|j: int| 0 <= j < i ==> a@[j] == b@[j],
        decreases a@.len() - i,
    {
        if a[i] != b[i] {
            return false;
        }
        i = i + 1;
    }
    assert(a@ =~= b@);
    true
}

} // verus!

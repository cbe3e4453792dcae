//! Reactive values shared between the widgets that read them and the code that
//! writes them: a [`Signal`] reads, a [`SetSignal`] writes, and both handles of
//! one pair refer to the same cell.
use std::cell::RefCell;
use std::rc::Rc;
use vstd::prelude::*;

verus! {

#[verifier::external_type_specification]
#[verifier::external_body]
#[verifier::reject_recursive_types(T)]
pub struct ExRefCell<T: ?Sized>(RefCell<T>);

/// Calls `RefCell::new`: a cell holding `value`.  Verus sees nothing inside
/// the cell, so nothing is stated of its content.
#[verifier::external_body]
fn cell_new<T>(value: T) -> RefCell<T> {
    RefCell::new(value)
}

/// Calls `RefCell::try_borrow_mut` and, when the cell is not borrowed,
/// stores `value` in it (the old value is dropped).  When the cell is
/// borrowed, nothing is stored and `value` comes back as the error.  Left
/// unsaid: the cell's content after a store, which Verus does not see.
#[verifier::external_body]
fn cell_try_set<T>(cell: &RefCell<T>, value: T) -> (r: Result<(), T>)
    ensures
        match r {
            Ok(()) => true,
            Err(v) => v == value,
        },
{
    match cell.try_borrow_mut() {
        Ok(mut content) => {
            *content = value;
            Ok(())
        },
        Err(_) => Err(value),
    }
}

/// Calls `RefCell::try_borrow` and, when the cell is not mutably borrowed,
/// hands the shared borrow of the content to `f` and returns what `f`
/// returns; otherwise `f` is not called and the result is `None`.  Claimed:
/// a result is one that `f` can return for some value.  Left unsaid: which
/// value (the cell's content, which any handle may change) and when the cell
/// is borrowed, which Verus does not see.
#[verifier::external_body]
fn cell_try_with<T, R, F: FnOnce(&T) -> R>(cell: &RefCell<T>, f: F) -> (r: Option<R>)
    requires
        forall|v: &T| call_requires(f, (v,)),
    ensures
        match r {
            Some(x) => exists|v: &T| call_ensures(f, (v,), x),
            None => true,
        },
{
    match cell.try_borrow() {
        Ok(content) => Some(f(&*content)),
        Err(_) => None,
    }
}

/// Calls `RefCell::try_borrow_mut` and, when the cell is not borrowed, hands
/// the mutable borrow of the content to `f`; returns whether it did.  Left
/// unsaid: the new content, and when the cell is borrowed.
#[verifier::external_body]
fn cell_try_update<T, F: FnOnce(&mut T)>(cell: &RefCell<T>, f: F) -> (done: bool)
    requires
        forall|v: &mut T| call_requires(f, (v,)),
{
    match cell.try_borrow_mut() {
        Ok(mut content) => {
            f(&mut *content);
            true
        },
        Err(_) => false,
    }
}

/// Calls `Rc::clone`: another pointer to the same allocation, so the clone
/// equals the pointer it was made from (both point to the same cell).
#[verifier::external_body]
fn rc_clone<T>(r: &Rc<T>) -> (c: Rc<T>)
    ensures
        c == *r,
{
    Rc::clone(r)
}

/// Read-only handle to a reactive value.
#[derive(Debug)]
#[verifier::reject_recursive_types(T)]
pub struct Signal<T> {
    inner: Rc<RefCell<T>>,
}

/// Write handle to a reactive value.
#[derive(Debug)]
#[verifier::reject_recursive_types(T)]
pub struct SetSignal<T> {
    inner: Rc<RefCell<T>>,
}

impl<T> Signal<T> {
    /// Whether this reader and the writer `w` refer to one cell.
    pub closed spec fn shares(&self, w: &SetSignal<T>) -> bool {
        self.inner == w.inner
    }
}

impl<T> Clone for Signal<T> {
    /// Another handle to the same cell.
    fn clone(&self) -> (s: Self)
        ensures
            s == *self,
    {
        Signal { inner: rc_clone(&self.inner) }
    }
}

impl<T> Clone for SetSignal<T> {
    /// Another handle to the same cell.
    fn clone(&self) -> (s: Self)
        ensures
            s == *self,
    {
        SetSignal { inner: rc_clone(&self.inner) }
    }
}

impl<T: Clone> Signal<T> {
    /// Returns a clone of the current value, or `None` while the value is
    /// being changed (the cell is mutably borrowed, as inside
    /// [`SetSignal::update`]).
    pub fn get(&self) -> (v: Option<T>)
        ensures
            match v {
                Some(x) => exists|cur: T| cloned::<T>(cur, x),
                None => true,
            },
    {
        cell_try_with(&*self.inner, |cur: &T| -> (c: T)
            ensures
                cloned::<T>(*cur, c),
            { cur.clone() })
    }
}

impl<T> Signal<T> {
    /// Borrows the current value and passes it to the closure; returns what the
    /// closure returns.  Avoids cloning — preferred in hot paths like drawing.
    /// While the value is being changed the closure is not called and the
    /// result is `None`.
    pub fn with<R>(&self, f: impl FnOnce(&T) -> R) -> (r: Option<R>)
        requires
            forall|v: &T| call_requires(f, (v,)),
        ensures
            match r {
                Some(x) => exists|v: &T| call_ensures(f, (v,), x),
                None => true,
            },
    {
        cell_try_with(&*self.inner, f)
    }
}

impl<T> SetSignal<T> {
    /// Replaces the current value.  While the value is borrowed (inside
    /// [`Signal::with`] or [`SetSignal::update`]) nothing is stored and the
    /// value is handed back as the error.
    pub fn set(&self, value: T) -> (r: Result<(), T>)
        ensures
            match r {
                Ok(()) => true,
                Err(v) => v == value,
            },
    {
        cell_try_set(&*self.inner, value)
    }

    /// Mutates the current value via a closure; returns whether it ran (it
    /// does not while the value is borrowed).
    pub fn update(&self, f: impl FnOnce(&mut T)) -> (done: bool)
        requires
            forall|v: &mut T| call_requires(f, (v,)),
    {
        cell_try_update(&*self.inner, f)
    }
}

/// Creates a signal pair `(reader, writer)` over one cell holding `initial`.
pub fn create_signal<T>(initial: T) -> (r: (Signal<T>, SetSignal<T>))
    ensures
        r.0.shares(&r.1),
{
    let inner = Rc::new(cell_new(initial));
    (Signal { inner: rc_clone(&inner) }, SetSignal { inner })
}

/// Conversion into a [`Signal`].
pub trait IntoSignal<T> {
    fn into_signal(self) -> Signal<T>;
}

impl<T> IntoSignal<T> for Signal<T> {
    /// The signal itself.
    fn into_signal(self) -> (s: Signal<T>)
        ensures
            s == self,
    {
        self
    }
}

impl<T> Signal<T> {
    /// Whether this signal reads the cell `c` points to.
    pub closed spec fn wraps(&self, c: Rc<RefCell<T>>) -> bool {
        self.inner == c
    }
}

impl<T> IntoSignal<T> for Rc<RefCell<T>> {
    /// A signal that reads the shared cell.
    fn into_signal(self) -> (s: Signal<T>)
        ensures
            s.wraps(self),
    {
        Signal { inner: self }
    }
}

} // verus!

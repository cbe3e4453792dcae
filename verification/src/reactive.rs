//! Helpers for reacting to signal changes.
use vstd::prelude::*;

use vstd::std_specs::cmp::PartialEqSpec;

use crate::signal::Signal;

verus! {

/// Observes a signal: calls `callback` once with the signal's current value,
/// and returns whether it did (it does not while the value is being changed).
pub fn create_effect<T: Clone, F: FnOnce(T)>(signal: Signal<T>, callback: F) -> (ran: bool)
    requires
        forall|v: T| call_requires(callback, (v,)),
    ensures
        ran ==> exists|v: T| call_ensures(callback, (v,), ()),
{
    match signal.get() {
        Some(initial) => {
            let ghost v = initial;
            callback(initial);
            assert(call_ensures(callback, (v,), ()));
            true
        },
        None => false,
    }
}

/// The decision of [`signal_changed`] once the current value has been read and
/// extracted: when `current` differs from the last recorded value it is
/// recorded and `true` is returned; otherwise nothing changes and `false` is
/// returned.
pub fn record_if_changed<R: PartialEq>(current: R, last_value: &mut R) -> (changed: bool)
    ensures
        R::obeys_eq_spec() ==> changed == !current.eq_spec(&*old(last_value)),
        changed ==> *final(last_value) == current,
        !changed ==> *final(last_value) == *old(last_value),
{
    if current != *last_value {
        *last_value = current;
        true
    } else {
        false
    }
}

/// Checks whether the value that `extractor` takes from the signal differs
/// from `last_value`; if so, records it in `last_value` and returns
/// `Some(true)`, else `Some(false)`.  While the signal's value is being
/// changed it cannot be read: the result is `None` and `last_value` stays.
pub fn signal_changed<T: Clone, F: Fn(&T) -> R, R: PartialEq>(
    signal: &Signal<T>,
    last_value: &mut R,
    extractor: F,
) -> (changed: Option<bool>)
    requires
        forall|v: &T| call_requires(extractor, (v,)),
    ensures
        changed is None ==> *final(last_value) == *old(last_value),
        changed is Some ==> exists|v: &T, x: R|
            #![trigger call_ensures(extractor, (v,), x)]
            {
                &&& call_ensures(extractor, (v,), x)
                &&& (R::obeys_eq_spec() ==> changed->0 == !x.eq_spec(&*old(last_value)))
                &&& (changed->0 ==> *final(last_value) == x)
                &&& (!changed->0 ==> *final(last_value) == *old(last_value))
            },
{
    match signal.get() {
        Some(current) => {
            let current_value = extractor(&current);
            let ghost x = current_value;
            assert(call_ensures(extractor, (&current,), x));
            let changed = record_if_changed(current_value, last_value);
            assert(call_ensures(extractor, (&current,), x));
            Some(changed)
        },
        None => None,
    }
}

} // verus!

//! Value storage of an object: a vector that keeps its first values in place.
use vstd::prelude::*;

use crate::value::JsValue;

verus! {

/// The values that a [`Slots`] holds, in order.
pub uninterp spec fn slot_values(s: Slots) -> Seq<JsValue>;

/// Value storage of an object, backed by `smallvec::SmallVec`. Its contents are
/// only what [`slot_values`] says of them.
#[verifier::external_body]
pub struct Slots {
    inner: smallvec::SmallVec<[JsValue; 8]>,
}

impl View for Slots {
    type V = Seq<JsValue>;

    open spec fn view(&self) -> Seq<JsValue> {
        slot_values(*self)
    }
}

/// `smallvec::SmallVec::new`: an empty storage.
#[verifier::external_body]
pub(crate) fn slots_new() -> (r: Slots)
    ensures
        slot_values(r) == Seq::<JsValue>::empty(),
{
    Slots { inner: smallvec::SmallVec::new() }
}

/// `smallvec::SmallVec::len`: the number of values.
#[verifier::external_body]
pub(crate) fn slots_len(s: &Slots) -> (r: usize)
    ensures
        r == slot_values(*s).len(),
{
    s.inner.len()
}

/// `smallvec::SmallVec::push`: the value is put behind the others.
#[verifier::external_body]
pub(crate) fn slots_push(s: &mut Slots, v: JsValue)
    ensures
        slot_values(*final(s)) == slot_values(*old(s)).push(v),
{
    s.inner.push(v)
}

/// `smallvec::SmallVec::as_slice`: the values, in order.
#[verifier::external_body]
pub(crate) fn slots_slice(s: &Slots) -> (r: &[JsValue])
    ensures
        r@ == slot_values(*s),
{
    s.inner.as_slice()
}

/// `smallvec::SmallVec::insert` at an index up to the length: the values from
/// there on move up by one.
#[verifier::external_body]
pub(crate) fn slots_insert(s: &mut Slots, i: usize, v: JsValue)
    requires
        i <= slot_values(*old(s)).len(),
    ensures
        slot_values(*final(s)) == slot_values(*old(s)).insert(i as int, v),
{
    s.inner.insert(i, v)
}

/// `smallvec::SmallVec::remove` at an index below the length: the values behind
/// it move down by one, and the value itself is returned.
#[verifier::external_body]
pub(crate) fn slots_remove(s: &mut Slots, i: usize) -> (r: JsValue)
    requires
        i < slot_values(*old(s)).len(),
    ensures
        slot_values(*final(s)) == slot_values(*old(s)).remove(i as int),
        r == slot_values(*old(s))[i as int],
{
    s.inner.remove(i)
}

impl Slots {
    /// An empty storage.
    pub fn new() -> (r: Slots)
        ensures
            r@ == Seq::<JsValue>::empty(),
    {
        slots_new()
    }

    /// The number of values.
    pub fn len(&self) -> (r: usize)
        ensures
            r == self@.len(),
    {
        slots_len(self)
    }

    /// Puts a value behind the others.
    pub fn push(&mut self, v: JsValue)
        ensures
            final(self)@ == old(self)@.push(v),
    {
        slots_push(self, v)
    }

    /// The value at `i`.
    pub fn get(&self, i: usize) -> (r: JsValue)
        requires
            i < self@.len(),
        ensures
            r == self@[i as int],
    {
        let values: &[JsValue] = slots_slice(self);
        values[i]
    }

    /// Replaces the value at `i`.
    pub fn set(&mut self, i: usize, v: JsValue)
        requires
            i < old(self)@.len(),
        ensures
            final(self)@ == old(self)@.update(i as int, v),
    {
        let _ = slots_remove(self, i);
        slots_insert(self, i, v);
        proof {
            assert(self@ =~= old(self)@.update(i as int, v));
        }
    }
}

} // verus!

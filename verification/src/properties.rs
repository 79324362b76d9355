//! Named own properties of an object.
//!
//! The first properties of an object are described by its shape; past
//! [`NAMED_DICT_THRESHOLD`] of them new ones go to a dictionary. Both kinds keep
//! their values in one storage. What callers see is a list of properties in the
//! order of their creation, without two of one key.
use vstd::prelude::*;

use crate::dictionary::{DictEntry, map_get, map_insert, map_items, map_new, map_remove};
use crate::slots::Slots;
use crate::value::{Attrs, JsValue, PropKey};

verus! {

/// Number of properties from which on new ones go to the dictionary.
pub const NAMED_DICT_THRESHOLD: usize = 128;

/// What a property holds.
#[derive(Clone, Copy, PartialEq, Eq, Structural, Debug)]
pub enum PropBody {
    /// A value.
    Data(JsValue),
    /// A getter and a setter.
    Accessor(Option<usize>, Option<usize>),
}

/// A named property.
#[derive(Clone, Copy, PartialEq, Eq, Structural, Debug)]
pub struct Prop {
    /// The key.
    pub key: PropKey,
    /// The attributes.
    pub attrs: Attrs,
    /// The contents.
    pub body: PropBody,
}

/// The named properties of an object, in order: the first `base` of them belong to
/// its shape, the others to its dictionary.
#[verifier::ext_equal]
pub ghost struct Named {
    /// The properties.
    pub list: Seq<Prop>,
    /// How many of them belong to the shape.
    pub base: nat,
    /// Whether there is a dictionary.
    pub spilled: bool,
}

/// Whether some property has the key.
pub open spec fn has_key(list: Seq<Prop>, key: PropKey) -> bool {
    exists|i: int| 0 <= i < list.len() && #[trigger] list[i].key == key
}

/// Index of the property with the key.
pub open spec fn index_of_key(list: Seq<Prop>, key: PropKey) -> int {
    choose|i: int| 0 <= i < list.len() && #[trigger] list[i].key == key
}

/// The property with the key.
pub open spec fn lookup(list: Seq<Prop>, key: PropKey) -> Option<Prop> {
    if has_key(list, key) {
        Some(list[index_of_key(list, key)])
    } else {
        None
    }
}

/// Whether no two properties have one key.
pub open spec fn distinct_keys(list: Seq<Prop>) -> bool {
    forall|i: int, j: int| 0 <= i < j < list.len() ==> #[trigger] list[i].key != #[trigger] list[j].key
}

impl Named {
    /// The properties with one more at the end: to the dictionary where there is
    /// one or the shape is full, else to the shape.
    pub open spec fn appended(self, p: Prop) -> Named {
        if self.spilled || self.base >= NAMED_DICT_THRESHOLD {
            Named { list: self.list.push(p), base: self.base, spilled: true }
        } else {
            Named { list: self.list.push(p), base: self.base + 1, spilled: false }
        }
    }

    /// The properties with one more: at the end of the shape as long as there is no
    /// dictionary, however long the shape is.
    pub open spec fn installed(self, p: Prop) -> Named {
        if self.spilled {
            self.appended(p)
        } else {
            Named { list: self.list.push(p), base: self.base + 1, spilled: false }
        }
    }

    /// The properties with the one at `i` replaced.
    pub open spec fn updated(self, i: int, p: Prop) -> Named {
        Named { list: self.list.update(i, p), base: self.base, spilled: self.spilled }
    }

    /// The properties without the one at `i`, which belongs to the dictionary.
    pub open spec fn removed(self, i: int) -> Named {
        Named { list: self.list.remove(i), base: self.base, spilled: self.spilled }
    }
}

pub proof fn lemma_index_of_key(list: Seq<Prop>, key: PropKey, i: int)
    requires
        distinct_keys(list),
        0 <= i < list.len(),
        list[i].key == key,
    ensures
        has_key(list, key),
        index_of_key(list, key) == i,
        lookup(list, key) == Some(list[i]),
{
    let j = index_of_key(list, key);
    assert(0 <= j < list.len() && list[j].key == key);
    if j < i {
        assert(list[j].key != list[i].key);
    } else if i < j {
        assert(list[i].key != list[j].key);
    }
}

/// Where the contents of a property are.
#[derive(Clone, Copy, PartialEq, Eq, Structural, Debug)]
enum Place {
    Slot(usize),
    Accessor(Option<usize>, Option<usize>),
}

/// A property of a shape.
#[derive(Clone, Copy, PartialEq, Eq, Structural, Debug)]
struct Descriptor {
    key: PropKey,
    attrs: Attrs,
    place: Place,
}

/// The number under which a dictionary files a key.
spec fn key_code(key: PropKey) -> u128 {
    match key {
        PropKey::Text(n) => (2 * n) as u128,
        PropKey::Symbol(n) => (2 * n + 1) as u128,
    }
}

proof fn lemma_key_code(a: PropKey, b: PropKey)
    ensures
        key_code(a) == key_code(b) ==> a == b,
{
}

/// The number under which a dictionary files a key.
fn code_of(key: PropKey) -> (r: u128)
    ensures
        r == key_code(key),
{
    match key {
        PropKey::Text(n) => 2 * (n as u128),
        PropKey::Symbol(n) => 2 * (n as u128) + 1,
    }
}

/// The key that a dictionary files under a number.
fn key_of(code: u128) -> (r: PropKey)
    requires
        exists|k: PropKey| key_code(k) == code,
    ensures
        key_code(r) == code,
{
    if code % 2 == 0 {
        PropKey::Text((code / 2) as usize)
    } else {
        PropKey::Symbol((code / 2) as usize)
    }
}

spec fn place_body(place: Place, slots: Seq<JsValue>) -> PropBody {
    match place {
        Place::Slot(s) => PropBody::Data(slots[s as int]),
        Place::Accessor(g, s) => PropBody::Accessor(g, s),
    }
}

spec fn shape_prop(d: Descriptor, slots: Seq<JsValue>) -> Prop {
    Prop { key: d.key, attrs: d.attrs, body: place_body(d.place, slots) }
}

spec fn entry_place(e: DictEntry) -> Place {
    if e.is_accessor {
        Place::Accessor(e.getter, e.setter)
    } else {
        Place::Slot(e.slot)
    }
}

spec fn entry_prop(key: PropKey, e: DictEntry, slots: Seq<JsValue>) -> Prop {
    Prop { key, attrs: e.attrs, body: place_body(entry_place(e), slots) }
}

/// Named own properties of an object.
pub struct Properties {
    shape: Vec<Descriptor>,
    slots: Slots,
    dict: Option<rustc_hash::FxHashMap<u128, DictEntry>>,
    order: Ghost<Seq<PropKey>>,
}

impl View for Properties {
    type V = Named;

    closed spec fn view(&self) -> Named {
        Named {
            list: Seq::new(self.shape@.len(), |i: int| shape_prop(self.shape@[i], self.slots@))
                + Seq::new(
                self.order@.len(),
                |i: int| entry_prop(self.order@[i], self.entries()[key_code(self.order@[i])], self.slots@),
            ),
            base: self.shape@.len(),
            spilled: self.dict is Some,
        }
    }
}

impl Properties {
    closed spec fn entries(&self) -> Map<u128, DictEntry> {
        match self.dict {
            Some(m) => m@,
            None => Map::empty(),
        }
    }

    closed spec fn place_at(&self, i: int) -> Place {
        if i < self.shape@.len() {
            self.shape@[i].place
        } else {
            entry_place(self.entries()[key_code(self.order@[i - self.shape@.len()])])
        }
    }

    /// Whether a place belongs to no property but the one at `at`.
    closed spec fn fits(&self, at: int, place: Place) -> bool {
        place is Slot ==> place->Slot_0 < self.slots@.len() && forall|j: int|
            0 <= j < self.shape@.len() + self.order@.len() && j != at && (
            #[trigger] self.place_at(j)) is Slot ==> self.place_at(j)->Slot_0 != place->Slot_0
    }

    /// Whether the parts of the representation fit together.
    pub closed spec fn wf(&self) -> bool {
        let n = self.shape@.len();
        let total = n + self.order@.len();
        &&& distinct_keys(self@.list)
        &&& forall|i: int|
            0 <= i < self.order@.len() ==> self.entries().contains_key(
                #[trigger] key_code(self.order@[i]),
            )
        &&& forall|c: u128| #[trigger]
            self.entries().contains_key(c) ==> exists|i: int|
                0 <= i < self.order@.len() && key_code(#[trigger] self.order@[i]) == c
        &&& forall|i: int, j: int|
            0 <= i < j < self.order@.len() ==> (#[trigger] self.entries()[key_code(
                self.order@[i],
            )]).seq < (#[trigger] self.entries()[key_code(self.order@[j])]).seq
        &&& forall|i: int|
            0 <= i < self.order@.len() ==> (#[trigger] self.entries()[key_code(
                self.order@[i],
            )]).seq < self.slots@.len()
        &&& forall|i: int|
            0 <= i < total && (#[trigger] self.place_at(i)) is Slot ==> self.place_at(i)->Slot_0
                < self.slots@.len()
        &&& forall|i: int, j: int|
            0 <= i < j < total && (#[trigger] self.place_at(i)) is Slot && (
            #[trigger] self.place_at(j)) is Slot ==> self.place_at(i)->Slot_0 != self.place_at(
                j,
            )->Slot_0
        &&& self.dict is None ==> self.order@.len() == 0
    }

    proof fn lemma_fits_itself(&self, at: int)
        requires
            self.wf(),
            0 <= at < self.shape@.len() + self.order@.len(),
        ensures
            self.fits(at, self.place_at(at)),
    {
        if self.place_at(at) is Slot {
            assert forall|j: int|
                0 <= j < self.shape@.len() + self.order@.len() && j != at && (
                #[trigger] self.place_at(j)) is Slot implies self.place_at(j)->Slot_0
                != self.place_at(at)->Slot_0 by {
                if j < at {
                    assert(self.place_at(j)->Slot_0 != self.place_at(at)->Slot_0);
                } else {
                    assert(self.place_at(at)->Slot_0 != self.place_at(j)->Slot_0);
                }
            }
        }
    }

    /// No two properties have one key.
    pub proof fn lemma_distinct(&self)
        requires
            self.wf(),
        ensures
            distinct_keys(self@.list),
    {
    }

    /// The shape holds no more than all properties.
    pub proof fn lemma_base(&self)
        ensures
            self@.base <= self@.list.len(),
    {
    }

    /// No properties.
    pub fn new() -> (r: Properties)
        ensures
            r.wf(),
            r@ == (Named { list: Seq::empty(), base: 0, spilled: false }),
    {
        let r = Properties { shape: Vec::new(), slots: Slots::new(), dict: None, order: Ghost(Seq::empty()) };
        proof {
            assert(r@.list =~= Seq::<Prop>::empty());
        }
        r
    }

    /// Index of the key in the shape.
    fn shape_index(&self, key: PropKey) -> (r: Option<usize>)
        ensures
            match r {
                Some(i) => i < self.shape@.len() && self.shape@[i as int].key == key,
                None => forall|i: int| 0 <= i < self.shape@.len() ==> #[trigger] self.shape@[i].key != key,
            },
    {
        let mut i: usize = 0;
        while i < self.shape.len()
            invariant
                i <= self.shape@.len(),
                forall|k: int| 0 <= k < i ==> #[trigger] self.shape@[k].key != key,
            decreases self.shape@.len() - i,
        {
            if self.shape[i].key == key {
                return Some(i);
            }
            i = i + 1;
        }
        None
    }

    /// The entry of the key in the dictionary.
    fn dict_entry(&self, key: PropKey) -> (r: Option<DictEntry>)
        ensures
            r == if self.entries().contains_key(key_code(key)) {
                Some(self.entries()[key_code(key)])
            } else {
                None
            },
    {
        match &self.dict {
            None => None,
            Some(m) => map_get(m, code_of(key)),
        }
    }

    proof fn lemma_dict_index(&self, key: PropKey) -> (i: int)
        requires
            self.wf(),
            self.entries().contains_key(key_code(key)),
        ensures
            0 <= i < self.order@.len(),
            self.order@[i] == key,
            self@.list[self.shape@.len() + i] == entry_prop(key, self.entries()[key_code(key)], self.slots@),
    {
        let c = key_code(key);
        let i = choose|i: int| 0 <= i < self.order@.len() && key_code(#[trigger] self.order@[i]) == c;
        lemma_key_code(self.order@[i], key);
        i
    }

    proof fn lemma_absent(&self, key: PropKey)
        requires
            self.wf(),
            !self.entries().contains_key(key_code(key)),
            forall|i: int| 0 <= i < self.shape@.len() ==> #[trigger] self.shape@[i].key != key,
        ensures
            !has_key(self@.list, key),
    {
        let n = self.shape@.len();
        assert forall|i: int| 0 <= i < self@.list.len() implies #[trigger] self@.list[i].key != key by {
            if i < n {
                assert(self.shape@[i].key != key);
            } else {
                assert(self.entries().contains_key(key_code(self.order@[i - n])));
            }
        }
    }

    /// The property with the key.
    pub fn get(&self, key: PropKey) -> (r: Option<Prop>)
        requires
            self.wf(),
        ensures
            r == lookup(self@.list, key),
    {
        match self.dict_entry(key) {
            Some(e) => {
                let ghost i = self.lemma_dict_index(key);
                proof {
                    lemma_index_of_key(self@.list, key, self.shape@.len() + i);
                    assert(self.place_at(self.shape@.len() + i) == entry_place(e));
                }
                let body: PropBody = if e.is_accessor {
                    PropBody::Accessor(e.getter, e.setter)
                } else {
                    PropBody::Data(self.slots.get(e.slot))
                };
                Some(Prop { key, attrs: e.attrs, body })
            },
            None => match self.shape_index(key) {
                None => {
                    proof {
                        self.lemma_absent(key);
                    }
                    None
                },
                Some(i) => {
                    let d: Descriptor = self.shape[i];
                    proof {
                        lemma_index_of_key(self@.list, key, i as int);
                        assert(self.place_at(i as int) == d.place);
                    }
                    let body: PropBody = match d.place {
                        Place::Slot(s) => PropBody::Data(self.slots.get(s)),
                        Place::Accessor(g, s) => PropBody::Accessor(g, s),
                    };
                    Some(Prop { key, attrs: d.attrs, body })
                },
            },
        }
    }

    /// Whether a key belongs to the dictionary.
    pub fn in_dictionary(&self, key: PropKey) -> (r: bool)
        requires
            self.wf(),
        ensures
            r == (has_key(self@.list, key) && index_of_key(self@.list, key) >= self@.base),
    {
        match self.dict_entry(key) {
            Some(_) => {
                let ghost i = self.lemma_dict_index(key);
                proof {
                    lemma_index_of_key(self@.list, key, self.shape@.len() + i);
                }
                true
            },
            None => {
                proof {
                    if has_key(self@.list, key) {
                        let j = index_of_key(self@.list, key);
                        assert(self@.list[j].key == key);
                        if j >= self.shape@.len() {
                            assert(self.entries().contains_key(
                                key_code(self.order@[j - self.shape@.len()]),
                            ));
                        }
                    }
                }
                false
            },
        }
    }

    /// Number of properties of the shape.
    pub fn base_len(&self) -> (r: usize)
        ensures
            r == self@.base,
    {
        self.shape.len()
    }

    /// Whether there is a dictionary.
    pub fn is_spilled(&self) -> (r: bool)
        ensures
            r == self@.spilled,
    {
        self.dict.is_some()
    }

    /// Appends a property to the shape.
    fn push_shape(&mut self, p: Prop)
        requires
            old(self).wf(),
            old(self).dict is None,
            !has_key(old(self)@.list, p.key),
        ensures
            final(self).wf(),
            final(self)@ == (Named {
                list: old(self)@.list.push(p),
                base: old(self)@.base + 1,
                spilled: false,
            }),
    {
        let ghost before = *self;
        let place: Place = match p.body {
            PropBody::Data(v) => {
                let slot: usize = self.slots.len();
                self.slots.push(v);
                Place::Slot(slot)
            },
            PropBody::Accessor(g, s) => Place::Accessor(g, s),
        };
        self.shape.push(Descriptor { key: p.key, attrs: p.attrs, place });
        proof {
            let n = before.shape@.len();
            assert forall|i: int| 0 <= i < n implies #[trigger] self.place_at(i)
                == before.place_at(i) by {}
            assert(self.place_at(n as int) == place);
            assert forall|i: int| 0 <= i < n implies #[trigger] self@.list[i] == before@.list[i] by {
                assert(before.place_at(i) == self.place_at(i));
            }
            assert(self@.list =~= before@.list.push(p));
            assert forall|i: int, j: int| 0 <= i < j < self@.list.len() implies
                #[trigger] self@.list[i].key != #[trigger] self@.list[j].key by {
                assert(before@.list[i].key != p.key);
            }
        }
    }

    /// Appends a property to the dictionary.
    fn push_dict(&mut self, p: Prop)
        requires
            old(self).wf(),
            old(self).dict is Some,
            !has_key(old(self)@.list, p.key),
        ensures
            final(self).wf(),
            final(self)@ == (Named {
                list: old(self)@.list.push(p),
                base: old(self)@.base,
                spilled: true,
            }),
    {
        let ghost before = *self;
        let slot: usize = self.slots.len();
        let entry: DictEntry = match p.body {
            PropBody::Data(v) => {
                self.slots.push(v);
                DictEntry {
                    slot,
                    attrs: p.attrs,
                    getter: None,
                    setter: None,
                    is_accessor: false,
                    seq: slot as u64,
                }
            },
            PropBody::Accessor(g, s) => {
                self.slots.push(JsValue::Hole);
                DictEntry {
                    slot,
                    attrs: p.attrs,
                    getter: g,
                    setter: s,
                    is_accessor: true,
                    seq: slot as u64,
                }
            },
        };
        let code: u128 = code_of(p.key);
        let mut map = self.dict.take();
        match &mut map {
            None => {},
            Some(m) => {
                map_insert(m, code, entry);
            },
        }
        self.dict = map;
        self.order = Ghost(self.order@.push(p.key));
        proof {
            let n = before.shape@.len();
            let k = before.order@.len();
            assert(self.entries() == before.entries().insert(code, entry));
            assert forall|i: int| 0 <= i < k implies key_code(#[trigger] before.order@[i]) != code by {
                lemma_key_code(before.order@[i], p.key);
                assert(before@.list[n + i].key == before.order@[i]);
            }
            assert forall|i: int| 0 <= i < k implies self.order@[i] == before.order@[i]
                && #[trigger] self.entries()[key_code(self.order@[i])] == before.entries()[key_code(
                before.order@[i],
            )] by {}
            assert forall|i: int| 0 <= i < n + k implies #[trigger] self.place_at(i)
                == before.place_at(i) by {
                if i >= n {
                    assert(self.order@[i - n] == before.order@[i - n]);
                    assert(self.entries()[key_code(self.order@[i - n])] == before.entries()[key_code(
                        before.order@[i - n],
                    )]);
                }
            }
            assert(self.order@[k as int] == p.key);
            assert(self.place_at((n + k) as int) == entry_place(entry));
            assert forall|i: int| 0 <= i < n + k implies #[trigger] self@.list[i] == before@.list[i] by {
                assert(self.place_at(i) == before.place_at(i));
            }
            assert(self@.list =~= before@.list.push(p));
            assert forall|i: int, j: int| 0 <= i < j < self@.list.len() implies
                #[trigger] self@.list[i].key != #[trigger] self@.list[j].key by {
                assert(before@.list[i].key != p.key);
            }
            assert forall|c: u128| #[trigger] self.entries().contains_key(c) implies exists|i: int|
                0 <= i < self.order@.len() && key_code(#[trigger] self.order@[i]) == c by {
                if c == code {
                    assert(key_code(self.order@[k as int]) == c);
                } else {
                    assert(before.entries().contains_key(c));
                    let i = choose|i: int|
                        0 <= i < before.order@.len() && key_code(#[trigger] before.order@[i]) == c;
                    assert(key_code(self.order@[i]) == c);
                }
            }
        }
    }

    /// Files an empty dictionary.
    fn spill(&mut self)
        requires
            old(self).wf(),
            old(self).dict is None,
        ensures
            final(self).wf(),
            final(self).dict is Some,
            final(self)@ == (Named {
                list: old(self)@.list,
                base: old(self)@.base,
                spilled: true,
            }),
    {
        let ghost before = *self;
        self.dict = Some(map_new());
        proof {
            assert(self@.list =~= before@.list);
            assert forall|i: int| 0 <= i < before.shape@.len() implies #[trigger] self.place_at(i)
                == before.place_at(i) by {}
        }
    }

    /// Appends a property.
    pub fn append(&mut self, p: Prop)
        requires
            old(self).wf(),
            !has_key(old(self)@.list, p.key),
        ensures
            final(self).wf(),
            final(self)@ == old(self)@.appended(p),
    {
        if self.dict.is_some() {
            self.push_dict(p);
        } else if self.shape.len() >= NAMED_DICT_THRESHOLD {
            self.spill();
            self.push_dict(p);
        } else {
            self.push_shape(p);
        }
    }

    /// Appends a property, to the shape as long as there is no dictionary.
    pub fn install(&mut self, p: Prop)
        requires
            old(self).wf(),
            !has_key(old(self)@.list, p.key),
        ensures
            final(self).wf(),
            final(self)@ == old(self)@.installed(p),
    {
        if self.dict.is_some() {
            self.push_dict(p);
        } else {
            self.push_shape(p);
        }
    }

    /// Replaces the value of a data property.
    pub fn store(&mut self, key: PropKey, v: JsValue)
        requires
            old(self).wf(),
            has_key(old(self)@.list, key),
            lookup(old(self)@.list, key)->0.body is Data,
        ensures
            final(self).wf(),
            final(self)@ == old(self)@.updated(
                index_of_key(old(self)@.list, key),
                Prop { body: PropBody::Data(v), ..lookup(old(self)@.list, key)->0 },
            ),
    {
        let ghost before = *self;
        let ghost n = self.shape@.len() as int;
        let ghost at = index_of_key(self@.list, key);
        let slot: usize = match self.dict_entry(key) {
            Some(e) => {
                let ghost i = self.lemma_dict_index(key);
                proof {
                    lemma_index_of_key(self@.list, key, n + i);
                    assert(self.place_at(n + i) == entry_place(e));
                }
                e.slot
            },
            None => match self.shape_index(key) {
                None => {
                    proof {
                        self.lemma_absent(key);
                    }
                    0
                },
                Some(i) => {
                    let d: Descriptor = self.shape[i];
                    proof {
                        lemma_index_of_key(self@.list, key, i as int);
                        assert(self.place_at(i as int) == d.place);
                    }
                    match d.place {
                        Place::Slot(s) => s,
                        Place::Accessor(_, _) => 0,
                    }
                },
            },
        };
        proof {
            assert(self.place_at(at) == Place::Slot(slot));
        }
        self.slots.set(slot, v);
        proof {
            assert forall|i: int| 0 <= i < before@.list.len() implies #[trigger] self.place_at(i)
                == before.place_at(i) by {}
            assert forall|i: int| 0 <= i < before@.list.len() && i != at implies
                #[trigger] self@.list[i] == before@.list[i] by {
                assert(self.place_at(i) == before.place_at(i));
                assert(before.place_at(at) is Slot);
                if before.place_at(i) is Slot {
                    if i < at {
                        assert(before.place_at(i)->Slot_0 != before.place_at(at)->Slot_0);
                    } else {
                        assert(before.place_at(at)->Slot_0 != before.place_at(i)->Slot_0);
                    }
                }
            }
            assert(self.place_at(at) == before.place_at(at));
            assert(self@.list =~= before@.list.update(
                at,
                Prop { body: PropBody::Data(v), ..before@.list[at] },
            ));
            assert forall|i: int, j: int| 0 <= i < j < self@.list.len() implies
                #[trigger] self@.list[i].key != #[trigger] self@.list[j].key by {
                assert(before@.list[i].key != before@.list[j].key);
            }
        }
    }

    /// Replaces the attributes of a property.
    pub fn set_attrs(&mut self, key: PropKey, attrs: Attrs)
        requires
            old(self).wf(),
            has_key(old(self)@.list, key),
        ensures
            final(self).wf(),
            final(self)@ == old(self)@.updated(
                index_of_key(old(self)@.list, key),
                Prop { attrs, ..lookup(old(self)@.list, key)->0 },
            ),
    {
        let ghost before = *self;
        let ghost n = self.shape@.len() as int;
        let ghost at = index_of_key(self@.list, key);
        match self.dict_entry(key) {
            Some(e) => {
                let ghost i = self.lemma_dict_index(key);
                proof {
                    lemma_index_of_key(self@.list, key, n + i);
                    assert(self.place_at(n + i) == entry_place(e));
                    self.lemma_fits_itself(n + i);
                }
                self.put_entry(key, DictEntry { attrs, ..e }, Ghost(i));
            },
            None => match self.shape_index(key) {
                None => {
                    proof {
                        self.lemma_absent(key);
                    }
                },
                Some(i) => {
                    let d: Descriptor = self.shape[i];
                    proof {
                        lemma_index_of_key(self@.list, key, i as int);
                        assert(self.place_at(i as int) == d.place);
                        self.lemma_fits_itself(i as int);
                    }
                    self.put_descriptor(i, Descriptor { attrs, ..d });
                },
            },
        }
    }

    /// Replaces attributes and contents of a property.
    pub fn replace(&mut self, key: PropKey, attrs: Attrs, body: PropBody)
        requires
            old(self).wf(),
            has_key(old(self)@.list, key),
        ensures
            final(self).wf(),
            final(self)@ == old(self)@.updated(
                index_of_key(old(self)@.list, key),
                Prop { key, attrs, body },
            ),
    {
        let ghost first = *self;
        let ghost at = index_of_key(self@.list, key);
        let place: Place = match body {
            PropBody::Accessor(g, s) => Place::Accessor(g, s),
            PropBody::Data(v) => {
                let n: usize = self.slots.len();
                self.slots.push(v);
                proof {
                    assert forall|i: int| 0 <= i < first@.list.len() implies #[trigger] self.place_at(i)
                        == first.place_at(i) by {}
                    assert forall|i: int| 0 <= i < first@.list.len() implies #[trigger] self@.list[i]
                        == first@.list[i] by {
                        assert(self.place_at(i) == first.place_at(i));
                    }
                    assert(self@.list =~= first@.list);
                }
                Place::Slot(n)
            },
        };
        let ghost before = *self;
        let ghost n = self.shape@.len() as int;
        proof {
            assert(before@ == first@);
            assert(before.wf());
            assert forall|j: int|
                0 <= j < before@.list.len() && j != at && (#[trigger] before.place_at(j)) is Slot && place is Slot implies before.place_at(
                j,
            )->Slot_0 != place->Slot_0 by {
                assert(before.place_at(j) == first.place_at(j));
            }
        }
        match self.dict_entry(key) {
            Some(e) => {
                let ghost i = self.lemma_dict_index(key);
                let (slot, getter, setter, is_accessor): (
                    usize,
                    Option<usize>,
                    Option<usize>,
                    bool,
                ) = match place {
                    Place::Slot(s) => (s, None, None, false),
                    Place::Accessor(g, s) => (e.slot, g, s, true),
                };
                let entry: DictEntry = DictEntry { slot, attrs, getter, setter, is_accessor, seq: e.seq };
                proof {
                    lemma_index_of_key(self@.list, key, n + i);
                    assert(entry_place(entry) == place);
                    assert(self.fits(n + i, place));
                }
                self.put_entry(key, entry, Ghost(i));
            },
            None => match self.shape_index(key) {
                None => {
                    proof {
                        self.lemma_absent(key);
                    }
                },
                Some(i) => {
                    proof {
                        lemma_index_of_key(self@.list, key, i as int);
                        assert(self.fits(i as int, place));
                    }
                    self.put_descriptor(i, Descriptor { key, attrs, place });
                },
            },
        }
    }

    /// Replaces an entry of the dictionary by one that keeps its position.
    fn put_entry(&mut self, key: PropKey, e: DictEntry, at: Ghost<int>)
        requires
            old(self).wf(),
            0 <= at@ < old(self).order@.len(),
            old(self).order@[at@] == key,
            old(self).entries().contains_key(key_code(key)),
            e.seq == old(self).entries()[key_code(key)].seq,
            old(self).fits(old(self).shape@.len() + at@, entry_place(e)),
        ensures
            final(self).wf(),
            final(self)@ == old(self)@.updated(
                old(self).shape@.len() + at@,
                entry_prop(key, e, old(self).slots@),
            ),
    {
        let ghost before = *self;
        let code: u128 = code_of(key);
        let mut map = self.dict.take();
        match &mut map {
            None => {},
            Some(m) => {
                map_insert(m, code, e);
            },
        }
        self.dict = map;
        proof {
            let n = before.shape@.len() as int;
            let k = before.order@.len();
            assert(self.entries() == before.entries().insert(code, e));
            assert forall|i: int| 0 <= i < k && i != at@ implies key_code(#[trigger] before.order@[i])
                != code by {
                lemma_key_code(before.order@[i], key);
                assert(before@.list[n + i].key == before.order@[i]);
                assert(before@.list[n + at@].key == before.order@[at@]);
            }
            assert forall|i: int| 0 <= i < n + k && i != n + at@ implies #[trigger] self.place_at(i)
                == before.place_at(i) by {
                if i >= n {
                    assert(key_code(before.order@[i - n]) != code);
                }
            }
            assert(self.place_at(n + at@) == entry_place(e));
            assert forall|i: int, j: int|
                0 <= i < j < n + k && (#[trigger] self.place_at(i)) is Slot && (
                #[trigger] self.place_at(j)) is Slot implies self.place_at(i)->Slot_0
                != self.place_at(j)->Slot_0 by {
                if i == n + at@ {
                    assert(before.place_at(j) == self.place_at(j));
                } else if j == n + at@ {
                    assert(before.place_at(i) == self.place_at(i));
                } else {
                    assert(before.place_at(i)->Slot_0 != before.place_at(j)->Slot_0);
                }
            }
            assert forall|i: int|
                0 <= i < n + k && (#[trigger] self.place_at(i)) is Slot implies self.place_at(
                i,
            )->Slot_0 < self.slots@.len() by {
                if i != n + at@ {
                    assert(before.place_at(i) == self.place_at(i));
                }
            }
            assert forall|i: int| 0 <= i < n + k && i != n + at@ implies #[trigger] self@.list[i]
                == before@.list[i] by {
                if i >= n {
                    assert(key_code(before.order@[i - n]) != code);
                }
            }
            assert(self@.list =~= before@.list.update(n + at@, entry_prop(key, e, before.slots@)));
            assert forall|i: int, j: int| 0 <= i < j < self@.list.len() implies
                #[trigger] self@.list[i].key != #[trigger] self@.list[j].key by {
                assert(before@.list[n + at@].key == key);
                assert(before@.list[i].key != before@.list[j].key);
            }
        }
    }

    /// Replaces a descriptor of the shape by one that keeps its key.
    fn put_descriptor(&mut self, i: usize, d: Descriptor)
        requires
            old(self).wf(),
            i < old(self).shape@.len(),
            d.key == old(self).shape@[i as int].key,
            old(self).fits(i as int, d.place),
        ensures
            final(self).wf(),
            final(self)@ == old(self)@.updated(i as int, shape_prop(d, old(self).slots@)),
    {
        let ghost before = *self;
        self.shape.set(i, d);
        proof {
            let total = before.shape@.len() + before.order@.len();
            assert forall|k: int| 0 <= k < total && k != i implies #[trigger] self.place_at(k)
                == before.place_at(k) by {}
            assert(self.place_at(i as int) == d.place);
            assert forall|a: int, b: int|
                0 <= a < b < total && (#[trigger] self.place_at(a)) is Slot && (
                #[trigger] self.place_at(b)) is Slot implies self.place_at(a)->Slot_0
                != self.place_at(b)->Slot_0 by {
                if a == i {
                    assert(before.place_at(b) == self.place_at(b));
                } else if b == i {
                    assert(before.place_at(a) == self.place_at(a));
                } else {
                    assert(before.place_at(a)->Slot_0 != before.place_at(b)->Slot_0);
                }
            }
            assert forall|k: int|
                0 <= k < total && (#[trigger] self.place_at(k)) is Slot implies self.place_at(
                k,
            )->Slot_0 < self.slots@.len() by {
                if k != i {
                    assert(before.place_at(k) == self.place_at(k));
                }
            }
            assert(self@.list =~= before@.list.update(i as int, shape_prop(d, before.slots@)));
            assert forall|k: int, j: int| 0 <= k < j < self@.list.len() implies
                #[trigger] self@.list[k].key != #[trigger] self@.list[j].key by {
                assert(before@.list[k].key != before@.list[j].key);
            }
        }
    }

    /// Takes a property out of the dictionary.
    pub fn remove(&mut self, key: PropKey)
        requires
            old(self).wf(),
            has_key(old(self)@.list, key),
            index_of_key(old(self)@.list, key) >= old(self)@.base,
        ensures
            final(self).wf(),
            final(self)@ == old(self)@.removed(index_of_key(old(self)@.list, key)),
    {
        let ghost before = *self;
        let ghost n = self.shape@.len() as int;
        let ghost at = index_of_key(self@.list, key) - n;
        let code: u128 = code_of(key);
        proof {
            assert(before@.list[n + at].key == key);
            assert(before.order@[at] == key);
            assert(before.entries().contains_key(key_code(before.order@[at])));
        }
        let mut map = self.dict.take();
        match &mut map {
            None => {},
            Some(m) => {
                map_remove(m, code);
            },
        }
        self.dict = map;
        self.order = Ghost(self.order@.remove(at));
        proof {
            let k = before.order@.len();
            assert(self.entries() == before.entries().remove(code));
            assert forall|i: int| 0 <= i < k && i != at implies key_code(#[trigger] before.order@[i])
                != code by {
                lemma_key_code(before.order@[i], key);
                assert(before@.list[n + i].key == before.order@[i]);
            }
            assert forall|i: int| 0 <= i < k - 1 implies #[trigger] self.order@[i] == before.order@[if i
                < at {
                i
            } else {
                i + 1
            }] by {}
            assert forall|i: int| 0 <= i < n + k - 1 implies #[trigger] self.place_at(i)
                == before.place_at(if i < n + at {
                i
            } else {
                i + 1
            }) by {
                if i >= n {
                    let j = i - n;
                    assert(self.order@[j] == before.order@[if j < at {
                        j
                    } else {
                        j + 1
                    }]);
                }
            }
            assert forall|i: int| 0 <= i < n + k - 1 implies #[trigger] self@.list[i]
                == before@.list[if i < n + at {
                i
            } else {
                i + 1
            }] by {
                if i >= n {
                    let j = i - n;
                    assert(self.order@[j] == before.order@[if j < at {
                        j
                    } else {
                        j + 1
                    }]);
                }
            }
            assert(self@.list =~= before@.list.remove(n + at));
            assert forall|c: u128| #[trigger] self.entries().contains_key(c) implies exists|i: int|
                0 <= i < self.order@.len() && key_code(#[trigger] self.order@[i]) == c by {
                assert(before.entries().contains_key(c));
                let i = choose|i: int|
                    0 <= i < before.order@.len() && key_code(#[trigger] before.order@[i]) == c;
                let j = if i < at {
                    i
                } else {
                    i - 1
                };
                assert(key_code(self.order@[j]) == c);
            }
            assert forall|i: int, j: int| 0 <= i < j < self@.list.len() implies
                #[trigger] self@.list[i].key != #[trigger] self@.list[j].key by {}
        }
    }

    /// The keys, in order.
    pub fn keys(&self) -> (r: Vec<PropKey>)
        requires
            self.wf(),
        ensures
            r@ == self@.list.map_values(|p: Prop| p.key),
    {
        let mut out: Vec<PropKey> = Vec::new();
        let mut i: usize = 0;
        while i < self.shape.len()
            invariant
                i <= self.shape@.len(),
                out@ == Seq::new(i as nat, |k: int| self.shape@[k].key),
            decreases self.shape@.len() - i,
        {
            out.push(self.shape[i].key);
            proof {
                assert(out@ =~= Seq::new((i + 1) as nat, |k: int| self.shape@[k].key));
            }
            i = i + 1;
        }
        match &self.dict {
            None => {},
            Some(m) => {
                let items: Vec<(u64, u128)> = map_items(m);
                self.push_in_order(&items, &mut out);
            },
        }
        proof {
            assert(out@ =~= self@.list.map_values(|p: Prop| p.key));
        }
        out
    }

    /// Appends the keys of the dictionary in the order of their insertion.
    fn push_in_order(&self, items: &Vec<(u64, u128)>, out: &mut Vec<PropKey>)
        requires
            self.wf(),
            forall|i: int|
                0 <= i < items@.len() ==> self.entries().contains_key(#[trigger] items@[i].1)
                    && items@[i].0 == self.entries()[items@[i].1].seq,
            forall|c: u128| self.entries().contains_key(c) ==> exists|i: int|
                0 <= i < items@.len() && #[trigger] items@[i].1 == c,
        ensures
            final(out)@ == old(out)@ + self.order@,
    {
        let ghost start = out@;
        let mut done: u64 = 0;
        let ghost mut k: nat = 0;
        loop
            invariant_except_break
                k == 0 ==> done == 0,
                k > 0 ==> done == self.entries()[key_code(self.order@[k - 1])].seq + 1,
            invariant
                self.wf(),
                forall|i: int|
                    0 <= i < items@.len() ==> self.entries().contains_key(#[trigger] items@[i].1)
                        && items@[i].0 == self.entries()[items@[i].1].seq,
                forall|c: u128| self.entries().contains_key(c) ==> exists|i: int|
                    0 <= i < items@.len() && #[trigger] items@[i].1 == c,
                k <= self.order@.len(),
                out@ == start + self.order@.take(k as int),
            ensures
                out@ == start + self.order@,
            decreases self.order@.len() - k,
        {
            match lowest(items, done) {
                None => {
                    proof {
                        if k < self.order@.len() {
                            let c = key_code(self.order@[k as int]);
                            assert(self.entries().contains_key(c));
                            let i = choose|i: int| 0 <= i < items@.len() && #[trigger] items@[i].1 == c;
                            assert(items@[i].0 < done);
                            if k > 0 {
                                assert(self.entries()[key_code(self.order@[k - 1])].seq
                                    < self.entries()[key_code(self.order@[k as int])].seq);
                            }
                        }
                        assert(k == self.order@.len());
                        let whole = self.order@;
                        assert(whole.take(whole.len() as int) =~= whole);
                    }
                    break ;
                },
                Some(at) => {
                    let (seq, code) = items[at];
                    proof {
                        assert(self.entries().contains_key(code));
                        let j = choose|j: int|
                            0 <= j < self.order@.len() && key_code(#[trigger] self.order@[j]) == code;
                        assert(j >= k) by {
                            if j < k {
                                if j < k - 1 {
                                    assert(self.entries()[key_code(self.order@[j])].seq
                                        < self.entries()[key_code(self.order@[k - 1])].seq);
                                }
                            }
                        }
                        let c = key_code(self.order@[k as int]);
                        assert(self.entries().contains_key(c));
                        let i = choose|i: int| 0 <= i < items@.len() && #[trigger] items@[i].1 == c;
                        assert(items@[i].0 >= done) by {
                            if k > 0 {
                                assert(self.entries()[key_code(self.order@[k - 1])].seq
                                    < self.entries()[key_code(self.order@[k as int])].seq);
                            }
                        }
                        assert(seq <= items@[i].0);
                        assert(j == k) by {
                            if j > k {
                                assert(self.entries()[key_code(self.order@[k as int])].seq
                                    < self.entries()[key_code(self.order@[j])].seq);
                            }
                        }
                    }
                    let key: PropKey = key_of(code);
                    proof {
                        lemma_key_code(key, self.order@[k as int]);
                        assert(self.order@.take(k as int + 1) =~= self.order@.take(k as int).push(key));
                        assert(self.entries()[key_code(self.order@[k as int])].seq < self.slots@.len());
                        k = k + 1;
                    }
                    out.push(key);
                    if seq == u64::MAX {
                        proof {
                            if k < self.order@.len() {
                                assert(self.entries()[key_code(self.order@[k - 1])].seq
                                    < self.entries()[key_code(self.order@[k as int])].seq);
                            }
                            assert(k == self.order@.len());
                            assert(k == self.order@.len());
                        let whole = self.order@;
                        assert(whole.take(whole.len() as int) =~= whole);
                        }
                        break ;
                    }
                    done = seq + 1;
                },
            }
        }
    }
}

/// Index of the item with the lowest position from `from` on.
fn lowest(items: &Vec<(u64, u128)>, from: u64) -> (r: Option<usize>)
    ensures
        match r {
            None => forall|i: int| 0 <= i < items@.len() ==> (#[trigger] items@[i]).0 < from,
            Some(at) => at < items@.len() && items@[at as int].0 >= from && forall|i: int|
                0 <= i < items@.len() && (#[trigger] items@[i]).0 >= from ==> items@[at as int].0
                    <= items@[i].0,
        },
{
    let mut best: Option<usize> = None;
    let mut i: usize = 0;
    while i < items.len()
        invariant
            i <= items@.len(),
            match best {
                None => forall|k: int| 0 <= k < i ==> (#[trigger] items@[k]).0 < from,
                Some(at) => at < items@.len() && items@[at as int].0 >= from && forall|k: int|
                    0 <= k < i && (#[trigger] items@[k]).0 >= from ==> items@[at as int].0
                        <= items@[k].0,
            },
        decreases items@.len() - i,
    {
        if items[i].0 >= from {
            let better: bool = match best {
                None => true,
                Some(at) => items[i].0 < items[at].0,
            };
            if better {
                best = Some(i);
            }
        }
        i = i + 1;
    }
    best
}

/// The properties of a list, all in the shape.
pub open spec fn shaped(list: Seq<Prop>) -> Named {
    Named { list, base: list.len(), spilled: false }
}

/// The properties of a list, all in the shape.
pub fn properties_of(props: &Vec<Prop>) -> (r: Properties)
    requires
        distinct_keys(props@),
    ensures
        r.wf(),
        r@ == shaped(props@),
{
    let mut r: Properties = Properties::new();
    let mut i: usize = 0;
    proof {
        assert(r@.list =~= props@.take(0));
    }
    while i < props.len()
        invariant
            distinct_keys(props@),
            i <= props@.len(),
            r.wf(),
            r@ == shaped(props@.take(i as int)),
        decreases props@.len() - i,
    {
        proof {
            assert forall|k: int| 0 <= k < r@.list.len() implies #[trigger] r@.list[k].key
                != props@[i as int].key by {
                assert(props@[k].key != props@[i as int].key);
            }
        }
        r.install(props[i]);
        proof {
            assert(r@.list =~= props@.take(i + 1));
        }
        i = i + 1;
    }
    proof {
        assert(props@.take(i as int) =~= props@);
    }
    r
}

} // verus!

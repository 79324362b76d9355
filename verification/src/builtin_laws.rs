//! What creating, copying and testing objects gives, and how integers are written.
use vstd::prelude::*;

use crate::bigint::{bigint_units, bytes_value};
use crate::convert::{display, text_of};
use crate::ctx::to_key;
use crate::define_laws::named;
use crate::descriptor::Fault;
use crate::error_object::{joined, message_text};
use crate::heap::HeapModel;
use crate::internal_methods::{
    element_at, element_index, keyed_element, own_property, with_element, without_element,
};
use crate::jit_tier::flag_on;
use crate::key_order::is_live;
use crate::number::any_digit;
use crate::object::{
    assign_result, construct_result, element_or_undefined, set_prototype_result, with_entries,
    with_source,
};
use crate::object_define::create_result;
use crate::object_describe::plain_data;
use crate::object_laws::law_define_own;
use crate::object_list::own_test;
use crate::properties::{Prop, distinct_keys, lookup};
use crate::radix_laws::spelled;
use crate::symbol::{fresh_result, shared_result};
use crate::text::{int_text, nat_text, utf16_of};
use crate::value::{JsValue, PropKey};

verus! {

// ---------------------------------------------------------------------------
// Objects
// ---------------------------------------------------------------------------

/// `Object` gives an object back as it is, and a new empty one for anything else.
pub proof fn law_object_construct(h: HeapModel, v: JsValue)
    requires
        h.objects.len() < usize::MAX,
    ensures
        v is Object ==> construct_result(h, v) == (h, Ok::<JsValue, Fault>(v)),
        !(v is Object) ==> {
            let r = construct_result(h, v);
            &&& r.1 == Ok::<JsValue, Fault>(JsValue::Object(h.objects.len() as usize))
            &&& r.0.objects.len() == h.objects.len() + 1
            &&& r.0.objects.last().named.list.len() == 0
            &&& r.0.objects.last().elements.len() == 0
        },
{
}

/// `Object.create` makes a new object with the prototype that was asked for and no
/// properties; what is neither an object nor missing is refused.
pub proof fn law_create(h: HeapModel, p: usize, v: JsValue)
    requires
        h.objects.len() < usize::MAX,
        p < h.objects.len(),
    ensures
        ({
            let r = create_result(h, seq![JsValue::Object(p)]);
            &&& r.1 == Ok::<JsValue, Fault>(JsValue::Object(h.objects.len() as usize))
            &&& r.0.objects.last().prototype == Some(p)
            &&& r.0.objects.last().named.list.len() == 0
            &&& r.0.objects.last().extensible
            &&& r.0.objects.drop_last() == h.objects
        }),
        create_result(h, seq![JsValue::Null]).0.objects.last().prototype is None,
        !(v is Object) && !(v is Null) && !(v is Undefined) ==> create_result(h, seq![v]).1 is Err
            && create_result(h, seq![v]).0 == h,
{
    let r = create_result(h, seq![JsValue::Object(p)]);
    assert(r.0.objects.drop_last() =~= h.objects);
}

/// `Object.setPrototypeOf` links an object to the one that is asked for, or to none, and
/// gives it back; anything that is no object is given back as it is.
pub proof fn law_object_set_prototype(h: HeapModel, o: usize, p: usize, v: JsValue, k: int)
    requires
        o < h.objects.len(),
        0 <= k < h.objects.len(),
    ensures
        ({
            let r = set_prototype_result(h, seq![JsValue::Object(o), JsValue::Object(p)]);
            &&& r.1 == Ok::<JsValue, Fault>(JsValue::Object(o))
            &&& r.0.objects[o as int].prototype == Some(p)
            &&& r.0.objects[o as int].named == h.objects[o as int].named
            &&& k != o ==> r.0.objects[k] == h.objects[k]
        }),
        set_prototype_result(
            h,
            seq![JsValue::Object(o), JsValue::Null],
        ).0.objects[o as int].prototype is None,
        !(v is Object) && !(v is Null) ==> set_prototype_result(h, seq![JsValue::Object(o), v]).1
            is Err,
        !(v is Object) ==> set_prototype_result(h, seq![v, JsValue::Object(p)]) == (
            h,
            Ok::<JsValue, Fault>(v),
        ),
{
}

/// `hasOwnProperty` answers whether the object itself has the property, listed or not;
/// `propertyIsEnumerable` whether it has one with a value that is listed.
pub proof fn law_own_tests(h: HeapModel, o: usize, n: usize, text: Seq<char>)
    requires
        o < h.objects.len(),
    ensures
        ({
            let key = PropKey::Text(n);
            let own = own_test(h, JsValue::Object(o), JsValue::Text(n), text, false);
            let listed = own_test(h, JsValue::Object(o), JsValue::Text(n), text, true);
            &&& own == (
                h,
                Ok::<JsValue, Fault>(JsValue::Bool(own_property(h, o, key) is Some)),
            )
            &&& listed.0 == h
            &&& keyed_element(h, o, key) is None ==> listed.1 == Ok::<JsValue, Fault>(
                JsValue::Bool(
                    named(h, o, key) matches Some(p) && p.attrs.enumerable && p.body is Data,
                ),
            )
            &&& keyed_element(h, o, key) is Some ==> listed.1 == Ok::<JsValue, Fault>(
                JsValue::Bool(true),
            )
        }),
{
}

/// `Object.assign` gives the target back, unchanged where there is nothing to copy from,
/// and refuses a target that is no object.
pub proof fn law_assign_target(h: HeapModel, o: usize, v: JsValue)
    requires
        !(v is Object),
    ensures
        assign_result(h, seq![JsValue::Object(o)]) == (
            h,
            Ok::<JsValue, Fault>(JsValue::Object(o)),
        ),
        assign_result(h, seq![JsValue::Object(o), v]) == (
            h,
            Ok::<JsValue, Fault>(JsValue::Object(o)),
        ),
        assign_result(h, seq![v, JsValue::Object(o)]).1 is Err,
{
    reveal_with_fuel(crate::object::with_sources, 3);
}

/// Copying from an object with one listed property puts its value on the target.
pub proof fn law_assign_property(h: HeapModel, o: usize, s: usize, p: Prop)
    requires
        o < h.objects.len(),
        s < h.objects.len(),
        o != s,
        distinct_keys(h.objects[o as int].named.list),
        h.objects[s as int].elements.len() == 0,
        h.objects[s as int].named.list == seq![p],
        p.attrs.enumerable,
        p.body is Data,
        is_live(p),
        element_index(h, o, p.key) is None,
        lookup(h.objects[o as int].named.list, p.key) matches Some(q) ==> q.body is Data
            && q.attrs.writable,
        lookup(h.objects[o as int].named.list, p.key) is None ==> h.objects[o as int].extensible,
    ensures
        with_source(h, o, s).1 is Ok,
        own_property(with_source(h, o, s).0, o, p.key) == Some(plain_data(p.body->Data_0)),
        with_source(h, o, s).0.objects[s as int] == h.objects[s as int],
{
    let m = h.objects[o as int];
    reveal_with_fuel(crate::object::overlaid, 1);
    reveal_with_fuel(crate::object::read_values, 2);
    reveal_with_fuel(crate::object::with_values, 2);
    let h1 = h.with_object(o, crate::heap::ObjModel { elements: m.elements, ..m });
    assert(h1.objects =~= h.objects);
    assert(h1 == h);
    law_define_own(h, o, p.key, p.body->Data_0, p.key);
}

/// Each pair that `Object.fromEntries` goes through becomes a property.
pub proof fn law_from_entries(h: HeapModel, o: usize, pairs: Seq<JsValue>, n: int)
    requires
        0 < n <= pairs.len(),
        pairs[n - 1] is Object,
        ({
            let h1 = with_entries(h, o, pairs, n - 1);
            let m = h1.objects[pairs[n - 1]->Object_0 as int];
            let (h2, key) = to_key(h1, element_or_undefined(m, 0));
            &&& o < h2.objects.len()
            &&& h2.objects[o as int].extensible
            &&& distinct_keys(h2.objects[o as int].named.list)
            &&& element_index(h2, o, key) is None
            &&& lookup(h2.objects[o as int].named.list, key) matches Some(q) ==> q.body is Data
                && q.attrs.writable
        }),
    ensures
        ({
            let h1 = with_entries(h, o, pairs, n - 1);
            let m = h1.objects[pairs[n - 1]->Object_0 as int];
            let (h2, key) = to_key(h1, element_or_undefined(m, 0));
            own_property(with_entries(h, o, pairs, n), o, key) == Some(
                plain_data(element_or_undefined(m, 1)),
            )
        }),
{
    let h1 = with_entries(h, o, pairs, n - 1);
    let m = h1.objects[pairs[n - 1]->Object_0 as int];
    let (h2, key) = to_key(h1, element_or_undefined(m, 0));
    law_define_own(h2, o, key, element_or_undefined(m, 1), key);
}

/// An element that is written is the one that is read, and others stay; behind the end
/// there are holes up to it.
pub proof fn law_write_element(s: Seq<JsValue>, i: int, v: JsValue, k: int)
    requires
        0 <= i,
        0 <= k,
        v != JsValue::Hole,
    ensures
        element_at(with_element(s, i, v), i) == Some(v),
        k != i ==> element_at(with_element(s, i, v), k) == element_at(s, k),
        with_element(s, i, v).len() == if i < s.len() {
            s.len() as int
        } else {
            i + 1
        },
        element_at(without_element(s, i), i) is None,
        k != i ==> element_at(without_element(s, i), k) == element_at(s, k),
        without_element(s, i).len() == s.len(),
{
}

// ---------------------------------------------------------------------------
// Integers as texts
// ---------------------------------------------------------------------------

/// The digits of a number spell it, without a zero in front.
pub proof fn law_nat_text(n: nat)
    ensures
        nat_text(n).len() > 0,
        spelled(nat_text(n), 10) == n,
        forall|i: int|
            0 <= i < nat_text(n).len() ==> 0x30 <= #[trigger] nat_text(n)[i] <= 0x39,
        nat_text(n)[0] == 0x30 ==> n == 0,
        n < 10 ==> nat_text(n).len() == 1,
    decreases n,
{
    let s = nat_text(n);
    if n < 10 {
        reveal_with_fuel(spelled, 2);
        assert(s.drop_last() =~= Seq::<u16>::empty());
        assert(any_digit(s.last()) == n);
        assert(spelled(s.drop_last(), 10) == 0);
    } else {
        law_nat_text(n / 10);
        let t = nat_text(n / 10);
        assert(s.drop_last() =~= t);
        assert(any_digit(s.last()) == n % 10);
        assert(s[0] == t[0]);
    }
}

/// The text of an integer is a minus where it is below zero, and digits that spell it.
pub proof fn law_int_text(h: HeapModel, n: i32)
    ensures
        text_of(h, JsValue::Smi(n)) == display(JsValue::Smi(n)),
        n >= 0 ==> spelled(display(JsValue::Smi(n)), 10) == n,
        n < 0 ==> display(JsValue::Smi(n))[0] == 0x2d && spelled(
            display(JsValue::Smi(n)).skip(1),
            10,
        ) == -n,
{
    law_nat_text(
        (if n < 0 {
            -n
        } else {
            n as int
        }) as nat,
    );
    if n < 0 {
        let t = nat_text((-n) as nat);
        assert((seq![0x2du16] + t).skip(1) =~= t);
    }
}

/// The text of a big integer is a minus where it is below zero, digits that spell it, and
/// an `n`.
pub proof fn law_bigint_text(b: (bool, Seq<u8>))
    ensures
        ({
            let t = bigint_units(b);
            let n = bytes_value(b.1, 0) as int;
            let digits = if t[0] == 0x2d {
                t.subrange(1, t.len() - 1)
            } else {
                t.subrange(0, t.len() - 1)
            };
            &&& t.last() == 0x6e
            &&& spelled(digits, 10) == n
            &&& t[0] == 0x2d <==> b.0 && n != 0
        }),
{
    let n = bytes_value(b.1, 0);
    let t = bigint_units(b);
    let d = nat_text(n);
    law_nat_text(n);
    if b.0 && n != 0 {
        assert(t.subrange(1, t.len() - 1) =~= d);
    } else {
        assert(t[0] == d[0]);
        assert(t.subrange(0, t.len() - 1) =~= d);
    }
}

/// The bytes of a number count by 256: one byte is itself, and a byte in front multiplies
/// the rest.
pub proof fn law_bytes_value(b: u8, s: Seq<u8>)
    ensures
        bytes_value(seq![b], 0) == b,
        bytes_value(seq![b] + s, 0) == b + 256 * bytes_value(s, 0),
        bytes_value(seq![], 0) == 0,
{
    reveal_with_fuel(bytes_value, 2);
    lemma_bytes_behind(b, s, 0);
}

proof fn lemma_bytes_behind(b: u8, s: Seq<u8>, i: int)
    requires
        0 <= i,
    ensures
        bytes_value(seq![b] + s, i + 1) == bytes_value(s, i),
    decreases s.len() - i,
{
    if i < s.len() {
        lemma_bytes_behind(b, s, i + 1);
    }
}

/// The other values are written by their names.
pub proof fn law_display_names(o: usize)
    ensures
        display(JsValue::Bool(true)) == utf16_of("true"@),
        display(JsValue::Bool(false)) == utf16_of("false"@),
        display(JsValue::Undefined) == utf16_of("undefined"@),
        display(JsValue::Null) == utf16_of("null"@),
        display(JsValue::Object(o)) == utf16_of("[object Object]"@),
{
}

// ---------------------------------------------------------------------------
// Errors, symbols and flags
// ---------------------------------------------------------------------------

/// An error is written as its name, a colon, a space and its message; where one of the two
/// is empty, as the other alone.
pub proof fn law_error_text(name: Seq<u16>, message: Seq<u16>)
    ensures
        message.len() == 0 ==> joined(name, message) == name,
        name.len() == 0 ==> joined(name, message) == message,
        name.len() > 0 && message.len() > 0 ==> joined(name, message) == name + seq![0x3au16, 0x20]
            + message,
{
    reveal_strlit(": ");
    crate::object_describe::lemma_ascii_units(": "@);
    assert(utf16_of(": "@) =~= seq![0x3au16, 0x20]);
    if name.len() == 0 && message.len() == 0 {
        assert(name =~= message);
    }
}

/// The message of an error is the text that it was made with, and empty without one.
pub proof fn law_error_message(h: HeapModel, n: usize, k: i32)
    requires
        forall|j: int|
            0 <= j < h.texts[n as int].len() ==> !crate::text::is_lone(h.texts[n as int], j),
    ensures
        message_text(h, JsValue::Undefined).len() == 0,
        message_text(h, JsValue::Text(n)) == h.texts[n as int],
        message_text(h, JsValue::Smi(k)) == int_text(k as int),
{
    assert(crate::text::well_formed(h.texts[n as int]) =~= h.texts[n as int]);
}

/// Every symbol that is made is a new one; the one that is shared under a text is the same
/// each time, and differs from that of a text that has none yet.
pub proof fn law_fresh_symbol(h: HeapModel, key: Seq<u16>, other: Seq<u16>)
    requires
        h.symbols + 2 < usize::MAX,
        h.symbol_of(key) is None,
        h.symbol_of(other) is None,
        key != other,
    ensures
        fresh_result(h).1 == Ok::<JsValue, Fault>(JsValue::Symbol(h.symbols as usize)),
        fresh_result(fresh_result(h).0).1 != fresh_result(h).1,
        shared_result(h, key).1 == Ok::<JsValue, Fault>(JsValue::Symbol(h.symbols as usize)),
        shared_result(shared_result(h, key).0, other).1 != shared_result(h, key).1,
{
    lemma_other_key(h.registry, key, other, h.symbols as usize, 0);
}

proof fn lemma_other_key(
    reg: Seq<(Seq<u16>, usize)>,
    key: Seq<u16>,
    other: Seq<u16>,
    s: usize,
    i: int,
)
    requires
        0 <= i,
        key != other,
    ensures
        crate::heap::first_under(reg.push((key, s)), other, i) == crate::heap::first_under(
            reg,
            other,
            i,
        ),
    decreases reg.len() - i,
{
    if i < reg.len() {
        lemma_other_key(reg, key, other, s, i + 1);
    } else if i == reg.len() {
        assert(crate::heap::first_under(reg.push((key, s)), other, i + 1) is None);
    }
}

/// The flag is off where it is not set, empty or `0`, and on otherwise.
pub proof fn law_flag(v: Seq<char>)
    ensures
        !flag_on(None),
        flag_on(Some(v)) <==> v.len() > 1 || (v.len() == 1 && v[0] != '0'),
{
    if v.len() == 1 && v[0] == '0' {
        assert(v =~= seq!['0']);
    }
    if v == seq!['0'] {
        assert(v.len() == 1 && v[0] == '0');
    }
}

} // verus!

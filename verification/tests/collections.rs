use v12_engine::array::{
    array_at, array_concat, array_copy_within, array_fill, array_flat, array_from, array_includes,
    array_index_of, array_is_array, array_join, array_last_index_of, array_of, array_pop,
    array_push, array_reverse, array_shift, array_slice, array_splice, array_unshift,
};
use v12_engine::array_sort::array_sort;
use v12_engine::boolean::{boolean_construct, boolean_proto_to_string};
use v12_engine::ctx::Ctx;
use v12_engine::heap::{Heap, JsObject};
use v12_engine::iterator::{
    array_iterator, iterator_drop, iterator_from, iterator_self, iterator_take, iterator_to_array,
};
use v12_engine::map::{
    map_clear, map_construct, map_delete, map_get, map_has, map_keys, map_set, map_size,
    map_values, set_add, set_construct, set_delete, set_has, set_size, set_values,
};
use v12_engine::properties::PropBody;
use v12_engine::value::{JsValue, Kind, PropKey, Throw};

type Builtin = fn(&mut Ctx, JsValue, &[JsValue]) -> Result<JsValue, Throw>;

const U: JsValue = JsValue::Undefined;

fn ctx() -> Ctx {
    Ctx::new(Heap::new(), None, None)
}

fn s(n: i32) -> JsValue {
    JsValue::Smi(n)
}

fn list(c: &mut Ctx, items: &[i32]) -> JsValue {
    c.array_value(items.iter().map(|&n| JsValue::Smi(n)).collect())
}

fn show(c: &Ctx, v: JsValue) -> String {
    match v {
        JsValue::Text(n) => String::from_utf16_lossy(c.heap.text(n)),
        JsValue::Smi(n) => format!("{n}"),
        JsValue::Undefined => "u".to_string(),
        JsValue::Hole => "-".to_string(),
        JsValue::Bool(b) => format!("{b}"),
        JsValue::Object(o) => {
            let parts: Vec<String> =
                c.heap.object(o).elements.iter().map(|&e| show(c, e)).collect();
            format!("[{}]", parts.join(","))
        }
        other => format!("{:?}", other),
    }
}

fn on(items: &[i32], f: Builtin, args: &[JsValue]) -> (String, String) {
    let mut c = ctx();
    let a = list(&mut c, items);
    let r = f(&mut c, a, args).unwrap();
    (show(&c, r), show(&c, a))
}

fn pair(a: &str, b: &str) -> (String, String) {
    (a.to_string(), b.to_string())
}

#[test]
fn arrays_grow_and_shrink() {
    assert_eq!(on(&[1, 2], array_push, &[s(3)]), pair("3", "[1,2,3]"));
    assert_eq!(on(&[1, 2], array_pop, &[]), pair("2", "[1]"));
    assert_eq!(on(&[], array_pop, &[]), pair("u", "[]"));
    assert_eq!(on(&[1, 2], array_shift, &[]), pair("1", "[2]"));
    assert_eq!(on(&[1, 2], array_unshift, &[s(0)]), pair("3", "[0,1,2]"));
    assert_eq!(on(&[1, 2, 3, 4], array_splice, &[s(1), s(2), s(9)]), pair("[2,3]", "[1,9,4]"));
    assert_eq!(on(&[1, 2, 3], array_reverse, &[]).1, "[3,2,1]");
    assert_eq!(on(&[1, 2, 3], array_fill, &[s(0), s(1)]).1, "[1,0,0]");
    assert_eq!(on(&[1, 2, 3, 4], array_copy_within, &[s(0), s(2)]).1, "[3,4,3,4]");
}

#[test]
fn arrays_are_searched_and_copied() {
    assert_eq!(on(&[1, 2, 1], array_index_of, &[s(1)]).0, "0");
    assert_eq!(on(&[1, 2, 1], array_last_index_of, &[s(1)]).0, "2");
    assert_eq!(on(&[1, 2, 1], array_index_of, &[s(5)]).0, "-1");
    assert_eq!(on(&[1, 2, 1], array_includes, &[s(2)]).0, "true");
    assert_eq!(on(&[1, 2, 3], array_at, &[s(-1)]).0, "3");
    assert_eq!(on(&[1, 2, 3], array_at, &[s(3)]).0, "u");
    assert_eq!(on(&[1, 2, 3], array_slice, &[s(1)]).0, "[2,3]");
    assert_eq!(on(&[1, 2, 3], array_join, &[]).0, "1,2,3");
    let mut c = ctx();
    let (a, b) = (list(&mut c, &[1]), list(&mut c, &[2, 3]));
    let r = array_concat(&mut c, a, &[b, s(4)]).unwrap();
    assert_eq!(show(&c, r), "[1,2,3,4]");
    let nested = c.array_value(vec![a, b]);
    let r = array_flat(&mut c, nested, &[]).unwrap();
    assert_eq!(show(&c, r), "[1,2,3]");
    let r = array_of(&mut c, U, &[s(7), s(8)]).unwrap();
    assert_eq!(show(&c, r), "[7,8]");
    assert_eq!(array_is_array(&mut c, U, &[r]).unwrap(), JsValue::Bool(true));
    let t = JsValue::Text(c.heap.intern_text("ab"));
    let r = array_from(&mut c, U, &[t]).unwrap();
    assert_eq!(show(&c, r), "[a,b]");
}

#[test]
fn arrays_are_sorted_by_text() {
    assert_eq!(on(&[10, 9, 1], array_sort, &[]).1, "[1,10,9]");
    let mut c = ctx();
    let a = c.array_value(vec![U, s(2), JsValue::Hole, s(1)]);
    array_sort(&mut c, a, &[]).unwrap();
    assert_eq!(show(&c, a), "[1,2,u,-]");
}

#[test]
fn pushing_gives_any_object_a_length() {
    let mut c = ctx();
    let o = c.heap.allocate(JsObject::plain(Kind::Ordinary));
    assert_eq!(array_push(&mut c, JsValue::Object(o), &[s(4), s(5)]).unwrap(), s(2));
    let key = PropKey::Text(c.heap.intern_text("length"));
    let two = PropBody::Data(JsValue::Double(2f64.to_bits()));
    assert_eq!(c.heap.object(o).named.get(key).unwrap().body, two);
    assert_eq!(array_pop(&mut c, JsValue::Object(o), &[]).unwrap(), s(5));
}

#[test]
fn zeros_are_one_key() {
    let mut c = ctx();
    let m = map_construct(&mut c, U, &[]).unwrap();
    map_set(&mut c, m, &[s(0), s(1)]).unwrap();
    let minus = JsValue::Double((-0.0f64).to_bits());
    assert_eq!(map_get(&mut c, m, &[minus]).unwrap(), s(1));
    map_set(&mut c, m, &[minus, s(2)]).unwrap();
    assert_eq!(map_size(&mut c, m, &[]).unwrap(), s(1));
}

#[test]
fn array_methods_need_an_object() {
    let mut c = ctx();
    match array_push(&mut c, U, &[s(1)]) {
        Err(Throw::Error(t)) => assert!(t.starts_with("TypeError"), "{t}"),
        other => panic!("{:?}", other),
    }
}

#[test]
fn maps_keep_the_order_of_insertion() {
    let mut c = ctx();
    let m = map_construct(&mut c, U, &[]).unwrap();
    map_set(&mut c, m, &[s(2), s(20)]).unwrap();
    map_set(&mut c, m, &[s(1), s(10)]).unwrap();
    map_set(&mut c, m, &[s(2), s(21)]).unwrap();
    assert_eq!(map_get(&mut c, m, &[s(2)]).unwrap(), s(21));
    assert_eq!(map_get(&mut c, m, &[s(3)]).unwrap(), U);
    assert_eq!(map_size(&mut c, m, &[]).unwrap(), s(2));
    let k = map_keys(&mut c, m, &[]).unwrap();
    let r = iterator_to_array(&mut c, k, &[]).unwrap();
    assert_eq!(show(&c, r), "[2,1]");
    let v = map_values(&mut c, m, &[]).unwrap();
    let r = iterator_to_array(&mut c, v, &[]).unwrap();
    assert_eq!(show(&c, r), "[21,10]");
    assert_eq!(map_delete(&mut c, m, &[s(2)]).unwrap(), JsValue::Bool(true));
    assert_eq!(map_delete(&mut c, m, &[s(2)]).unwrap(), JsValue::Bool(false));
    assert_eq!(map_has(&mut c, m, &[s(2)]).unwrap(), JsValue::Bool(false));
    map_clear(&mut c, m, &[]).unwrap();
    assert_eq!(map_size(&mut c, m, &[]).unwrap(), s(0));
}

#[test]
fn sets_hold_a_value_once() {
    let mut c = ctx();
    let m = set_construct(&mut c, U, &[]).unwrap();
    for n in [3, 1, 3] {
        set_add(&mut c, m, &[s(n)]).unwrap();
    }
    let (pos, neg) = (JsValue::Double(0f64.to_bits()), JsValue::Double((-0f64).to_bits()));
    set_add(&mut c, m, &[neg]).unwrap();
    assert_eq!(set_has(&mut c, m, &[pos]).unwrap(), JsValue::Bool(true));
    assert_eq!(set_size(&mut c, m, &[]).unwrap(), s(3));
    set_delete(&mut c, m, &[pos]).unwrap();
    let v = set_values(&mut c, m, &[]).unwrap();
    let r = iterator_to_array(&mut c, v, &[]).unwrap();
    assert_eq!(show(&c, r), "[3,1]");
}

#[test]
fn iterators_give_each_value_once() {
    let mut c = ctx();
    let a = c.array_value(vec![s(1), JsValue::Hole, s(3), s(4)]);
    let it = array_iterator(&mut c, a, &[]).unwrap();
    assert_eq!(iterator_self(&mut c, it, &[]).unwrap(), it);
    assert_eq!(iterator_from(&mut c, U, &[it]).unwrap(), it);
    let r = iterator_to_array(&mut c, it, &[]).unwrap();
    assert_eq!(show(&c, r), "[1,u,3,4]");
    let r = iterator_to_array(&mut c, it, &[]).unwrap();
    assert_eq!(show(&c, r), "[]");
    let it = array_iterator(&mut c, a, &[]).unwrap();
    let taken = iterator_take(&mut c, it, &[s(2)]).unwrap();
    let r = iterator_to_array(&mut c, taken, &[]).unwrap();
    assert_eq!(show(&c, r), "[1,u]");
    let it = array_iterator(&mut c, a, &[]).unwrap();
    let rest = iterator_drop(&mut c, it, &[s(2)]).unwrap();
    let r = iterator_to_array(&mut c, rest, &[]).unwrap();
    assert_eq!(show(&c, r), "[3,4]");
}

#[test]
fn holes_of_arguments_are_given_as_undefined() {
    let mut c = ctx();
    let mut o = JsObject::plain(Kind::Arguments);
    o.elements = vec![s(1), JsValue::Hole, s(3)];
    let a = JsValue::Object(c.heap.allocate(o));
    let it = array_iterator(&mut c, a, &[]).unwrap();
    let r = iterator_to_array(&mut c, it, &[]).unwrap();
    assert_eq!(show(&c, r), "[1,u,3]");
}

#[test]
fn broken_iterators_are_refused() {
    let mut c = ctx();
    let o = JsValue::Object(c.heap.allocate(JsObject::plain(Kind::Iterator)));
    match iterator_to_array(&mut c, o, &[]) {
        Err(Throw::Error(t)) => assert_eq!(t, "TypeError: iterator.next called on non-iterator"),
        other => panic!("{:?}", other),
    }
}

#[test]
fn booleans() {
    let mut c = ctx();
    let t = JsValue::Text(c.heap.intern_text(""));
    assert_eq!(boolean_construct(&mut c, U, &[t]).unwrap(), JsValue::Bool(false));
    assert_eq!(boolean_construct(&mut c, U, &[s(1)]).unwrap(), JsValue::Bool(true));
    let r = boolean_proto_to_string(&mut c, JsValue::Bool(true), &[]).unwrap();
    assert_eq!(show(&c, r), "true");
}

use v12_engine::ctx::Ctx;
use v12_engine::descriptor::{apply_property_descriptor, same_value, FullDescriptor};
use v12_engine::error_object::{
    error_create, error_is_error, error_object, error_proto_to_string, intrinsic_slot,
    parse_error_text, syntax_error_value, thrown_value, type_error_create,
};
use v12_engine::heap::{Heap, JsObject};
use v12_engine::install::{install_builtins, BuiltinTargets};
use v12_engine::internal_methods::{
    dispatch_delete, dispatch_get, dispatch_has, dispatch_own_property_keys, dispatch_set,
    kind_of, ObjectKind,
};
use v12_engine::job_queue::Job;
use v12_engine::json::{json_parse, json_stringify};
use v12_engine::json_text::{array_index, newline_indent, quote_units, Parser};
use v12_engine::native::{builtin_length, builtin_table, NativeId};
use v12_engine::object::{
    object_assign, object_from_entries, object_is, object_is_frozen, object_is_sealed,
    object_prevent_extensions, object_proto_to_string, object_set_prototype_of,
};
use v12_engine::object_define::{
    object_create, object_define_properties, object_define_property, object_freeze,
    object_proto_define_getter, object_seal,
};
use v12_engine::object_describe::object_get_own_property_descriptor;
use v12_engine::object_list::{
    object_entries, object_enumerable_own_keys, object_get_own_property_names, object_has_own,
    object_keys, object_proto_property_is_enumerable, object_values,
};
use v12_engine::properties::PropBody;
use v12_engine::promise::{
    make_capability, make_pending_promise, promise_then, STATE_FULFILLED,
};
use v12_engine::proxy::{proxy_construct, proxy_revocable, revoke_proxy};
use v12_engine::reflect::{
    create_list_from_array_like, reflect_apply, reflect_define_property, reflect_delete_property,
    reflect_get, reflect_has, reflect_own_keys, reflect_set, reflect_set_prototype_of,
};
use v12_engine::symbol::{symbol_for, symbol_key_for};
use v12_engine::text::utf16;
use v12_engine::value::{Answer, Attrs, FunctionTarget, JsValue, Kind, PropKey, Throw};

const U: JsValue = JsValue::Undefined;

fn ctx() -> Ctx {
    Ctx::new(Heap::new(), None, None)
}

fn t(c: &mut Ctx, s: &str) -> JsValue {
    JsValue::Text(c.heap.intern_text(s))
}

fn key(c: &mut Ctx, s: &str) -> PropKey {
    PropKey::Text(c.heap.intern_text(s))
}

fn plain(c: &mut Ctx) -> usize {
    c.heap.allocate(JsObject::plain(Kind::Ordinary))
}

fn show(c: &Ctx, v: JsValue) -> String {
    match v {
        JsValue::Text(n) => String::from_utf16_lossy(c.heap.text(n)),
        JsValue::Smi(n) => format!("{n}"),
        JsValue::Object(o) => c.heap.object(o).elements.iter().map(|&e| show(c, e)).collect::<Vec<_>>().join(","),
        other => format!("{:?}", other),
    }
}

fn object(v: JsValue) -> usize {
    match v {
        JsValue::Object(o) => o,
        other => panic!("no object: {:?}", other),
    }
}

fn get(c: &mut Ctx, o: usize, name: &str) -> JsValue {
    let k = key(c, name);
    dispatch_get(&mut c.heap, o, k, JsValue::Object(o)).unwrap()
}

fn set(c: &mut Ctx, o: usize, name: &str, v: JsValue) -> bool {
    let k = key(c, name);
    dispatch_set(&mut c.heap, o, k, v, JsValue::Object(o)).unwrap()
}

fn failure(r: Result<JsValue, Throw>) -> String {
    match r {
        Err(Throw::Error(s)) => s,
        other => panic!("no error: {:?}", other),
    }
}

/// An object whose `x` is read by a getter of the embedder.
fn with_getter(c: &mut Ctx, target: FunctionTarget) -> (usize, usize) {
    let mut f = JsObject::plain(Kind::Function);
    f.callable = target;
    let g = c.heap.allocate(f);
    let o = plain(c);
    let x = t(c, "x");
    object_proto_define_getter(c, JsValue::Object(o), &[x, JsValue::Object(g)]).unwrap();
    (o, g)
}

#[test]
fn getters_are_run_and_answered() {
    let mut c = ctx();
    let (o, g) = with_getter(&mut c, FunctionTarget::Host(1));
    let v = JsValue::Object(o);
    let x = t(&mut c, "x");
    let args = [v, x];
    assert!(matches!(reflect_get(&mut c, U, &args), Err(Throw::HostGetter(a, b)) if (a, b) == (g, o)));
    assert!(matches!(object_values(&mut c, U, &[v]), Err(Throw::HostGetter(_, _))));
    let answer = |n| Answer { getter: g, owner: o, outcome: Ok(JsValue::Smi(n)) };
    c.heap.set_answers(vec![answer(5), answer(6)]);
    // Each run of the getter has its own answer.
    assert_eq!(reflect_get(&mut c, U, &args).unwrap(), JsValue::Smi(5));
    let r = object_values(&mut c, U, &[v]).unwrap();
    assert_eq!(show(&c, r), "6");
    assert!(matches!(reflect_get(&mut c, U, &args), Err(Throw::HostGetter(_, _))));
    // What a getter throws is thrown, but `Object.values` reads `undefined`.
    let thrown = Answer { getter: g, owner: o, outcome: Err(JsValue::Smi(7)) };
    c.heap.set_answers(vec![thrown, thrown]);
    assert!(matches!(reflect_get(&mut c, U, &args), Err(Throw::Value(JsValue::Smi(7)))));
    let r = object_values(&mut c, U, &[v]).unwrap();
    assert_eq!(c.heap.object(object(r)).elements, vec![U]);
}

#[test]
fn enumerable_data_properties() {
    let mut c = ctx();
    let (o, _) = with_getter(&mut c, FunctionTarget::Host(1));
    set(&mut c, o, "y", JsValue::Smi(1));
    let (x, y, z) = (t(&mut c, "x"), t(&mut c, "y"), t(&mut c, "z"));
    let mut test = |this, k| object_proto_property_is_enumerable(&mut c, this, &[k]);
    let v = JsValue::Object(o);
    assert_eq!(test(v, y).unwrap(), JsValue::Bool(true));
    // An accessor is no data property.
    assert_eq!(test(v, x).unwrap(), JsValue::Bool(false));
    assert_eq!(test(v, z).unwrap(), JsValue::Bool(false));
    assert!(test(U, y).is_err());
    let r = object_keys(&mut c, U, &[v]).unwrap();
    assert_eq!(show(&c, r), "x,y");
    // Keys are listed along the chain, each once.
    let child = plain(&mut c);
    set(&mut c, child, "y", JsValue::Smi(2));
    object_set_prototype_of(&mut c, U, &[JsValue::Object(child), v]).unwrap();
    let r = object_enumerable_own_keys(&mut c, U, &[JsValue::Object(child)]).unwrap();
    assert_eq!(show(&c, r), "y,x");
}

#[test]
fn descriptors_read_by_getters() {
    let mut c = ctx();
    let (props, g) = with_getter(&mut c, FunctionTarget::Host(1));
    let d = plain(&mut c);
    set(&mut c, d, "value", JsValue::Smi(3));
    let o = plain(&mut c);
    let args = [JsValue::Object(o), JsValue::Object(props)];
    assert!(matches!(object_define_properties(&mut c, U, &args), Err(Throw::HostGetter(_, _))));
    let outcome = Ok(JsValue::Object(d));
    c.heap.set_answers(vec![Answer { getter: g, owner: props, outcome }]);
    object_define_properties(&mut c, U, &args).unwrap();
    assert_eq!(get(&mut c, o, "x"), JsValue::Smi(3));
}

#[test]
fn a_getter_that_settles_a_promise() {
    let mut c = ctx();
    let p = make_pending_promise(&mut c.heap, None);
    let (resolve, _) = make_capability(&mut c.heap, p);
    let target = c.heap.object(resolve).callable;
    let d = promise_then(&mut c, JsValue::Object(p), &[]).unwrap();
    let (o, _) = with_getter(&mut c, target);
    assert_eq!(get(&mut c, o, "x"), U);
    assert_eq!(c.heap.object(p).inner.get(0), JsValue::Smi(STATE_FULFILLED));
    c.pending = Some(Vec::new());
    c.collect_jobs();
    let jobs = c.pending.take().unwrap();
    assert!(matches!(jobs[..], [Job::Reaction { derived, .. }] if JsValue::Object(derived) == d));
    assert_eq!(get(&mut c, o, "x"), U);
}

#[test]
fn chains_that_run_in_a_circle() {
    let mut c = ctx();
    let (a, b) = (plain(&mut c), plain(&mut c));
    object_set_prototype_of(&mut c, U, &[JsValue::Object(a), JsValue::Object(b)]).unwrap();
    object_set_prototype_of(&mut c, U, &[JsValue::Object(b), JsValue::Object(a)]).unwrap();
    set(&mut c, b, "x", JsValue::Smi(1));
    assert_eq!(get(&mut c, a, "x"), JsValue::Smi(1));
    assert_eq!(get(&mut c, a, "y"), U);
}

#[test]
fn a_property_reads_back_what_was_set() {
    let mut c = ctx();
    let o = plain(&mut c);
    // More properties than fit inline, and more than a shape holds.
    for i in 0..300 {
        assert!(set(&mut c, o, &format!("p{i}"), JsValue::Smi(i)));
    }
    for i in 0..300 {
        assert_eq!(get(&mut c, o, &format!("p{i}")), JsValue::Smi(i));
    }
    assert!(set(&mut c, o, "p7", JsValue::Smi(-7)));
    assert!(set(&mut c, o, "p290", JsValue::Smi(-290)));
    assert_eq!(get(&mut c, o, "p7"), JsValue::Smi(-7));
    assert_eq!(get(&mut c, o, "p290"), JsValue::Smi(-290));
    assert_eq!(get(&mut c, o, "absent"), U);
    let k = key(&mut c, "p290");
    assert!(dispatch_delete(&mut c.heap, o, k).unwrap());
    assert!(!dispatch_has(&c.heap, o, k).unwrap());
    assert_eq!(get(&mut c, o, "p290"), U);
    let k = key(&mut c, "p7");
    assert!(dispatch_delete(&mut c.heap, o, k).unwrap());
    // Nothing is seen of a deleted property of the shape.
    assert_eq!(get(&mut c, o, "p7"), U);
    assert!(!dispatch_has(&c.heap, o, k).unwrap());
    assert_eq!(get(&mut c, o, "p8"), JsValue::Smi(8));
    let names = object_keys(&mut c, U, &[JsValue::Object(o)]).unwrap();
    assert_eq!(c.heap.object(object(names)).elements.len(), 298);
}

#[test]
fn prototypes_are_read_through_and_not_written() {
    let mut c = ctx();
    let p = plain(&mut c);
    set(&mut c, p, "x", JsValue::Smi(1));
    let mut o = JsObject::plain(Kind::Ordinary);
    o.prototype = Some(p);
    let child = c.heap.allocate(o);
    assert_eq!(get(&mut c, child, "x"), JsValue::Smi(1));
    set(&mut c, child, "x", JsValue::Smi(2));
    assert_eq!(get(&mut c, p, "x"), JsValue::Smi(1));
    assert_eq!(get(&mut c, child, "x"), JsValue::Smi(2));
    assert_eq!(kind_of(&c.heap, child), ObjectKind::Ordinary);
}

#[test]
fn keys_are_in_order() {
    let mut c = ctx();
    let o = plain(&mut c);
    for name in ["b", "2", "a", "10", "1"] {
        set(&mut c, o, name, JsValue::Smi(0));
    }
    let r = object_keys(&mut c, U, &[JsValue::Object(o)]).unwrap();
    assert_eq!(show(&c, r), "1,2,10,b,a");
    let r = object_get_own_property_names(&mut c, U, &[JsValue::Object(o)]).unwrap();
    assert_eq!(show(&c, r), "1,2,10,b,a");
    let r = reflect_own_keys(&mut c, U, &[JsValue::Object(o)]).unwrap();
    assert_eq!(show(&c, r), "1,2,10,b,a");
    assert!(!dispatch_own_property_keys(&c.heap, o).is_empty());
}

#[test]
fn values_and_entries() {
    let mut c = ctx();
    let o = plain(&mut c);
    set(&mut c, o, "a", JsValue::Smi(1));
    set(&mut c, o, "b", JsValue::Smi(2));
    let r = object_values(&mut c, U, &[JsValue::Object(o)]).unwrap();
    assert_eq!(show(&c, r), "1,2");
    let r = object_entries(&mut c, U, &[JsValue::Object(o)]).unwrap();
    assert_eq!(show(&c, r), "a,1,b,2");
    let back = object(object_from_entries(&mut c, U, &[r]).unwrap());
    assert_eq!(get(&mut c, back, "b"), JsValue::Smi(2));
    let target = JsValue::Object(plain(&mut c));
    let a = object(object_assign(&mut c, U, &[target, JsValue::Object(o)]).unwrap());
    assert_eq!(get(&mut c, a, "a"), JsValue::Smi(1));
    let name = t(&mut c, "a");
    assert_eq!(
        object_has_own(&mut c, U, &[JsValue::Object(o), name]).unwrap(),
        JsValue::Bool(true)
    );
}

fn describe(c: &mut Ctx, o: usize, name: &str) -> (JsValue, JsValue, JsValue, JsValue) {
    let n = t(c, name);
    let d = object(object_get_own_property_descriptor(c, U, &[JsValue::Object(o), n]).unwrap());
    (get(c, d, "value"), get(c, d, "writable"), get(c, d, "enumerable"), get(c, d, "configurable"))
}

#[test]
fn definitions_and_their_limits() {
    let mut c = ctx();
    let o = plain(&mut c);
    let d = plain(&mut c);
    set(&mut c, d, "value", JsValue::Smi(5));
    let x = t(&mut c, "x");
    object_define_property(&mut c, U, &[JsValue::Object(o), x, JsValue::Object(d)]).unwrap();
    let f = JsValue::Bool(false);
    assert_eq!(describe(&mut c, o, "x"), (JsValue::Smi(5), f, f, f));
    // A property that cannot be configured or written keeps its value.
    assert!(!set(&mut c, o, "x", JsValue::Smi(6)));
    set(&mut c, d, "value", JsValue::Smi(6));
    assert!(failure(object_define_property(
        &mut c,
        U,
        &[JsValue::Object(o), x, JsValue::Object(d)]
    ))
    .starts_with("TypeError"));
    let r = reflect_define_property(&mut c, U, &[JsValue::Object(o), x, JsValue::Object(d)]);
    assert_eq!(r.unwrap(), f);
    assert_eq!(get(&mut c, o, "x"), JsValue::Smi(5));
    let r = reflect_delete_property(&mut c, U, &[JsValue::Object(o), x]).unwrap();
    assert_eq!(r, f);
}

#[test]
fn descriptors_that_fit() {
    let none = FullDescriptor::default();
    let d = FullDescriptor { value: Some(JsValue::Smi(1)), ..none };
    assert!(d.is_data() && !d.is_accessor());
    let mut h = Heap::new();
    let o = h.allocate(JsObject::plain(Kind::Ordinary));
    let k = PropKey::Text(h.intern_text("k"));
    assert!(matches!(apply_property_descriptor(&mut h, o, k, d), Ok(true)));
    let p = h.object(o).named.get(k).unwrap();
    assert_eq!(p.body, PropBody::Data(JsValue::Smi(1)));
    assert_eq!(p.attrs, Attrs::new(false, false, false));
    // The same definition once more changes nothing.
    let all = FullDescriptor {
        writable: Some(false),
        enumerable: Some(false),
        configurable: Some(false),
        ..d
    };
    assert!(matches!(apply_property_descriptor(&mut h, o, k, all), Ok(true)));
    assert_eq!(h.object(o).named.get(k).unwrap(), p);
    assert!(same_value(JsValue::Double(f64::NAN.to_bits()), JsValue::Double(f64::NAN.to_bits())));
}

#[test]
fn frozen_and_sealed_objects() {
    let mut c = ctx();
    let o = plain(&mut c);
    set(&mut c, o, "x", JsValue::Smi(1));
    let v = JsValue::Object(o);
    let yes = JsValue::Bool(true);
    object_seal(&mut c, U, &[v]).unwrap();
    assert_eq!(object_is_sealed(&mut c, U, &[v]).unwrap(), yes);
    assert_eq!(object_is_frozen(&mut c, U, &[v]).unwrap(), JsValue::Bool(false));
    assert!(set(&mut c, o, "x", JsValue::Smi(2)));
    assert!(!set(&mut c, o, "y", JsValue::Smi(2)));
    object_freeze(&mut c, U, &[v]).unwrap();
    assert_eq!(object_is_frozen(&mut c, U, &[v]).unwrap(), yes);
    assert!(!set(&mut c, o, "x", JsValue::Smi(3)));
    assert_eq!(get(&mut c, o, "x"), JsValue::Smi(2));
    let p = plain(&mut c);
    object_prevent_extensions(&mut c, U, &[JsValue::Object(p)]).unwrap();
    assert!(!set(&mut c, p, "z", JsValue::Smi(1)));
    assert_eq!(object_is(&mut c, U, &[v, v]).unwrap(), yes);
}

#[test]
fn prototype_chains_do_not_close() {
    let mut c = ctx();
    let a = plain(&mut c);
    let b = object(object_create(&mut c, U, &[JsValue::Object(a)]).unwrap());
    assert_eq!(c.heap.object(b).prototype, Some(a));
    let r = reflect_set_prototype_of(&mut c, U, &[JsValue::Object(a), JsValue::Object(b)]);
    assert_eq!(r.unwrap(), JsValue::Bool(false));
    assert_eq!(c.heap.object(a).prototype, None);
    let r = object_set_prototype_of(&mut c, U, &[JsValue::Object(b), JsValue::Null]).unwrap();
    assert_eq!(r, JsValue::Object(b));
    assert_eq!(c.heap.object(b).prototype, None);
    let s = object_proto_to_string(&mut c, JsValue::Object(a), &[]).unwrap();
    assert_eq!(show(&c, s), "[object Object]");
}

#[test]
fn reflection() {
    let mut c = ctx();
    let o = plain(&mut c);
    let (v, x) = (JsValue::Object(o), t(&mut c, "x"));
    let yes = JsValue::Bool(true);
    assert_eq!(reflect_set(&mut c, U, &[v, x, JsValue::Smi(4)]).unwrap(), yes);
    assert_eq!(reflect_get(&mut c, U, &[v, x]).unwrap(), JsValue::Smi(4));
    assert_eq!(reflect_has(&mut c, U, &[v, x]).unwrap(), yes);
    let mut f = JsObject::plain(Kind::Function);
    f.callable = FunctionTarget::Host(5);
    let f = JsValue::Object(c.heap.allocate(f));
    let list = c.array_value(vec![JsValue::Smi(1), JsValue::Smi(2)]);
    c.define_data_prop(object(list), "length", JsValue::Smi(2));
    let call = reflect_apply(&mut c, U, &[f, x, list]).unwrap();
    assert_eq!(call.target, FunctionTarget::Host(5));
    assert_eq!(call.args, vec![JsValue::Smi(1), JsValue::Smi(2)]);
    assert_eq!(create_list_from_array_like(&mut c.heap, list).unwrap().len(), 2);
    assert!(reflect_apply(&mut c, U, &[v, x, list]).is_err());
}

#[test]
fn json_texts() {
    let mut c = ctx();
    for (source, text) in [
        ("[1, 2.5, \"a\\n\\u0041\", true, null]", "[1,2.5,\"a\\nA\",true,null]"),
        ("{\"b\": 1, \"a\": {\"2\": [], \"1\": {}}}", "{\"b\":1,\"a\":{\"1\":{},\"2\":[]}}"),
        ("  \"x\"  ", "\"x\""),
        ("-0", "0"),
    ] {
        let s = t(&mut c, source);
        let v = json_parse(&mut c, U, &[s]).unwrap();
        let w = json_stringify(&mut c, U, &[v]).unwrap();
        assert_eq!(show(&c, w), text);
    }
    let s = t(&mut c, "{\"a\":[1,{}]}");
    let v = json_parse(&mut c, U, &[s]).unwrap();
    let w = json_stringify(&mut c, U, &[v, JsValue::Null, JsValue::Smi(2)]).unwrap();
    assert_eq!(show(&c, w), "{\n  \"a\": [\n    1,\n    {}\n  ]\n}");
    for bad in ["", "{", "[1,]", "nul", "\"a", "1 2", "{\"a\"}", "\"\\x\""] {
        let s = t(&mut c, bad);
        assert!(failure(json_parse(&mut c, U, &[s])).starts_with("SyntaxError"), "{bad}");
    }
    let o = plain(&mut c);
    set(&mut c, o, "self", JsValue::Object(o));
    assert!(failure(json_stringify(&mut c, U, &[JsValue::Object(o)])).starts_with("TypeError"));
    assert_eq!(json_stringify(&mut c, U, &[U]).unwrap(), U);
}

#[test]
fn json_pieces() {
    let mut out = Vec::new();
    quote_units(&[0x22, 0x41, 0x0a, 0xd800, 0x1f], &mut out);
    assert_eq!(String::from_utf16_lossy(&out), "\"\\\"A\\n\\ud800\\u001f\"");
    let mut out = Vec::new();
    newline_indent(&utf16("--"), 2, &mut out);
    assert_eq!(String::from_utf16_lossy(&out), "\n----");
    assert_eq!(array_index(&utf16("12")), Some(12));
    assert_eq!(array_index(&utf16("012")), None);
}

#[test]
fn shared_symbols() {
    let mut c = ctx();
    let k = t(&mut c, "app");
    let a = symbol_for(&mut c, U, &[k]).unwrap();
    let b = symbol_for(&mut c, U, &[k]).unwrap();
    assert_eq!(a, b);
    assert_eq!(symbol_key_for(&mut c, U, &[a]).unwrap(), k);
}

#[test]
fn error_objects() {
    let mut c = ctx();
    let m = t(&mut c, "boom");
    let e = type_error_create(&mut c, U, &[m]).unwrap();
    assert_eq!(error_is_error(&mut c, U, &[e]).unwrap(), JsValue::Bool(true));
    let s = error_proto_to_string(&mut c, e, &[]).unwrap();
    assert_eq!(show(&c, s), "TypeError: boom");
    let e = error_create(&mut c, U, &[]).unwrap();
    let s = error_proto_to_string(&mut c, e, &[]).unwrap();
    assert_eq!(show(&c, s), "Error");
    let options = plain(&mut c);
    set(&mut c, options, "cause", JsValue::Smi(42));
    let e = object(error_create(&mut c, U, &[m, JsValue::Object(options)]).unwrap());
    assert_eq!(get(&mut c, e, "cause"), JsValue::Smi(42));
    assert_eq!(intrinsic_slot("TypeError"), Some(8));
    assert_eq!(intrinsic_slot("Proxy"), Some(20));
    assert_eq!(intrinsic_slot("URIError"), None);
    let (class, message) = parse_error_text("RangeError: too far", "Error");
    assert_eq!((class, String::from_utf16_lossy(&message).as_str()), ("RangeError", "too far"));
    let (class, message) = parse_error_text("odd: text", "SyntaxError");
    assert_eq!((class, String::from_utf16_lossy(&message).as_str()), ("SyntaxError", "odd: text"));
    let v = syntax_error_value(&mut c, "unexpected token");
    let s = error_proto_to_string(&mut c, v, &[]).unwrap();
    assert_eq!(show(&c, s), "SyntaxError: unexpected token");
    let v = thrown_value(&mut c, &Throw::Error("URIError: bad".to_string())).unwrap();
    let s = error_proto_to_string(&mut c, v, &[]).unwrap();
    assert_eq!(show(&c, s), "URIError: bad");
    assert_eq!(
        failure(error_proto_to_string(&mut c, JsValue::Smi(1), &[])),
        "TypeError: Error.prototype.toString called on non-object"
    );
}

#[test]
fn errors_are_linked_to_their_class() {
    let mut heap = Heap::new();
    let proto = heap.allocate(JsObject::plain(Kind::Ordinary));
    let mut ctor = JsObject::plain(Kind::Function);
    ctor.prototype = Some(proto);
    let ctor = heap.allocate(ctor);
    let mut global = JsObject::plain(Kind::Ordinary);
    for _ in 0..21 {
        global.inner.push(JsValue::Object(ctor));
    }
    let global = heap.allocate(global);
    let mut c = Ctx::new(heap, Some(global), None);
    let e = error_object(&mut c, "SyntaxError", &utf16("x"));
    assert_eq!(c.heap.object(e).prototype, Some(proto));
    assert_eq!(get(&mut c, e, "constructor"), JsValue::Object(ctor));
}

#[test]
fn proxies_can_be_revoked() {
    let mut c = ctx();
    let (a, b) = (plain(&mut c), plain(&mut c));
    let r = proxy_revocable(&mut c, U, &[JsValue::Object(a), JsValue::Object(b)]).unwrap();
    let r = object(r);
    let p = get(&mut c, r, "proxy");
    let revoke = object(get(&mut c, r, "revoke"));
    assert_eq!(c.heap.object(object(p)).proxy_target, Some(a));
    assert!(matches!(c.heap.object(revoke).callable, FunctionTarget::Bound(_)));
    revoke_proxy(&mut c.heap, p, &[]).unwrap();
    assert_eq!(c.heap.object(object(p)).proxy_target, None);
    assert_eq!(c.heap.object(object(p)).proxy_handler, None);
    assert_eq!(
        failure(proxy_construct(&mut c, U, &[])),
        "TypeError: Constructor Proxy requires 'new'"
    );
    let f = JsValue::Object(c.heap.allocate(JsObject::plain(Kind::Function)));
    assert_eq!(
        failure(proxy_construct(&mut c, f, &[JsValue::Smi(1)])),
        "TypeError: Cannot create proxy with a non-object as target or handler"
    );
}

#[test]
fn builtins_are_installed() {
    let mut c = ctx();
    let mut o = || c.heap.allocate(JsObject::plain(Kind::Ordinary));
    let targets = BuiltinTargets {
        global: o(),
        math: Some(o()),
        number: None,
        number_proto: o(),
        string: Some(o()),
        string_proto: o(),
        array: Some(o()),
        array_proto: o(),
        object: Some(o()),
        object_proto: o(),
        function_proto: o(),
        json: Some(o()),
        boolean_proto: o(),
        symbol: Some(o()),
        symbol_proto: o(),
        proxy: Some(o()),
    };
    install_builtins(&mut c, &targets);
    let math = targets.math.unwrap();
    assert_eq!(get(&mut c, math, "PI"), JsValue::Double(std::f64::consts::PI.to_bits()));
    let max = object(get(&mut c, math, "max"));
    assert_eq!(c.heap.object(max).callable, FunctionTarget::Native(NativeId::MathMax));
    assert_eq!(get(&mut c, max, "length"), JsValue::Smi(2));
    let name = get(&mut c, max, "name");
    assert_eq!(show(&c, name), "max");
    for e in builtin_table() {
        if let Some(target) = targets.object_for(e.target) {
            let k = key(&mut c, e.name);
            assert!(c.heap.object(target).named.get(k).is_some(), "{}", e.name);
        }
    }
    assert_eq!(builtin_length(NativeId::ProxyRevocable), Some(2));
    let before = c.heap.object(math).named.keys().len();
    install_builtins(&mut c, &targets);
    assert_eq!(c.heap.object(math).named.keys().len(), before);
}

#[test]
fn a_string_that_fails_does_not_move_back() {
    for source in ["\"a", "\"a\\x\"", "x", "\"\\u12"] {
        let units = utf16(&format!("  {source}"));
        let mut p = Parser { chars: &units, pos: 2 };
        assert!(p.string().is_err(), "{source}");
        assert!(p.pos >= 2, "{source}");
    }
}

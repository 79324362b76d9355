use v12_engine::boolean::boolean_construct;
use v12_engine::builtins::{call_builtin, fits};
use v12_engine::ctx::Ctx;
use v12_engine::engine::Engine;
use v12_engine::global::{decode, encode};
use v12_engine::heap::{BigInt, Heap, JsObject};
use v12_engine::internal_methods::{dispatch_get, dispatch_set};
use v12_engine::job_queue::{Action, Checkpoint, Event, Job, JobQueue};
use v12_engine::json::{json_parse, json_stringify};
use v12_engine::native::NativeId;
use v12_engine::number::number_proto_to_string;
use v12_engine::object::object_assign;
use v12_engine::object_define::object_proto_define_getter;
use v12_engine::promise::{job_is_valid, module_import, module_namespace};
use v12_engine::text::utf16;
use v12_engine::value::{Answer, FunctionTarget, JsValue, Kind, PropKey, Throw};

const U: JsValue = JsValue::Undefined;

fn ctx() -> Ctx {
    Ctx::new(Heap::new(), None, None)
}

fn t(c: &mut Ctx, s: &str) -> JsValue {
    JsValue::Text(c.heap.intern_text(s))
}

fn plain(c: &mut Ctx) -> usize {
    c.heap.allocate(JsObject::plain(Kind::Ordinary))
}

fn show(c: &Ctx, v: JsValue) -> String {
    match v {
        JsValue::Text(n) => String::from_utf16(c.heap.text(n)).unwrap(),
        _ => panic!("no text"),
    }
}

fn get(c: &mut Ctx, o: usize, name: &str) -> Result<JsValue, Throw> {
    let key = PropKey::Text(c.heap.intern_text(name));
    dispatch_get(&mut c.heap, o, key, JsValue::Object(o))
}

fn set(c: &mut Ctx, o: usize, name: &str, v: JsValue) {
    let key = PropKey::Text(c.heap.intern_text(name));
    assert!(dispatch_set(&mut c.heap, o, key, v, JsValue::Object(o)).unwrap());
}

/// An object with a getter under `x`, which the embedder runs.
fn with_host_getter(c: &mut Ctx) -> (usize, usize) {
    let o = plain(c);
    let g = c.heap.allocate(JsObject::plain(Kind::Function));
    c.heap.object_mut(g).callable = FunctionTarget::Host(1);
    let x = t(c, "x");
    object_proto_define_getter(c, JsValue::Object(o), &[x, JsValue::Object(g)]).unwrap();
    (o, g)
}

#[test]
fn a_checkpoint_goes_on_while_follow_ups_are_pending() {
    let idle = Event::NothingToResume { deadline_exceeded: false, awaiting: false };
    let mut queue = JobQueue::new();
    let mut pending = vec![Job::Call(7)];
    let mut point = Checkpoint::new();
    assert_eq!(point.step(idle, &mut queue, &mut pending), Action::Run(Job::Call(7)));
    assert!(pending.is_empty());
    assert_eq!(point.step(Event::JobDone, &mut queue, &mut pending), Action::ResumeAwait);
    assert_eq!(point.step(idle, &mut queue, &mut pending), Action::Finish(1));
    // A deadline ends it all the same.
    pending.push(Job::Call(8));
    let late = Event::NothingToResume { deadline_exceeded: true, awaiting: false };
    assert_eq!(point.step(late, &mut queue, &mut pending), Action::Finish(1));
    assert_eq!(pending.len(), 1);
}

#[test]
fn unicode_escapes_have_four_digits() {
    let mut c = ctx();
    let good = t(&mut c, "\"\\u0041\"");
    let r = json_parse(&mut c, U, &[good]).unwrap();
    assert_eq!(show(&c, r), "A");
    for bad in ["\"\\u+041\"", "\"\\u-041\"", "\"\\ud83d\\u+c00\""] {
        let v = t(&mut c, bad);
        assert!(json_parse(&mut c, U, &[v]).is_err(), "{bad}");
    }
}

#[test]
fn number_literals_follow_the_grammar() {
    let mut c = ctx();
    for (good, n) in [("0", 0), ("10", 10), ("-3", -3), ("1e2", 100), ("2.50e1", 25)] {
        let v = t(&mut c, good);
        assert_eq!(json_parse(&mut c, U, &[v]).unwrap(), JsValue::Smi(n), "{good}");
    }
    for bad in ["01", "-01", "00", "1.", "-", "1e", "1e+", "1.e2", "[01]", ".5"] {
        let v = t(&mut c, bad);
        assert!(json_parse(&mut c, U, &[v]).is_err(), "{bad}");
    }
}

#[test]
fn symbols_and_big_integers_as_booleans() {
    let mut c = ctx();
    let s = JsValue::Symbol(c.heap.new_symbol());
    let zero = JsValue::BigInt(c.heap.new_bigint(BigInt { sign: false, magnitude_le: vec![0, 0] }));
    let one = JsValue::BigInt(c.heap.new_bigint(BigInt { sign: true, magnitude_le: vec![0, 1] }));
    for (v, b) in [(s, true), (zero, false), (one, true), (JsValue::Null, false), (U, false)] {
        assert_eq!(boolean_construct(&mut c, U, &[v]).unwrap(), JsValue::Bool(b));
    }
}

#[test]
fn assign_reads_accessors() {
    let mut c = ctx();
    let (o, g) = with_host_getter(&mut c);
    set(&mut c, o, "y", JsValue::Smi(2));
    let target = plain(&mut c);
    let args = [JsValue::Object(target), JsValue::Object(o)];
    assert!(matches!(
        object_assign(&mut c, U, &args),
        Err(Throw::HostGetter(a, b)) if (a, b) == (g, o)
    ));
    let outcome = Ok(JsValue::Smi(5));
    c.heap.set_answers(vec![Answer { getter: g, owner: o, outcome }]);
    assert_eq!(object_assign(&mut c, U, &args).unwrap(), args[0]);
    // The target has the value, not the getter.
    assert_eq!(get(&mut c, target, "x").unwrap(), JsValue::Smi(5));
    assert_eq!(get(&mut c, target, "y").unwrap(), JsValue::Smi(2));
    let outcome = Err(JsValue::Smi(6));
    c.heap.set_answers(vec![Answer { getter: g, owner: o, outcome }]);
    assert!(matches!(object_assign(&mut c, U, &args), Err(Throw::Value(JsValue::Smi(6)))));
}

#[test]
fn large_integers_in_a_radix_are_exact() {
    let mut c = ctx();
    for (n, radix, s) in [
        (2f64.powi(60), 3, "21200101122222021102111220121112212101"),
        (-(2f64.powi(70)), 7, "-6106454640561632563653142"),
        (1e21, 36, "5v1j4f4ds79m9s"),
        (2f64.powi(53), 16, "20000000000000"),
    ] {
        let v = JsValue::Double(n.to_bits());
        let r = number_proto_to_string(&mut c, v, &[JsValue::Smi(radix)]).unwrap();
        assert_eq!(show(&c, r), s);
    }
    let v = JsValue::Double(2f64.powi(1023).to_bits());
    let r = number_proto_to_string(&mut c, v, &[JsValue::Smi(2)]).unwrap();
    let digits = show(&c, r);
    assert!(digits.len() == 1024 && digits.trim_end_matches('0') == "1");
}

#[test]
fn imports_with_and_without_a_module() {
    let mut c = ctx();
    let n = c.heap.object_count();
    let v = module_namespace(&mut c);
    assert_eq!(v, JsValue::Object(n));
    assert_eq!(c.heap.object(n).kind, Kind::Ordinary);
    assert!(get(&mut c, n, "x").unwrap() == U);
    let JsValue::Object(p) = module_import(&mut c, U, &[]).unwrap() else {
        panic!("no object")
    };
    assert_eq!(c.heap.object(p).kind, Kind::Promise);
}

#[test]
fn built_ins_are_called_by_their_id() {
    let mut c = ctx();
    let args = [JsValue::Smi(-7)];
    assert!(fits(&c.heap, U, &args));
    let r = call_builtin(&mut c, NativeId::MathAbs, U, &args).unwrap();
    assert_eq!(r.unwrap(), JsValue::Smi(7));
    let text = t(&mut c, " a ");
    let r = call_builtin(&mut c, NativeId::StringTrim, text, &[]).unwrap().unwrap();
    assert_eq!(show(&c, r), "a");
    let r = call_builtin(&mut c, NativeId::ArrayOf, U, &args).unwrap().unwrap();
    let joined = call_builtin(&mut c, NativeId::ArrayJoin, r, &[]).unwrap().unwrap();
    assert_eq!(show(&c, joined), "-7");
    let r = call_builtin(&mut c, NativeId::MapConstruct, U, &[]).unwrap().unwrap();
    let size = call_builtin(&mut c, NativeId::MapSize, r, &[]).unwrap().unwrap();
    assert_eq!(size, JsValue::Smi(0));
    let r = call_builtin(&mut c, NativeId::BooleanConstruct, U, &args).unwrap().unwrap();
    assert_eq!(r, JsValue::Bool(true));
    let o = plain(&mut c);
    set(&mut c, o, "k", JsValue::Null);
    let r = call_builtin(&mut c, NativeId::ObjectKeys, U, &[JsValue::Object(o)]).unwrap().unwrap();
    let joined = call_builtin(&mut c, NativeId::ArrayJoin, r, &[]).unwrap().unwrap();
    assert_eq!(show(&c, joined), "k");
    let r = call_builtin(&mut c, NativeId::PromiseResolve, U, &args).unwrap();
    assert!(matches!(r, Ok(JsValue::Object(_))));
    // These need a clock, a matcher, a state or floating point.
    for id in [
        NativeId::DateConstruct,
        NativeId::RegExpExec,
        NativeId::MathRandom,
        NativeId::MathSin,
        NativeId::ModuleImport,
    ] {
        assert!(call_builtin(&mut c, id, U, &args).is_none());
    }
}

#[test]
fn uris_are_encoded_and_decoded() {
    let mut c = ctx();
    for s in ["a b%c", "ä€😀", ";/?:@&=+$,#", ""] {
        for keep in [false, true] {
            let e = encode(&mut c.heap, &utf16(s), keep, "encodeURI").unwrap();
            let text = utf16(&show(&c, e));
            let d = decode(&mut c.heap, &text, !keep, "decodeURI").unwrap();
            assert_eq!(show(&c, d), s);
        }
    }
}

#[test]
fn a_replacer_picks_any_property() {
    let mut c = ctx();
    let o = plain(&mut c);
    for i in 0..200 {
        set(&mut c, o, &format!("p{i}"), JsValue::Smi(i));
    }
    let names: Vec<JsValue> = ["p199", "p3", "q"].iter().map(|s| t(&mut c, s)).collect();
    let mut list = JsObject::plain(Kind::Array);
    list.elements = names;
    let list = JsValue::Object(c.heap.allocate(list));
    let r = json_stringify(&mut c, U, &[JsValue::Object(o), list]).unwrap();
    assert_eq!(show(&c, r), "{\"p199\":199,\"p3\":3}");
}

#[test]
fn indents_keep_surrogate_pairs() {
    let mut c = ctx();
    let mut list = JsObject::plain(Kind::Array);
    list.elements = vec![JsValue::Smi(1)];
    let list = JsValue::Object(c.heap.allocate(list));
    let space = t(&mut c, "😀");
    let r = json_stringify(&mut c, U, &[list, U, space]).unwrap();
    assert_eq!(show(&c, r), "[\n😀1\n]");
    // Ten units, of which the last would be half a pair.
    let space = t(&mut c, "123456789😀");
    let r = json_stringify(&mut c, U, &[list, U, space]).unwrap();
    assert_eq!(show(&c, r), "[\n123456789\u{fffd}1\n]");
}

#[test]
fn functions_hold_their_number() {
    let mut engine = Engine::new(Heap::new(), None);
    let JsValue::Object(f) = engine.create_function(3) else { panic!("no object") };
    let o = engine.ctx.heap.object(f);
    assert_eq!(o.elements, vec![JsValue::Smi(3)]);
    assert_eq!(o.callable, FunctionTarget::Bytecode(3));
}

#[test]
fn jobs_of_another_heap() {
    let mut c = ctx();
    let o = plain(&mut c);
    assert!(job_is_valid(&c.heap, Job::Call(o)));
    assert!(!job_is_valid(&c.heap, Job::Call(o + 1)));
    let mut job =
        Job::Reaction { handler: U, payload: JsValue::Text(0), derived: o, rejecting: false };
    assert!(!job_is_valid(&c.heap, job));
    t(&mut c, "a");
    assert!(job_is_valid(&c.heap, job));
    job = Job::Executor { executor: o, promise: o, resolve: U, reject: JsValue::Object(o + 1) };
    assert!(!job_is_valid(&c.heap, job));
}

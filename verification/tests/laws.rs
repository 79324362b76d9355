use v12_engine::array::{array_join, array_pop, array_push, array_reverse};
use v12_engine::ctx::Ctx;
use v12_engine::date_arith::{make_date, make_day, make_time, time_clip};
use v12_engine::double::from_i64;
use v12_engine::heap::{Heap, JsObject};
use v12_engine::job_queue::{Job, JobQueue, MAX_QUEUE_LEN};
use v12_engine::number::{global_parse_int, number_proto_to_string};
use v12_engine::properties::PropBody;
use v12_engine::string_regexp::{string_split, TextTask};
use v12_engine::value::{Attrs, JsValue, Kind, PropKey};

const U: JsValue = JsValue::Undefined;

fn ctx() -> Ctx {
    Ctx::new(Heap::new(), None, None)
}

fn text(c: &Ctx, v: JsValue) -> String {
    match v {
        JsValue::Text(n) => String::from_utf16_lossy(c.heap.text(n)),
        other => panic!("not a text: {:?}", other),
    }
}

fn elements(c: &Ctx, v: JsValue) -> Vec<JsValue> {
    match v {
        JsValue::Object(o) => c.heap.object(o).elements.clone(),
        other => panic!("no array: {:?}", other),
    }
}

#[test]
fn numbers_in_a_radix_read_back() {
    let mut c = ctx();
    for n in [0i32, 1, -1, 35, 36, 255, -123456789, i32::MAX] {
        for radix in 2..=36 {
            let r = JsValue::Smi(radix);
            let t = number_proto_to_string(&mut c, JsValue::Smi(n), &[r]).unwrap();
            let back = global_parse_int(&mut c, U, &[t, r]).unwrap();
            assert_eq!(back, JsValue::Smi(n), "{n} {radix}");
        }
    }
}

#[test]
fn pieces_and_separators_make_the_text() {
    let mut c = ctx();
    for (s, sep) in [("a,b,,c", ","), ("", ","), ("abc", ""), ("--x--", "--"), ("abc", "z")] {
        let t = JsValue::Text(c.heap.intern_text(s));
        let p = JsValue::Text(c.heap.intern_text(sep));
        let TextTask::Done(a) = string_split(&mut c.heap, t, &[p]).unwrap() else {
            panic!("wrong task")
        };
        let joined = array_join(&mut c, a, &[p]).unwrap();
        assert_eq!(text(&c, joined), s, "{s:?} {sep:?}");
    }
}

#[test]
fn what_is_pushed_is_popped() {
    let mut c = ctx();
    let a = c.array_value(vec![JsValue::Smi(1), JsValue::Null]);
    let before = elements(&c, a);
    array_push(&mut c, a, &[JsValue::Smi(7)]).unwrap();
    assert_eq!(array_pop(&mut c, a, &[]).unwrap(), JsValue::Smi(7));
    assert_eq!(elements(&c, a), before);
    array_reverse(&mut c, a, &[]).unwrap();
    assert_ne!(elements(&c, a), before);
    array_reverse(&mut c, a, &[]).unwrap();
    assert_eq!(elements(&c, a), before);
}

#[test]
fn constructors_are_linked_once() {
    let mut c = ctx();
    let ctor = c.heap.allocate(JsObject::plain(Kind::Function));
    let proto = c.heap.allocate(JsObject::plain(Kind::Ordinary));
    c.install_ctor_link(ctor, proto);
    c.install_ctor_link(ctor, proto);
    assert_eq!(c.heap.object(ctor).prototype, Some(proto));
    let k = PropKey::Text(c.heap.intern_text("prototype"));
    let p = c.heap.object(ctor).named.get(k).unwrap();
    assert_eq!(p.body, PropBody::Data(JsValue::Object(proto)));
    assert_eq!(p.attrs, Attrs::new(false, false, false));
    assert_eq!(c.heap.object(ctor).named.keys().len(), 1);
    let k = PropKey::Text(c.heap.intern_text("constructor"));
    let p = c.heap.object(proto).named.get(k).unwrap();
    assert_eq!(p.attrs, Attrs::new(true, false, true));
}

#[test]
fn days_and_times_make_dates() {
    let n = |x: i64| from_i64(x);
    let day = make_day(n(2000), n(1), n(29));
    assert_eq!(day, n(11016));
    let time = make_time(n(12), n(34), n(56), n(789));
    assert_eq!(time, n(45296789));
    assert_eq!(make_date(day, time), n(951827696789));
    assert_eq!(make_day(n(1999), n(13), n(29)), day);
    assert_eq!(time_clip(n(8_640_000_000_000_000)), n(8_640_000_000_000_000));
    assert!(f64::from_bits(time_clip(n(8_640_000_000_000_001))).is_nan());
}

#[test]
fn a_queue_takes_as_many_jobs_as_it_has_room_for() {
    let mut q = JobQueue::new();
    let mut pending: Vec<Job> = (0..MAX_QUEUE_LEN + 5).map(Job::Call).collect();
    q.accept(&mut pending);
    assert_eq!(q.len(), MAX_QUEUE_LEN);
    assert!(pending.is_empty());
    let mut more = vec![Job::Call(7)];
    assert_eq!(q.next_job(&mut more, 0), Some(Job::Call(0)));
    assert_eq!(q.len(), MAX_QUEUE_LEN);
    assert_eq!(q.next_job(&mut more, 2 * MAX_QUEUE_LEN + 1), None);
}

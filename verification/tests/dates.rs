use v12_engine::calendar::{day, days_from_epoch_to_year, div_floor, is_leap, week_day, year_from_time};
use v12_engine::ctx::Ctx;
use v12_engine::date::{
    date_construct, date_now, date_parse, date_proto_get_full_year, date_proto_get_month,
    date_proto_set_hours, date_proto_set_month, date_proto_to_iso_string, date_proto_to_json,
    date_proto_to_utc_string, date_proto_value_of, date_utc,
};
use v12_engine::date_fallback::parse_date;
use v12_engine::date_parse::{parse_fixed, parse_iso};
use v12_engine::heap::{Heap, JsObject};
use v12_engine::native::NativeId;
use v12_engine::text::utf16;
use v12_engine::value::{FunctionTarget, JsValue, Kind, Throw};

const U: JsValue = JsValue::Undefined;

fn ctx() -> (Ctx, JsValue) {
    let mut heap = Heap::new();
    let mut ctor = JsObject::plain(Kind::Function);
    ctor.callable = FunctionTarget::Native(NativeId::DateConstruct);
    let ctor = heap.allocate(ctor);
    (Ctx::new(heap, None, None), JsValue::Object(ctor))
}

fn as_f64(v: JsValue) -> f64 {
    match v {
        JsValue::Smi(n) => f64::from(n),
        JsValue::Double(b) => f64::from_bits(b),
        other => panic!("not a number: {:?}", other),
    }
}

fn text(c: &Ctx, v: JsValue) -> String {
    match v {
        JsValue::Text(n) => String::from_utf16_lossy(c.heap.text(n)),
        other => panic!("not a text: {:?}", other),
    }
}

fn date(c: &mut Ctx, ctor: JsValue, t: f64) -> JsValue {
    date_construct(c, ctor, &[JsValue::Double(t.to_bits())], 0).unwrap()
}

#[test]
fn calendar_facts() {
    assert!(is_leap(2000) && is_leap(2024) && !is_leap(1900) && !is_leap(2023));
    assert_eq!(div_floor(-7, 2), -4);
    assert_eq!(div_floor(i64::MIN, 2), i64::MIN / 2);
    assert_eq!(div_floor(i64::MIN, -2), -(i64::MIN / 2));
    assert_eq!(div_floor(i64::MIN, i64::MIN), 1);
    assert_eq!(div_floor(1, i64::MIN), -1);
    assert_eq!(div_floor(i64::MAX, -1), -i64::MAX);
    assert_eq!(div_floor(7, -2), -4);
    assert_eq!(days_from_epoch_to_year(1970), 0);
    assert_eq!(days_from_epoch_to_year(2000), 10957);
    assert_eq!(day(-1), -1);
    assert_eq!(week_day(0), 4);
    assert_eq!(year_from_time(8_640_000_000_000_000), 275760);
}

#[test]
fn iso_texts_read_back() {
    for (s, t) in [
        ("1970-01-01T00:00:00.000Z", 0i64),
        ("2000-02-29T12:34:56.789Z", 951827696789),
        ("+275760-09-13T00:00:00.000Z", 8_640_000_000_000_000),
        ("-000001-01-01T00:00:00.000Z", -62198755200000),
        ("2020", 1577836800000),
        ("2020-05", 1588291200000),
        ("2020-05-06T07:08+01:00", 1588745280000),
    ] {
        assert_eq!(parse_iso(&utf16(s)), Some(Some(t)), "{s}");
    }
    assert_eq!(parse_iso(&utf16("2020-13-01")), None);
    assert_eq!(parse_fixed(&utf16("x12"), 1, 2), Some(12));
    assert_eq!(parse_fixed(&utf16("x1"), 1, 2), None);
}

#[test]
fn written_dates_read_back_to_the_second() {
    let (mut c, ctor) = ctx();
    for t in [0.0, 951827696789.0, -62198755200000.0, 8.64e15, -8.64e15, 253402300800000.0] {
        let d = date(&mut c, ctor, t);
        let s = date_proto_to_utc_string(&mut c, d, &[]).unwrap();
        let back = f64::from_bits(parse_date(&utf16(&text(&c, s))));
        assert_eq!(back, t - (t.rem_euclid(1000.0)));
        let iso = date_proto_to_iso_string(&mut c, d, &[]).unwrap();
        assert_eq!(f64::from_bits(parse_date(&utf16(&text(&c, iso)))), t);
        let u = date_construct(&mut c, U, &[], t as i64).unwrap();
        let shown = text(&c, u);
        let back = f64::from_bits(parse_date(&utf16(&shown)));
        assert_eq!(back, t - (t.rem_euclid(1000.0)), "{shown}");
    }
    let d = date(&mut c, ctor, 951827696789.0);
    let s = date_proto_to_utc_string(&mut c, d, &[]).unwrap();
    assert_eq!(text(&c, s), "Tue, 29 Feb 2000 12:34:56 GMT");
    assert!(f64::from_bits(parse_date(&utf16("no date"))).is_nan());
}

#[test]
fn parts_of_dates() {
    let (mut c, ctor) = ctx();
    let d = date(&mut c, ctor, 951827696789.0);
    assert_eq!(as_f64(date_proto_get_full_year(&mut c, d, &[]).unwrap()), 2000.0);
    assert_eq!(as_f64(date_proto_get_month(&mut c, d, &[]).unwrap()), 1.0);
    let r = date_proto_set_month(&mut c, d, &[JsValue::Smi(12)]).unwrap();
    assert_eq!(as_f64(r), 980771696789.0);
    let r = date_proto_set_hours(&mut c, d, &[JsValue::Smi(0), JsValue::Smi(0), JsValue::Smi(0), JsValue::Smi(0)]).unwrap();
    assert_eq!(as_f64(r), 980726400000.0);
    assert_eq!(as_f64(date_proto_value_of(&mut c, d, &[]).unwrap()), 980726400000.0);
    let n = date(&mut c, ctor, f64::NAN);
    assert!(as_f64(date_proto_get_month(&mut c, n, &[]).unwrap()).is_nan());
    match date_proto_to_iso_string(&mut c, n, &[]) {
        Err(Throw::Error(s)) => assert!(s.starts_with("RangeError"), "{s}"),
        other => panic!("{:?}", other),
    }
    assert_eq!(date_proto_to_json(&mut c, n, &[]).unwrap(), JsValue::Null);
}

#[test]
fn utc_parse_and_now() {
    let (mut c, _) = ctx();
    let r = date_utc(&mut c, U, &[JsValue::Smi(99), JsValue::Smi(0)]).unwrap();
    assert_eq!(as_f64(r), 915148800000.0);
    let s = JsValue::Text(c.heap.intern_text("1999-01-01"));
    assert_eq!(as_f64(date_parse(&mut c, U, &[s]).unwrap()), 915148800000.0);
    assert_eq!(as_f64(date_now(&mut c, U, &[], 1234567890123).unwrap()), 1234567890123.0);
}

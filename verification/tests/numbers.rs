use v12_engine::bignat::BigNat;
use v12_engine::ctx::Ctx;
use v12_engine::decimal::{parse_double, shortest};
use v12_engine::double::{
    fadd, fceil, fdiv, ffloor, fmul, fneg, from_i64, fsub, ftrunc, round_to_double, to_i64,
};
use v12_engine::heap::Heap;
use v12_engine::math::{
    math_abs, math_ceil, math_clz32, math_const_e, math_const_ln10, math_const_ln2,
    math_const_log10e, math_const_log2e, math_const_pi, math_const_sqrt1_2, math_const_sqrt2,
    math_floor, math_fround, math_hypot, math_imul, math_max, math_min, math_random, math_round,
    round_half_up,
    math_sign, math_sqrt, math_trunc,
};
use v12_engine::number::{
    global_is_finite, global_is_nan, global_parse_float, global_parse_int, number_const_epsilon,
    number_const_max_safe_integer, number_const_max_value, number_const_min_safe_integer,
    number_const_min_value, number_const_nan, number_const_negative_infinity,
    number_const_positive_infinity, number_construct, number_is_integer, number_is_safe_integer,
    number_proto_to_string, number_to_exponential, number_to_fixed, number_to_precision,
};
use v12_engine::text::{number_text, utf16};
use v12_engine::value::{JsValue, Throw};

type Builtin = fn(&mut Ctx, JsValue, &[JsValue]) -> Result<JsValue, Throw>;

fn ctx() -> Ctx {
    Ctx::new(Heap::new(), None, None)
}

fn num(n: f64) -> JsValue {
    JsValue::Double(n.to_bits())
}

fn as_f64(v: JsValue) -> f64 {
    match v {
        JsValue::Smi(n) => f64::from(n),
        JsValue::Double(b) => f64::from_bits(b),
        other => panic!("not a number: {:?}", other),
    }
}

fn text(ctx: &Ctx, v: JsValue) -> String {
    match v {
        JsValue::Text(n) => String::from_utf16_lossy(ctx.heap.text(n)),
        other => panic!("not a text: {:?}", other),
    }
}

fn error_text(r: Result<JsValue, Throw>) -> String {
    match r {
        Err(Throw::Error(s)) => s,
        other => panic!("no error: {:?}", other),
    }
}

fn samples() -> Vec<f64> {
    vec![
        0.0,
        -0.0,
        1.0,
        -1.0,
        0.1,
        0.2,
        0.3,
        1.5,
        2.5,
        -2.5,
        123.456,
        1e21,
        1e-7,
        1e300,
        1e-300,
        5e-324,
        2.2250738585072014e-308,
        1.7976931348623157e308,
        9007199254740991.0,
        9007199254740993.0,
        4.35,
        0.000001,
        123456789.123,
        3.141592653589793,
        f64::INFINITY,
        f64::NEG_INFINITY,
        f64::NAN,
    ]
}

#[test]
fn arithmetic_agrees_with_the_machine() {
    for a in samples() {
        for b in samples() {
            let (x, y) = (a.to_bits(), b.to_bits());
            for (ours, theirs) in [
                (fadd(x, y), a + b),
                (fsub(x, y), a - b),
                (fmul(x, y), a * b),
                (fdiv(x, y), a / b),
            ] {
                if theirs.is_nan() {
                    assert!(f64::from_bits(ours).is_nan(), "{a} {b}");
                } else {
                    assert_eq!(ours, theirs.to_bits(), "{a} {b}");
                }
            }
        }
    }
}

#[test]
fn rounding_agrees_with_the_machine() {
    for a in samples() {
        if a.is_nan() {
            continue;
        }
        let x = a.to_bits();
        assert_eq!(ffloor(x), a.floor().to_bits(), "{a}");
        assert_eq!(fceil(x), a.ceil().to_bits(), "{a}");
        assert_eq!(ftrunc(x), a.trunc().to_bits(), "{a}");
        assert_eq!(fneg(x), (-a).to_bits(), "{a}");
        assert_eq!(to_i64(x), a as i64, "{a}");
    }
    for n in [0i64, 1, -1, 1 << 53, (1 << 53) + 1, i64::MAX, i64::MIN] {
        assert_eq!(from_i64(n), (n as f64).to_bits());
    }
}

#[test]
fn ratios_round_to_the_nearest_double() {
    let third = round_to_double(&BigNat::from_u64(1), &BigNat::from_u64(3));
    assert_eq!(third, (1.0f64 / 3.0).to_bits());
}

#[test]
fn decimal_texts_are_read_as_the_machine_reads_them() {
    for s in [
        "0", "1", "-1", "0.1", "1e21", "1e-7", "123.456", "5e-324", "2.4e-324", "1e400", ".5", "5.",
        "9007199254740993", "1.7976931348623159e308", "+3", "0.30000000000000004", "4e0",
        "100000000000000000000000",
    ] {
        let theirs: f64 = s.parse().unwrap();
        assert_eq!(parse_double(&utf16(s)), Some(theirs.to_bits()), "{s}");
    }
    for s in ["", "abc", "1x", "e5", ".", "--1", "1e", "0x10"] {
        assert_eq!(parse_double(&utf16(s)), None, "{s}");
    }
    assert_eq!(parse_double(&utf16("inf")), Some(f64::INFINITY.to_bits()));
}

#[test]
fn shortest_digits_read_back() {
    for a in samples() {
        if !a.is_finite() || a == 0.0 {
            continue;
        }
        let (s, e) = shortest(a.to_bits());
        let back: f64 = format!("{}e{}", s, e).parse().unwrap();
        assert_eq!(back, a.abs());
        let shown = String::from_utf16_lossy(&number_text(a.to_bits()));
        assert_eq!(shown, format!("{a}"));
    }
}

#[test]
fn numbers_are_written_as_scripts_see_them() {
    let mut c = ctx();
    for (n, s) in [
        (0.0, "0"),
        (-0.0, "0"),
        (1.5, "1.5"),
        (1e21, "1e+21"),
        (123456789012345680000.0, "123456789012345680000"),
        (1e-7, "1e-7"),
        (0.000001, "0.000001"),
        (5e-324, "5e-324"),
        (1.7976931348623157e308, "1.7976931348623157e+308"),
        (-1.25, "-1.25"),
        (f64::NAN, "NaN"),
        (f64::INFINITY, "Infinity"),
        (f64::NEG_INFINITY, "-Infinity"),
    ] {
        let v = number_proto_to_string(&mut c, num(n), &[]).unwrap();
        assert_eq!(text(&c, v), s);
    }
}

#[test]
fn numbers_are_written_in_a_radix() {
    let mut c = ctx();
    for (n, radix, s) in [
        (255.0, 16, "ff"),
        (-255.0, 2, "-11111111"),
        (0.5, 2, "0.1"),
        (35.0, 36, "z"),
        (0.75, 4, "0.3"),
    ] {
        let v = number_proto_to_string(&mut c, num(n), &[JsValue::Smi(radix)]).unwrap();
        assert_eq!(text(&c, v), s);
    }
    assert_eq!(
        error_text(number_proto_to_string(&mut c, num(1.0), &[JsValue::Smi(1)])),
        "RangeError: toString() radix must be between 2 and 36"
    );
}

#[test]
fn fixed_precision_and_exponential_texts() {
    let mut c = ctx();
    for (n, d, s) in [(1.005, 2, "1.00"), (2.5, 0, "2"), (123.456, 1, "123.5"), (0.0, 3, "0.000")] {
        let v = number_to_fixed(&mut c, num(n), &[JsValue::Smi(d)]).unwrap();
        assert_eq!(text(&c, v), s, "{n} {d}");
    }
    for (n, p, s) in [(123.456, 4, "123.5"), (0.000123, 2, "0.00012"), (1e21, 3, "1.00e+21")] {
        let v = number_to_precision(&mut c, num(n), &[JsValue::Smi(p)]).unwrap();
        assert_eq!(text(&c, v), s, "{n} {p}");
    }
    for (n, d, s) in [(123456.0, 2, "1.23e+5"), (0.00015, 1, "1.5e-4")] {
        let v = number_to_exponential(&mut c, num(n), &[JsValue::Smi(d)]).unwrap();
        assert_eq!(text(&c, v), s, "{n} {d}");
    }
    assert!(error_text(number_to_fixed(&mut c, num(1.0), &[JsValue::Smi(101)]))
        .starts_with("RangeError"));
    assert!(error_text(number_to_precision(&mut c, num(1.0), &[JsValue::Smi(0)]))
        .starts_with("RangeError"));
}

#[test]
fn parse_int_and_parse_float() {
    let mut c = ctx();
    let cases: Vec<(&str, Option<i32>, f64)> = vec![
        ("42px", None, 42.0),
        ("  -17", None, -17.0),
        ("0x1F", None, 31.0),
        ("101", Some(2), 5.0),
        ("z", Some(36), 35.0),
        ("", None, f64::NAN),
        ("9", Some(8), f64::NAN),
    ];
    for (s, radix, expected) in cases {
        let t = JsValue::Text(c.heap.intern_text(s));
        let args = match radix {
            Some(r) => vec![t, JsValue::Smi(r)],
            None => vec![t],
        };
        let got = as_f64(global_parse_int(&mut c, JsValue::Undefined, &args).unwrap());
        assert!(got == expected || (got.is_nan() && expected.is_nan()), "{s}: {got}");
    }
    for (s, expected) in [("3.14abc", 3.14), (".5", 0.5), ("-1e3x", -1000.0)] {
        let t = JsValue::Text(c.heap.intern_text(s));
        let got = as_f64(global_parse_float(&mut c, JsValue::Undefined, &[t]).unwrap());
        assert_eq!(got, expected, "{s}");
    }
}

#[test]
fn number_predicates() {
    let mut c = ctx();
    let yes = Ok(JsValue::Bool(true));
    let no = Ok(JsValue::Bool(false));
    let same = |a: Result<JsValue, Throw>, b: &Result<JsValue, Throw>| match (a, b) {
        (Ok(x), Ok(y)) => x == *y,
        _ => false,
    };
    assert!(same(number_is_integer(&mut c, JsValue::Undefined, &[num(5.0)]), &yes));
    assert!(same(number_is_integer(&mut c, JsValue::Undefined, &[num(5.5)]), &no));
    assert!(same(
        number_is_safe_integer(&mut c, JsValue::Undefined, &[num(9007199254740992.0)]),
        &no
    ));
    assert!(same(global_is_nan(&mut c, JsValue::Undefined, &[JsValue::Undefined]), &yes));
    assert!(same(global_is_finite(&mut c, JsValue::Undefined, &[num(f64::INFINITY)]), &no));
    let t = JsValue::Text(c.heap.intern_text(" 12 "));
    assert_eq!(number_construct(&mut c, JsValue::Undefined, &[t]).unwrap(), JsValue::Smi(12));
}

#[test]
fn constants_are_those_of_the_machine() {
    let mut c = ctx();
    let cases: Vec<(Builtin, f64)> = vec![
        (math_const_e, std::f64::consts::E),
        (math_const_ln2, std::f64::consts::LN_2),
        (math_const_ln10, std::f64::consts::LN_10),
        (math_const_log2e, std::f64::consts::LOG2_E),
        (math_const_log10e, std::f64::consts::LOG10_E),
        (math_const_pi, std::f64::consts::PI),
        (math_const_sqrt1_2, std::f64::consts::FRAC_1_SQRT_2),
        (math_const_sqrt2, std::f64::consts::SQRT_2),
        (number_const_epsilon, f64::EPSILON),
        (number_const_max_value, f64::MAX),
        (number_const_min_value, 5e-324),
        (number_const_max_safe_integer, 9007199254740991.0),
        (number_const_min_safe_integer, -9007199254740991.0),
        (number_const_positive_infinity, f64::INFINITY),
        (number_const_negative_infinity, f64::NEG_INFINITY),
    ];
    for (f, expected) in cases {
        assert_eq!(as_f64(f(&mut c, JsValue::Undefined, &[]).unwrap()), expected);
    }
    assert!(as_f64(number_const_nan(&mut c, JsValue::Undefined, &[]).unwrap()).is_nan());
}

#[test]
fn math_functions_agree_with_the_machine() {
    let mut c = ctx();
    let cases: Vec<(Builtin, fn(f64) -> f64)> = vec![
        (math_abs, f64::abs),
        (math_floor, f64::floor),
        (math_ceil, f64::ceil),
        (math_trunc, f64::trunc),
        (math_sqrt, f64::sqrt),
        (math_fround, |x| f64::from(x as f32)),
    ];
    for (f, g) in cases {
        for a in samples() {
            let got = as_f64(f(&mut c, JsValue::Undefined, &[num(a)]).unwrap());
            let want = g(a);
            assert!(got == want || (got.is_nan() && want.is_nan()), "{a}: {got} {want}");
        }
    }
}

#[test]
fn math_functions_of_integers() {
    let mut c = ctx();
    let u = JsValue::Undefined;
    assert_eq!(as_f64(math_round(&mut c, u, &[num(2.5)]).unwrap()), 3.0);
    assert_eq!(as_f64(math_round(&mut c, u, &[num(-2.5)]).unwrap()), -2.0);
    for x in [-0.5, -0.25, -5e-324, -0.0] {
        let r = math_round(&mut c, u, &[JsValue::Double(f64::to_bits(x))]).unwrap();
        assert_eq!(r, JsValue::Double((-0.0f64).to_bits()), "{x}");
    }
    assert_eq!(as_f64(math_round(&mut c, u, &[num(0.5)]).unwrap()), 1.0);
    assert_eq!(as_f64(math_round(&mut c, u, &[num(-0.75)]).unwrap()), -1.0);
    assert_eq!(round_half_up((-0.5f64).to_bits()), (-0.0f64).to_bits());
    assert_eq!(as_f64(math_imul(&mut c, u, &[num(4294967295.0), num(5.0)]).unwrap()), -5.0);
    assert_eq!(as_f64(math_imul(&mut c, u, &[num(2147483648.0), num(1.0)]).unwrap()), -2147483648.0);
    assert_eq!(as_f64(math_clz32(&mut c, u, &[num(1.0)]).unwrap()), 31.0);
    assert_eq!(as_f64(math_clz32(&mut c, u, &[num(0.0)]).unwrap()), 32.0);
    assert_eq!(as_f64(math_clz32(&mut c, u, &[num(-1.0)]).unwrap()), 0.0);
    assert_eq!(as_f64(math_imul(&mut c, u, &[num(2147483647.0), num(5.0)]).unwrap()), 2147483643.0);
    assert_eq!(as_f64(math_imul(&mut c, u, &[num(-1.0), num(5.0)]).unwrap()), -5.0);
    assert_eq!(as_f64(math_sign(&mut c, u, &[num(-3.5)]).unwrap()), -1.0);
    assert_eq!(as_f64(math_max(&mut c, u, &[num(1.0), num(3.0), num(2.0)]).unwrap()), 3.0);
    assert_eq!(as_f64(math_min(&mut c, u, &[num(1.0), num(-3.0)]).unwrap()), -3.0);
    assert_eq!(as_f64(math_max(&mut c, u, &[]).unwrap()), f64::NEG_INFINITY);
    assert!(as_f64(math_max(&mut c, u, &[num(1.0), num(f64::NAN)]).unwrap()).is_nan());
    assert_eq!(as_f64(math_hypot(&mut c, u, &[num(3.0), num(4.0)]).unwrap()), 5.0);
}

#[test]
fn random_numbers_lie_between_zero_and_one() {
    let mut state: u64 = 88172645463325252;
    let mut last = -1.0;
    for _ in 0..1000 {
        let (v, next) = math_random(state);
        let x = as_f64(v);
        assert!(x >= 0.0 && x < 1.0);
        assert!(x != last);
        last = x;
        state = next;
    }
}

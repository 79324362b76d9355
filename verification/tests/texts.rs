use v12_engine::global::{
    global_decode_uri, global_decode_uri_component, global_encode_uri,
    global_encode_uri_component, is_unreserved, is_uri_reserved,
};
use v12_engine::heap::Heap;
use v12_engine::regexp::{
    canonicalize_flags, exec_begin, exec_end, last_index, regexp_construct, regexp_source_flags,
    regexp_test, regexp_to_string, ExecPlan, RegexMatch,
};
use v12_engine::string::{
    clamp_index, expand_replacement, is_js_whitespace, string_at, string_char_at,
    string_char_code_at, string_code_point_at, string_concat, string_ends_with,
    string_from_char_code, string_from_code_point, string_includes, string_index_of,
    string_last_index_of, string_locale_compare, string_pad_end, string_pad_start, string_repeat,
    string_replace_all, string_slice, string_starts_with, string_substr, string_substring,
    string_to_lower_case, string_to_upper_case, string_trim, utf16_byte_offset, utf16_find,
};
use v12_engine::string_regexp::{
    finish_match, finish_replace, finish_search, finish_split, follows, note_match, split_limit,
    string_match, string_replace, string_search, string_split, Matches, TextTask,
};
use v12_engine::text::{text_index, to_well_formed, utf16};
use v12_engine::utf8::{decode_utf8, encode_utf8};
use v12_engine::value::{JsValue, Throw};

type HeapBuiltin = fn(&mut Heap, JsValue, &[JsValue]) -> Result<JsValue, Throw>;

fn t(h: &mut Heap, s: &str) -> JsValue {
    JsValue::Text(h.intern_text(s))
}

fn show(h: &Heap, v: JsValue) -> String {
    match v {
        JsValue::Text(n) => String::from_utf16_lossy(h.text(n)),
        JsValue::Smi(n) => format!("{n}"),
        JsValue::Bool(b) => format!("{b}"),
        JsValue::Null => "null".to_string(),
        JsValue::Undefined => "undefined".to_string(),
        other => format!("{:?}", other),
    }
}

fn call(h: &mut Heap, f: HeapBuiltin, this: &str, args: &[JsValue]) -> String {
    let this = t(h, this);
    let r = f(h, this, args).unwrap();
    show(h, r)
}

fn failure(r: Result<JsValue, Throw>) -> String {
    match r {
        Err(Throw::Error(s)) => s,
        other => panic!("no error: {:?}", other),
    }
}

fn elements(h: &Heap, v: JsValue) -> Vec<String> {
    match v {
        JsValue::Object(o) => h.object(o).elements.iter().map(|&e| show(h, e)).collect(),
        other => panic!("no array: {:?}", other),
    }
}

#[test]
fn positions_in_texts() {
    let h = &mut Heap::new();
    let s = |n: i32| JsValue::Smi(n);
    assert_eq!(call(h, string_char_at, "abc", &[s(1)]), "b");
    assert_eq!(call(h, string_char_at, "abc", &[s(9)]), "");
    assert_eq!(call(h, string_char_code_at, "A", &[s(0)]), "65");
    assert_eq!(call(h, string_code_point_at, "\u{1F600}", &[s(0)]), "128512");
    assert_eq!(call(h, string_at, "abc", &[s(-1)]), "c");
    assert_eq!(call(h, string_at, "abc", &[s(5)]), "undefined");
    assert_eq!(call(h, string_slice, "hello", &[s(1), s(-1)]), "ell");
    assert_eq!(call(h, string_substring, "hello", &[s(3), s(1)]), "el");
    assert_eq!(call(h, string_substr, "hello", &[s(-3), s(2)]), "ll");
    let (b, z) = (t(h, "b"), t(h, "z"));
    assert_eq!(call(h, string_index_of, "abcb", &[b]), "1");
    assert_eq!(call(h, string_last_index_of, "abcb", &[b]), "3");
    assert_eq!(call(h, string_index_of, "abcb", &[z]), "-1");
    assert_eq!(call(h, string_includes, "abcb", &[b]), "true");
    assert_eq!(call(h, string_starts_with, "abcb", &[b]), "false");
    assert_eq!(call(h, string_ends_with, "abcb", &[b]), "true");
    assert_eq!(clamp_index(-2, 5), 3);
    assert_eq!(clamp_index(-9, 5), 0);
    assert_eq!(clamp_index(9, 5), 5);
    assert_eq!(utf16_find(&utf16("abcabc"), &utf16("ca"), 0), Some(2));
    assert_eq!(utf16_find(&utf16("abc"), &utf16("x"), 0), None);
    assert_eq!(utf16_byte_offset("a\u{e9}b", 2), 3);
}

#[test]
fn making_texts() {
    let h = &mut Heap::new();
    let s = |n: i32| JsValue::Smi(n);
    let (a, b) = (t(h, "-"), t(h, "ab"));
    assert_eq!(call(h, string_repeat, "ab", &[s(3)]), "ababab");
    assert_eq!(call(h, string_pad_start, "5", &[s(3), a]), "--5");
    assert_eq!(call(h, string_pad_end, "5", &[s(6), b]), "5ababa");
    assert_eq!(call(h, string_concat, "x", &[a, b]), "x-ab");
    assert_eq!(call(h, string_trim, " \t\u{feff}x \n", &[]), "x");
    let r = string_from_char_code(h, JsValue::Undefined, &[s(72), s(105)]).unwrap();
    assert_eq!(show(h, r), "Hi");
    let r = string_from_code_point(h, JsValue::Undefined, &[s(0x1F600)]).unwrap();
    assert_eq!(show(h, r), "\u{1F600}");
    let this = t(h, "x");
    assert!(failure(string_repeat(h, this, &[s(-1)])).starts_with("RangeError"));
    assert!(is_js_whitespace(0xfeff) && !is_js_whitespace(0x61));
    let r = call(h, string_replace_all, "a-a-a", &[a, b]);
    assert_eq!(r, "aabaaba");
}

#[test]
fn letter_case() {
    let h = &mut Heap::new();
    assert_eq!(call(h, string_to_upper_case, "stra\u{df}e", &[]), "STRASSE");
    assert_eq!(call(h, string_to_lower_case, "\u{c4}BC", &[]), "\u{e4}bc");
}

#[test]
fn texts_are_ordered() {
    let h = &mut Heap::new();
    let b = t(h, "b");
    assert_eq!(call(h, string_locale_compare, "a", &[b]), "-1");
    assert_eq!(call(h, string_locale_compare, "b", &[b]), "0");
    assert_eq!(call(h, string_locale_compare, "c", &[b]), "1");
}

#[test]
fn methods_need_a_text() {
    let h = &mut Heap::new();
    assert!(failure(string_trim(h, JsValue::Null, &[])).starts_with("TypeError"));
}

#[test]
fn replacement_templates() {
    let r = expand_replacement(
        &utf16("<$&|$1|$$|$2>"),
        &utf16("ab"),
        &vec![utf16("a"), utf16("b")],
    );
    assert_eq!(String::from_utf16_lossy(&r), "<ab|a|$|b>");
}

#[test]
fn utf8_reads_back() {
    for s in ["", "abc", "\u{e9}\u{4e2d}\u{1F600}"] {
        let units = utf16(s);
        let bytes = encode_utf8(&units);
        assert_eq!(bytes, s.as_bytes());
        assert_eq!(decode_utf8(&bytes), Some(units));
    }
    assert_eq!(decode_utf8(&[0xff]), None);
    assert_eq!(decode_utf8(&[0xc0, 0x80]), None);
    assert_eq!(to_well_formed(&[0xd800]), vec![0xfffd]);
}

#[test]
fn uri_texts() {
    let h = &mut Heap::new();
    let u = JsValue::Undefined;
    for (plain, component, whole) in [
        ("a b&c", "a%20b%26c", "a%20b&c"),
        ("\u{e9}/\u{1F600}", "%C3%A9%2F%F0%9F%98%80", "%C3%A9/%F0%9F%98%80"),
    ] {
        let v = t(h, plain);
        let r = global_encode_uri_component(h, u, &[v]).unwrap();
        assert_eq!(show(h, r), component);
        let back = global_decode_uri_component(h, u, &[r]).unwrap();
        assert_eq!(show(h, back), plain);
        let r = global_encode_uri(h, u, &[v]).unwrap();
        assert_eq!(show(h, r), whole);
    }
    let v = t(h, "%20%41");
    let r = global_decode_uri(h, u, &[v]).unwrap();
    assert_eq!(show(h, r), " A");
    let v = t(h, "%2F");
    assert_eq!(
        failure(global_decode_uri(h, u, &[v])),
        "URIError: decodeURI reserved character"
    );
    let v = t(h, "%zz");
    assert!(failure(global_decode_uri(h, u, &[v])).starts_with("URIError"));
    assert!(is_unreserved(b'~') && !is_unreserved(b'/'));
    assert!(is_uri_reserved(b';') && !is_uri_reserved(b'%'));
}

#[test]
fn index_texts() {
    assert_eq!(text_index(&utf16("0")), Some(0));
    assert_eq!(text_index(&utf16("4294967294")), Some(4294967294));
    assert_eq!(text_index(&utf16("01")), None);
    assert_eq!(text_index(&utf16("4294967296")), None);
}

#[test]
fn flags_are_put_in_order() {
    assert_eq!(canonicalize_flags("yig"), Ok("giy".to_string()));
    assert_eq!(canonicalize_flags(""), Ok("".to_string()));
    assert!(canonicalize_flags("gg").is_err());
    let bad = canonicalize_flags("g\u{7}").unwrap_err();
    assert!(bad.contains("'\\u{7}'"), "{bad}");
}

#[test]
fn regexp_constructor_and_source_flags() {
    let h = &mut Heap::new();
    let u = JsValue::Undefined;
    let (p, f) = (t(h, "a+b"), t(h, "gi"));
    let re = regexp_construct(h, u, &[p, f]).unwrap();
    let JsValue::Object(o) = re else { panic!("no object") };
    let (source, flags) = regexp_source_flags(h, o);
    assert_eq!(
        format!("{}|{}", String::from_utf16_lossy(&source), String::from_utf16_lossy(&flags)),
        "a+b|gi"
    );
    // A regular expression is copied with its flags.
    let (p, f) = (t(h, "x"), t(h, "y"));
    let re = regexp_construct(h, u, &[p, f]).unwrap();
    let re2 = regexp_construct(h, u, &[re]).unwrap();
    let JsValue::Object(o) = re2 else { panic!("no object") };
    let (source, flags) = regexp_source_flags(h, o);
    assert_eq!(
        format!("{}|{}", String::from_utf16_lossy(&source), String::from_utf16_lossy(&flags)),
        "x|y"
    );
    let (p, f) = (t(h, "ab+"), t(h, "gi"));
    let re = regexp_construct(h, u, &[p, f]).unwrap();
    let s = regexp_to_string(h, re, &[]).unwrap();
    assert_eq!(show(h, s), "/ab+/gi");
}

fn make_regexp(h: &mut Heap, source: &str, flags: &str) -> (JsValue, usize) {
    let (p, f) = (t(h, source), t(h, flags));
    let re = regexp_construct(h, JsValue::Undefined, &[p, f]).unwrap();
    match re {
        JsValue::Object(o) => (re, o),
        _ => panic!("no object"),
    }
}

fn span(start: usize, end: usize, groups: Vec<Option<(usize, usize)>>) -> RegexMatch {
    RegexMatch { start, end, groups }
}

/// Finds a single unit, as an engine for one-unit patterns would.
fn find_unit(input: &[u16], from: usize, wanted: fn(u16) -> bool) -> Option<RegexMatch> {
    (from..input.len()).find(|&i| wanted(input[i])).map(|i| span(i, i + 1, vec![]))
}

#[test]
fn regexp_literal_test_and_exec() {
    let h = &mut Heap::new();
    let (_, re) = make_regexp(h, "(a)(b)", "");
    let input = utf16("zab");
    let m = span(1, 3, vec![Some((1, 2)), Some((2, 3))]);
    let found = exec_end(h, re, &input, 0, Some(m));
    assert_eq!(regexp_test(found), JsValue::Bool(true));
    assert_eq!(elements(h, found), vec!["ab", "a", "b"]);
    let JsValue::Object(o) = found else { panic!("no array") };
    let index = v12_engine::value::PropKey::Text(h.intern_text("index"));
    let p = h.object(o).named.get(index).unwrap();
    assert_eq!(p.body, v12_engine::properties::PropBody::Data(JsValue::Smi(1)));
    let input_key = v12_engine::value::PropKey::Text(h.intern_text("input"));
    let p = h.object(o).named.get(input_key).unwrap();
    let zab = h.intern_text("zab");
    assert_eq!(p.body, v12_engine::properties::PropBody::Data(JsValue::Text(zab)));
    let none = exec_end(h, re, &utf16("xac"), 0, None);
    assert_eq!(none, JsValue::Null);
    assert_eq!(regexp_test(none), JsValue::Bool(false));
}

#[test]
fn regexp_last_index_global() {
    let h = &mut Heap::new();
    let (_, re) = make_regexp(h, "a", "g");
    let input = utf16("a a a");
    let mut n = 0;
    loop {
        let from = match exec_begin(h, re, input.len()) {
            ExecPlan::NoMatch => break,
            ExecPlan::Search(i) => i,
        };
        let found = find_unit(&input, from, |c| c == 0x61);
        if exec_end(h, re, &input, from, found) == JsValue::Null {
            break;
        }
        n += 1;
    }
    assert_eq!(n, 3);
    assert_eq!(last_index(h, re), 0f64.to_bits());
}

fn collect(h: &mut Heap, re: usize, s: &[u16], global: bool, wanted: fn(u16) -> bool) -> Matches {
    let mut acc = Matches::new();
    let mut from = 0;
    while let Some(m) = find_unit(s, from, wanted) {
        from = m.end;
        assert!(follows(&acc, s, &m));
        if !note_match(h, re, s, &mut acc, &m, global) {
            break;
        }
    }
    acc
}

#[test]
fn string_match_global_and_single() {
    let h = &mut Heap::new();
    let (re, o) = make_regexp(h, "\\d", "g");
    let this = t(h, "a1b2c3");
    let TextTask::Collect(r, s, global) = string_match(h, this, &[re]).unwrap() else {
        panic!("wrong task")
    };
    assert_eq!(r, o);
    let acc = collect(h, o, &s, global, |c| (0x30..0x3a).contains(&c));
    let found = finish_match(h, &s, &acc.spans);
    assert_eq!(elements(h, found), vec!["1", "2", "3"]);
    let (re, o) = make_regexp(h, "(\\d+)", "");
    let this = t(h, "abc123");
    let TextTask::Exec(r, s) = string_match(h, this, &[re]).unwrap() else { panic!("wrong task") };
    assert_eq!(r, o);
    let found = exec_end(h, o, &s, 0, Some(span(3, 6, vec![Some((3, 6))])));
    assert_eq!(elements(h, found), vec!["123", "123"]);
    let acc = Matches::new();
    assert_eq!(finish_match(h, &utf16("abc"), &acc.spans), JsValue::Null);
}

#[test]
fn string_replace_with_groups() {
    let h = &mut Heap::new();
    let (re, o) = make_regexp(h, "\\d", "g");
    let (this, x) = (t(h, "a1b2"), t(h, "x"));
    let TextTask::Collect(_, s, global) = string_replace(h, this, &[re, x]).unwrap() else {
        panic!("wrong task")
    };
    let acc = collect(h, o, &s, global, |c| (0x30..0x3a).contains(&c));
    let r = finish_replace(h, this, &s, &acc.spans, &utf16("x")).unwrap();
    assert_eq!(show(h, r), "axbx");
    let (_, o) = make_regexp(h, "(\\w+) (\\w+)", "");
    let s = utf16("hello world");
    let this = t(h, "hello world");
    let mut acc = Matches::new();
    let m = span(0, 11, vec![Some((0, 5)), Some((6, 11))]);
    assert!(follows(&acc, &s, &m));
    note_match(h, o, &s, &mut acc, &m, false);
    let r = finish_replace(h, this, &s, &acc.spans, &utf16("$2 $1")).unwrap();
    assert_eq!(show(h, r), "world hello");
    let (_, o) = make_regexp(h, "b", "");
    let s = utf16("abc");
    let this = t(h, "abc");
    let acc = collect(h, o, &s, false, |c| c == 0x62);
    let r = finish_replace(h, this, &s, &acc.spans, &utf16("<$&>")).unwrap();
    assert_eq!(show(h, r), "a<b>c");
}

#[test]
fn string_search_and_split() {
    let h = &mut Heap::new();
    let (re, _) = make_regexp(h, "\\d", "");
    let this = t(h, "abc123");
    assert!(matches!(string_search(h, this, &[re]), Ok(TextTask::Exec(_, _))));
    let at = find_unit(&utf16("abc123"), 0, |c| (0x30..0x3a).contains(&c)).map(|m| m.start);
    assert_eq!(finish_search(at), JsValue::Smi(3));
    assert_eq!(finish_search(None), JsValue::Smi(-1));
    let (re, o) = make_regexp(h, ",", "");
    let this = t(h, "a,b,c");
    let TextTask::Collect(_, s, global) = string_split(h, this, &[re]).unwrap() else {
        panic!("wrong task")
    };
    let acc = collect(h, o, &s, global, |c| c == 0x2c);
    let p = finish_split(h, &s, &acc.spans, split_limit(&[re]));
    assert_eq!(elements(h, p), vec!["a", "b", "c"]);
    let (this, sep) = (t(h, "1-2-3"), t(h, "-"));
    let TextTask::Done(p) = string_split(h, this, &[sep]).unwrap() else { panic!("wrong task") };
    assert_eq!(elements(h, p).concat(), "123");
}

#[test]
fn string_replace_string_separator() {
    let h = &mut Heap::new();
    let (this, a, b) = (t(h, "aaa"), t(h, "a"), t(h, "b"));
    let TextTask::Done(r) = string_replace(h, this, &[a, b]).unwrap() else {
        panic!("wrong task")
    };
    assert_eq!(show(h, r), "baa");
    // Nothing is found at the start, and the replacement is expanded there too.
    for (with, want) in [("$$", "$abc"), ("<$&>", "<>abc"), ("x$1", "xabc")] {
        let (this, none, with) = (t(h, "abc"), t(h, ""), t(h, with));
        let TextTask::Done(r) = string_replace(h, this, &[none, with]).unwrap() else {
            panic!("wrong task")
        };
        assert_eq!(show(h, r), want);
    }
}

#[test]
fn texts_split_into_units() {
    let h = &mut Heap::new();
    let (this, none) = (t(h, "a\u{1d4b3}"), t(h, ""));
    let TextTask::Done(p) = string_split(h, this, &[none]).unwrap() else { panic!("wrong task") };
    let JsValue::Object(o) = p else { panic!("no array") };
    let units: Vec<Vec<u16>> = h
        .object(o)
        .elements
        .iter()
        .map(|&v| match v {
            JsValue::Text(n) => h.text(n).clone(),
            other => panic!("no text: {:?}", other),
        })
        .collect();
    assert_eq!(units, vec![vec![0x61], vec![0xd835], vec![0xdcb3]]);
}

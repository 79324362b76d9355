//! `RegExp` objects. The matching itself is done by an engine outside; what it found
//! comes in as a [`RegexMatch`].
use vstd::prelude::*;

use crate::convert::{
    as_number, int_value, is_error, js_number, number_value, smi_or_f64, text_of, to_text,
    value_number,
};
use crate::ctx::{arg, arg_of, receiver, valid_args};
use crate::descriptor::Fault;
use crate::double::{below, flt, from_i64, int_double, saturated, to_i64};
use crate::heap::{Heap, HeapModel, JsObject, ObjModel, lemma_text_id, plain_object};
use crate::object_describe::lemma_ascii_units;
use crate::properties::{Named, Prop, PropBody, Properties};
use crate::slots::Slots;
use crate::string::{heap_ends_in, text_result, text_value};
use crate::text::{
    chars_of, copy_range, law_units_unique, push_all, spells, to_chars, to_well_formed, utf16,
    utf16_of, well_formed,
};
use crate::value::{Attrs, JsValue, Kind, PropKey, Throw, all_attrs};

verus! {

// ---------------------------------------------------------------------------
// Flags
// ---------------------------------------------------------------------------

/// The text that `{:?}` gives for a character.
pub uninterp spec fn char_debug(c: char) -> Seq<char>;

/// `format!` with `{:?}` of a character: the result depends on the character alone.
#[verifier::external_body]
fn debug_char(c: char) -> (r: String)
    ensures
        r@ == char_debug(c),
{
    format!("{:?}", c)
}

/// Whether a character is a flag.
pub open spec fn is_flag(c: char) -> bool {
    c == 'd' || c == 'g' || c == 'i' || c == 'm' || c == 's' || c == 'u' || c == 'v' || c == 'y'
}

/// What is wrong with the first `k` flags, `None` where nothing is.
pub open spec fn flag_fault(s: Seq<char>, k: int) -> Option<Seq<char>>
    decreases k,
{
    if k <= 0 {
        None
    } else {
        match flag_fault(s, k - 1) {
            Some(e) => Some(e),
            None => if !is_flag(s[k - 1]) {
                Some("invalid regular expression flag "@ + char_debug(s[k - 1]))
            } else if s.take(k - 1).contains(s[k - 1]) {
                Some("duplicate regular expression flag "@ + char_debug(s[k - 1]))
            } else {
                None
            },
        }
    }
}

/// A flag where it is set, nothing where it is not.
pub open spec fn flag_part(s: Seq<char>, c: char) -> Seq<char> {
    if s.contains(c) {
        seq![c]
    } else {
        seq![]
    }
}

/// The flags that are set, in alphabetical order.
pub open spec fn ordered_flags(s: Seq<char>) -> Seq<char> {
    flag_part(s, 'd') + flag_part(s, 'g') + flag_part(s, 'i') + flag_part(s, 'm') + flag_part(
        s,
        's',
    ) + flag_part(s, 'u') + flag_part(s, 'v') + flag_part(s, 'y')
}

/// Whether a character is among the first `k` of a text.
fn has_char(s: &str, k: usize, c: char) -> (r: bool)
    requires
        k <= s@.len(),
    ensures
        r == s@.take(k as int).contains(c),
{
    let mut i: usize = 0;
    while i < k
        invariant
            k <= s@.len(),
            i <= k,
            forall|j: int| 0 <= j < i ==> #[trigger] s@[j] != c,
        decreases k - i,
    {
        if s.get_char(i) == c {
            proof {
                assert(s@.take(k as int)[i as int] == c);
            }
            return true;
        }
        i = i + 1;
    }
    proof {
        assert forall|j: int| 0 <= j < k implies #[trigger] s@.take(k as int)[j] != c by {
            assert(s@[j] != c);
        }
    }
    false
}

/// Appends a flag where it is set.
fn push_flag(out: &mut String, s: &str, c: char, text: &str)
    requires
        text@ == seq![c],
    ensures
        final(out)@ == old(out)@ + flag_part(s@, c),
{
    let n: usize = s.unicode_len();
    proof {
        assert(s@.take(n as int) =~= s@);
    }
    if has_char(s, n, c) {
        out.append(text);
    }
    proof {
        assert(out@ =~= old(out)@ + flag_part(s@, c));
    }
}

/// Checks flags and puts them in alphabetical order; unknown and repeated ones are
/// errors.
pub fn canonicalize_flags(flags: &str) -> (r: Result<String, String>)
    ensures
        match flag_fault(flags@, flags@.len() as int) {
            Some(e) => r is Err && r->Err_0@ == e,
            None => r is Ok && r->Ok_0@ == ordered_flags(flags@),
        },
{
    let n: usize = flags.unicode_len();
    let mut i: usize = 0;
    while i < n
        invariant
            n == flags@.len(),
            i <= n,
            flag_fault(flags@, i as int) is None,
        decreases n - i,
    {
        let c: char = flags.get_char(i);
        let known: bool = c == 'd' || c == 'g' || c == 'i' || c == 'm' || c == 's' || c == 'u' || c
            == 'v' || c == 'y';
        proof {
            lemma_flag_fault(flags@, i + 1, n as int);
        }
        if !known {
            let mut e: String = "invalid regular expression flag ".to_owned();
            e.append(debug_char(c).as_str());
            return Err(e);
        }
        if has_char(flags, i, c) {
            let mut e: String = "duplicate regular expression flag ".to_owned();
            e.append(debug_char(c).as_str());
            return Err(e);
        }
        i = i + 1;
    }
    let mut out: String = "".to_owned();
    proof {
        reveal_strlit("");
        reveal_strlit("d");
        reveal_strlit("g");
        reveal_strlit("i");
        reveal_strlit("m");
        reveal_strlit("s");
        reveal_strlit("u");
        reveal_strlit("v");
        reveal_strlit("y");
        assert("d"@ =~= seq!['d']);
        assert("g"@ =~= seq!['g']);
        assert("i"@ =~= seq!['i']);
        assert("m"@ =~= seq!['m']);
        assert("s"@ =~= seq!['s']);
        assert("u"@ =~= seq!['u']);
        assert("v"@ =~= seq!['v']);
        assert("y"@ =~= seq!['y']);
        assert(out@ + flag_part(flags@, 'd') =~= flag_part(flags@, 'd'));
    }
    push_flag(&mut out, flags, 'd', "d");
    push_flag(&mut out, flags, 'g', "g");
    push_flag(&mut out, flags, 'i', "i");
    push_flag(&mut out, flags, 'm', "m");
    push_flag(&mut out, flags, 's', "s");
    push_flag(&mut out, flags, 'u', "u");
    push_flag(&mut out, flags, 'v', "v");
    push_flag(&mut out, flags, 'y', "y");
    Ok(out)
}

proof fn lemma_flag_fault(s: Seq<char>, k: int, n: int)
    requires
        0 <= k <= n,
    ensures
        flag_fault(s, k) is Some ==> flag_fault(s, n) == flag_fault(s, k),
    decreases n - k,
{
    if k < n {
        lemma_flag_fault(s, k, n - 1);
    }
}

/// Flags come out the same whatever order they come in, and those that came out come
/// out unchanged.
pub proof fn law_flag_order(a: Seq<char>, b: Seq<char>)
    requires
        forall|c: char| is_flag(c) ==> a.contains(c) == b.contains(c),
    ensures
        ordered_flags(a) == ordered_flags(b),
        ordered_flags(ordered_flags(a)) == ordered_flags(a),
        flag_fault(ordered_flags(a), ordered_flags(a).len() as int) is None,
{
    assert(is_flag('d') && is_flag('g') && is_flag('i') && is_flag('m') && is_flag('s') && is_flag(
        'u',
    ) && is_flag('v') && is_flag('y'));
    let o = ordered_flags(a);
    lemma_ordered_contains(a, 'd');
    lemma_ordered_contains(a, 'g');
    lemma_ordered_contains(a, 'i');
    lemma_ordered_contains(a, 'm');
    lemma_ordered_contains(a, 's');
    lemma_ordered_contains(a, 'u');
    lemma_ordered_contains(a, 'v');
    lemma_ordered_contains(a, 'y');
    lemma_ordered_distinct(a);
    lemma_no_fault(o, o.len() as int);
}

proof fn lemma_part(s: Seq<char>, c: char)
    ensures
        forall|x: char| #[trigger] flag_part(s, c).contains(x) == (x == c && s.contains(c)),
        flag_part(s, c).no_duplicates(),
{
    assert forall|x: char| #[trigger] flag_part(s, c).contains(x) == (x == c && s.contains(c)) by {
        if s.contains(c) {
            assert(seq![c][0] == c);
            if seq![c].contains(x) {
                let i = choose|i: int| 0 <= i < 1 && seq![c][i] == x;
            }
        }
    }
}

proof fn lemma_concat(a: Seq<char>, b: Seq<char>)
    requires
        a.no_duplicates(),
        b.no_duplicates(),
        forall|x: char| !(#[trigger] a.contains(x) && b.contains(x)),
    ensures
        (a + b).no_duplicates(),
        forall|x: char| #[trigger] (a + b).contains(x) == (a.contains(x) || b.contains(x)),
{
    let s = a + b;
    assert forall|x: char| #[trigger] s.contains(x) == (a.contains(x) || b.contains(x)) by {
        if a.contains(x) {
            let i = choose|i: int| 0 <= i < a.len() && a[i] == x;
            assert(s[i] == x);
        }
        if b.contains(x) {
            let i = choose|i: int| 0 <= i < b.len() && b[i] == x;
            assert(s[a.len() + i] == x);
        }
        if s.contains(x) {
            let i = choose|i: int| 0 <= i < s.len() && s[i] == x;
            if i < a.len() {
                assert(a[i] == x);
            } else {
                assert(b[i - a.len()] == x);
            }
        }
    }
    assert forall|i: int, j: int| 0 <= i < s.len() && 0 <= j < s.len() && i != j implies s[i]
        != s[j] by {
        if i < a.len() && j >= a.len() {
            assert(a.contains(a[i]));
            assert(b.contains(b[j - a.len()]));
        } else if j < a.len() && i >= a.len() {
            assert(a.contains(a[j]));
            assert(b.contains(b[i - a.len()]));
        }
    }
}

proof fn lemma_ordered_distinct(s: Seq<char>)
    ensures
        ordered_flags(s).no_duplicates(),
        forall|x: char| #[trigger] ordered_flags(s).contains(x) == (is_flag(x) && s.contains(x)),
{
    lemma_part(s, 'd');
    lemma_part(s, 'g');
    lemma_part(s, 'i');
    lemma_part(s, 'm');
    lemma_part(s, 's');
    lemma_part(s, 'u');
    lemma_part(s, 'v');
    lemma_part(s, 'y');
    let p1 = flag_part(s, 'd');
    let p2 = p1 + flag_part(s, 'g');
    lemma_concat(p1, flag_part(s, 'g'));
    let p3 = p2 + flag_part(s, 'i');
    lemma_concat(p2, flag_part(s, 'i'));
    let p4 = p3 + flag_part(s, 'm');
    lemma_concat(p3, flag_part(s, 'm'));
    let p5 = p4 + flag_part(s, 's');
    lemma_concat(p4, flag_part(s, 's'));
    let p6 = p5 + flag_part(s, 'u');
    lemma_concat(p5, flag_part(s, 'u'));
    let p7 = p6 + flag_part(s, 'v');
    lemma_concat(p6, flag_part(s, 'v'));
    lemma_concat(p7, flag_part(s, 'y'));
}

proof fn lemma_ordered_contains(s: Seq<char>, c: char)
    requires
        is_flag(c),
    ensures
        ordered_flags(s).contains(c) == s.contains(c),
{
    lemma_ordered_distinct(s);
}

proof fn lemma_no_fault(s: Seq<char>, k: int)
    requires
        0 <= k <= s.len(),
        s.no_duplicates(),
        forall|x: char| #[trigger] s.contains(x) ==> is_flag(x),
    ensures
        flag_fault(s, k) is None,
    decreases k,
{
    if k > 0 {
        lemma_no_fault(s, k - 1);
        assert(s.contains(s[k - 1]));
        if s.take(k - 1).contains(s[k - 1]) {
            let i = s.take(k - 1).index_of(s[k - 1]);
            assert(s[i] == s[k - 1]);
        }
    }
}

// ---------------------------------------------------------------------------
// Making regular expressions
// ---------------------------------------------------------------------------

/// Text of a pattern or of flags: nothing of `undefined`.
pub open spec fn pattern_text(h: HeapModel, v: JsValue) -> Seq<u16> {
    if v == JsValue::Undefined {
        seq![]
    } else {
        text_of(h, v)
    }
}

/// The source that stands for a pattern: an empty one matches the empty text.
pub open spec fn source_of(t: Seq<u16>) -> Seq<u16> {
    if t.len() == 0 {
        utf16_of("(?:)"@)
    } else {
        t
    }
}

/// The flags that a text asks for, or what is wrong with it.
pub open spec fn flags_of(t: Seq<u16>) -> Result<Seq<u16>, Seq<char>> {
    let chars = chars_of(t);
    match flag_fault(chars, chars.len() as int) {
        Some(e) => Err(e),
        None => Ok(utf16_of(ordered_flags(chars))),
    }
}

/// Source and flags that the arguments of the constructor ask for: those of a regular
/// expression that comes without flags, else those that the texts spell.
pub open spec fn asked_pattern(h: HeapModel, args: Seq<JsValue>) -> (Seq<u16>, Seq<u16>) {
    let copied = match arg_of(args, 0) {
        JsValue::Object(o) => h.objects[o as int].kind == Kind::RegExp && arg_of(args, 1)
            == JsValue::Undefined,
        _ => false,
    };
    if copied {
        let m = h.objects[arg_of(args, 0)->Object_0 as int];
        (h.texts[m.inner[0]->Text_0 as int], h.texts[m.inner[1]->Text_0 as int])
    } else {
        (pattern_text(h, arg_of(args, 0)), pattern_text(h, arg_of(args, 1)))
    }
}

/// The slots of a regular expression.
pub open spec fn regexp_slots(source: usize, flags: usize, last: JsValue) -> Seq<JsValue> {
    seq![JsValue::Text(source), JsValue::Text(flags), last]
}

/// Text of a pattern or of flags.
fn stringify_arg(heap: &Heap, v: JsValue) -> (r: Vec<u16>)
    requires
        heap.wf(),
        heap@.valid(v),
    ensures
        r@ == pattern_text(heap@, v),
{
    if v == JsValue::Undefined {
        let none: Vec<u16> = Vec::new();
        proof {
            assert(none@ =~= Seq::<u16>::empty());
        }
        none
    } else {
        to_text(heap, v)
    }
}

/// Source and flags that the arguments of the constructor ask for.
fn pattern_args(heap: &Heap, args: &[JsValue]) -> (r: (Vec<u16>, Vec<u16>))
    requires
        heap.wf(),
        valid_args(heap@, args@),
    ensures
        (r.0@, r.1@) == asked_pattern(heap@, args@),
{
    let first: JsValue = arg(args, 0);
    let second: JsValue = arg(args, 1);
    match first {
        JsValue::Object(o) => {
            let m: &JsObject = heap.object(o);
            if m.kind == Kind::RegExp && second == JsValue::Undefined {
                proof {
                    assert(heap@.valid(m@.inner[0]));
                    assert(heap@.valid(m@.inner[1]));
                }
                match (m.inner.get(0), m.inner.get(1)) {
                    (JsValue::Text(s), JsValue::Text(f)) => {
                        let a: Vec<u16> = copy_range(heap.text(s).as_slice(), 0, heap.text(s).len());
                        let b: Vec<u16> = copy_range(heap.text(f).as_slice(), 0, heap.text(f).len());
                        proof {
                            assert(a@ =~= heap@.texts[s as int]);
                            assert(b@ =~= heap@.texts[f as int]);
                        }
                        return (a, b);
                    },
                    _ => {},
                }
            }
        },
        _ => {},
    }
    (stringify_arg(heap, first), stringify_arg(heap, second))
}

/// What making a regular expression does: a new object, or another pattern for the
/// given one.
pub open spec fn made_regexp(h: HeapModel, args: Seq<JsValue>, target: Option<usize>) -> (
    HeapModel,
    Result<JsValue, Fault>,
) {
    let (pattern, flags) = asked_pattern(h, args);
    match flags_of(flags) {
        Err(e) => (h, Err(Fault::Text("SyntaxError: "@ + e))),
        Ok(f) => {
            let s = source_of(pattern);
            let h1 = h.interned(s);
            let h2 = h1.interned(f);
            let slots = regexp_slots(h.text_id(s), h1.text_id(f), JsValue::Smi(0));
            match target {
                None => (
                    h2.with_new(ObjModel { inner: slots, ..plain_object(Kind::RegExp) }),
                    Ok(JsValue::Object(h.objects.len() as usize)),
                ),
                Some(o) => (
                    h2.with_object(o, ObjModel { inner: slots, ..h2.objects[o as int] }),
                    Ok(JsValue::Object(o)),
                ),
            }
        },
    }
}

/// Source and flags in the heap, ready for a regular expression.
fn intern_pattern(heap: &mut Heap, args: &[JsValue]) -> (r: Result<(usize, usize), Throw>)
    requires
        old(heap).wf(),
        valid_args(old(heap)@, args@),
    ensures
        final(heap).wf(),
        match flags_of(asked_pattern(old(heap)@, args@).1) {
            Err(e) => final(heap)@ == old(heap)@ && r is Err && is_error(
                r->Err_0,
                "SyntaxError: "@ + e,
            ),
            Ok(f) => {
                let s = source_of(asked_pattern(old(heap)@, args@).0);
                let h1 = old(heap)@.interned(s);
                &&& final(heap)@ == h1.interned(f)
                &&& r == Ok::<(usize, usize), Throw>((old(heap)@.text_id(s), h1.text_id(f)))
                &&& old(heap)@.text_id(s) < final(heap)@.texts.len()
                &&& h1.text_id(f) < final(heap)@.texts.len()
            },
        },
{
    let (pattern, flags) = pattern_args(heap, args);
    let chars: String = to_chars(flags.as_slice());
    let ordered: String = match canonicalize_flags(chars.as_str()) {
        Err(e) => {
            let mut text: String = "SyntaxError: ".to_owned();
            text.append(e.as_str());
            return Err(Throw::Error(text));
        },
        Ok(f) => f,
    };
    let source: Vec<u16> = if pattern.len() == 0 {
        utf16("(?:)")
    } else {
        pattern
    };
    let s: usize = heap.intern(source.as_slice());
    let f: usize = heap.intern_text(ordered.as_str());
    Ok((s, f))
}

/// `RegExp(pattern, flags)`.
pub fn regexp_construct(heap: &mut Heap, _this: JsValue, args: &[JsValue]) -> (r: Result<
    JsValue,
    Throw,
>)
    requires
        old(heap).wf(),
        valid_args(old(heap)@, args@),
    ensures
        heap_ends_in(*final(heap), r, made_regexp(old(heap)@, args@, None)),
{
    let (s, f) = match intern_pattern(heap, args) {
        Ok(p) => p,
        Err(t) => {
            return Err(t);
        },
    };
    let mut o: JsObject = JsObject::plain(Kind::RegExp);
    o.inner.push(JsValue::Text(s));
    o.inner.push(JsValue::Text(f));
    o.inner.push(JsValue::Smi(0));
    proof {
        assert(o.inner@ =~= regexp_slots(s, f, JsValue::Smi(0)));
        assert(o@ == ObjModel {
            inner: regexp_slots(s, f, JsValue::Smi(0)),
            ..plain_object(Kind::RegExp)
        });
        assert(heap@.valid_refs(o@));
    }
    Ok(JsValue::Object(heap.allocate(o)))
}

/// The regular expression that a method is called on.
fn this_regexp(heap: &Heap, this: JsValue, method: &str) -> (r: Result<usize, Throw>)
    requires
        heap.wf(),
        heap@.valid(this),
    ensures
        match receiver(heap@, this, method@, Some(Kind::RegExp)) {
            Ok(o) => r == Ok::<usize, Throw>(o) && o < heap@.objects.len()
                && heap@.objects[o as int].kind == Kind::RegExp && this == JsValue::Object(o),
            Err(text) => r is Err && is_error(r->Err_0, text),
        },
{
    match this {
        JsValue::Object(o) => {
            if heap.object(o).kind == Kind::RegExp {
                Ok(o)
            } else {
                let mut s: String = "TypeError: ".to_owned();
                s.append(method);
                s.append(" called on non-");
                s.append("RegExp");
                Err(Throw::Error(s))
            }
        },
        _ => {
            let mut s: String = "TypeError: ".to_owned();
            s.append(method);
            s.append(" called on non-object");
            Err(Throw::Error(s))
        },
    }
}

/// What `RegExp.prototype.compile` does.
pub open spec fn compile_result(h: HeapModel, this: JsValue, args: Seq<JsValue>) -> (
    HeapModel,
    Result<JsValue, Fault>,
) {
    match receiver(h, this, "RegExp.prototype.compile"@, Some(Kind::RegExp)) {
        Err(t) => (h, Err(Fault::Text(t))),
        Ok(o) => made_regexp(h, args, Some(o)),
    }
}

/// `RegExp.prototype.compile(pattern, flags)`: another pattern for the receiver.
pub fn regexp_compile(heap: &mut Heap, this: JsValue, args: &[JsValue]) -> (r: Result<
    JsValue,
    Throw,
>)
    requires
        old(heap).wf(),
        old(heap)@.valid(this),
        valid_args(old(heap)@, args@),
    ensures
        heap_ends_in(*final(heap), r, compile_result(old(heap)@, this, args@)),
{
    let obj: usize = match this_regexp(heap, this, "RegExp.prototype.compile") {
        Ok(o) => o,
        Err(t) => {
            return Err(t);
        },
    };
    let (s, f) = match intern_pattern(heap, args) {
        Ok(p) => p,
        Err(t) => {
            return Err(t);
        },
    };
    let mut slots: Slots = Slots::new();
    slots.push(JsValue::Text(s));
    slots.push(JsValue::Text(f));
    slots.push(JsValue::Smi(0));
    let ghost h = heap@;
    let o = heap.object_mut(obj);
    proof {
        assert(slots@ =~= regexp_slots(s, f, JsValue::Smi(0)));
        assert(h.valid_refs(ObjModel { inner: slots@, ..h.objects[obj as int] }));
    }
    o.inner = slots;
    Ok(this)
}

// ---------------------------------------------------------------------------
// Slots
// ---------------------------------------------------------------------------

/// Source of a regular expression.
pub open spec fn source_text(h: HeapModel, o: usize) -> Seq<u16> {
    well_formed(h.texts[h.objects[o as int].inner[0]->Text_0 as int])
}

/// Flags of a regular expression.
pub open spec fn flags_text(h: HeapModel, o: usize) -> Seq<u16> {
    well_formed(h.texts[h.objects[o as int].inner[1]->Text_0 as int])
}

/// Source and flags of a regular expression.
pub fn regexp_source_flags(heap: &Heap, obj: usize) -> (r: (Vec<u16>, Vec<u16>))
    requires
        heap.wf(),
        obj < heap@.objects.len(),
        heap@.objects[obj as int].kind == Kind::RegExp,
    ensures
        r.0@ == source_text(heap@, obj),
        r.1@ == flags_text(heap@, obj),
{
    let o: &JsObject = heap.object(obj);
    proof {
        assert(heap@.valid(o@.inner[0]));
        assert(heap@.valid(o@.inner[1]));
    }
    match (o.inner.get(0), o.inner.get(1)) {
        (JsValue::Text(s), JsValue::Text(f)) => (
            to_well_formed(heap.text(s).as_slice()),
            to_well_formed(heap.text(f).as_slice()),
        ),
        _ => (Vec::new(), Vec::new()),
    }
}

/// Whether a regular expression has a flag.
pub open spec fn has_flag(h: HeapModel, o: usize, c: u16) -> bool {
    flags_text(h, o).contains(c)
}

/// Whether a regular expression has a flag.
pub fn flag_set(heap: &Heap, obj: usize, c: u16) -> (r: bool)
    requires
        heap.wf(),
        obj < heap@.objects.len(),
        heap@.objects[obj as int].kind == Kind::RegExp,
    ensures
        r == has_flag(heap@, obj, c),
{
    let (_, f) = regexp_source_flags(heap, obj);
    let mut i: usize = 0;
    while i < f.len()
        invariant
            f@ == flags_text(heap@, obj),
            i <= f@.len(),
            forall|k: int| 0 <= k < i ==> #[trigger] f@[k] != c,
        decreases f@.len() - i,
    {
        if f[i] == c {
            proof {
                assert(f@[i as int] == c);
            }
            return true;
        }
        i = i + 1;
    }
    false
}

/// Where the next match of a regular expression is to start.
pub open spec fn last_index_of(h: HeapModel, o: usize) -> u64 {
    match as_number(h.objects[o as int].inner[2]) {
        Some(b) => b,
        None => int_double(0),
    }
}

/// Where the next match of a regular expression is to start.
pub fn last_index(heap: &Heap, obj: usize) -> (r: u64)
    requires
        heap.wf(),
        obj < heap@.objects.len(),
        heap@.objects[obj as int].kind == Kind::RegExp,
    ensures
        r == last_index_of(heap@, obj),
{
    match value_number(heap.object(obj).inner.get(2)) {
        Some(b) => b,
        None => from_i64(0),
    }
}

/// The heap with another `lastIndex` of a regular expression.
pub open spec fn with_last_index(h: HeapModel, o: usize, b: u64) -> HeapModel {
    let m = h.objects[o as int];
    h.with_object(o, ObjModel { inner: m.inner.update(2, number_value(b)), ..m })
}

/// Sets where the next match of a regular expression is to start.
pub fn set_last_index(heap: &mut Heap, obj: usize, b: u64)
    requires
        old(heap).wf(),
        obj < old(heap)@.objects.len(),
        old(heap)@.objects[obj as int].kind == Kind::RegExp,
    ensures
        final(heap).wf(),
        final(heap)@ == with_last_index(old(heap)@, obj, b),
{
    let ghost h = heap@;
    let ghost m = h.objects[obj as int];
    let v: JsValue = js_number(b);
    let o = heap.object_mut(obj);
    proof {
        let c = ObjModel { inner: m.inner.update(2, v), ..m };
        assert forall|i: int| 0 <= i < c.inner.len() implies h.valid(#[trigger] c.inner[i]) by {
            if i != 2 {
                assert(h.valid(m.inner[i]));
            }
        }
        assert(h.valid_refs(c));
    }
    o.inner.set(2, v);
}

/// What `RegExp.prototype.toString` does.
pub open spec fn to_string_result(h: HeapModel, this: JsValue) -> (
    HeapModel,
    Result<JsValue, Fault>,
) {
    match receiver(h, this, "RegExp.prototype.toString"@, Some(Kind::RegExp)) {
        Err(t) => (h, Err(Fault::Text(t))),
        Ok(o) => text_result(
            h,
            seq![0x2fu16] + source_text(h, o) + seq![0x2fu16] + flags_text(h, o),
        ),
    }
}

/// `RegExp.prototype.toString()`.
pub fn regexp_to_string(heap: &mut Heap, this: JsValue, _args: &[JsValue]) -> (r: Result<
    JsValue,
    Throw,
>)
    requires
        old(heap).wf(),
        old(heap)@.valid(this),
    ensures
        heap_ends_in(*final(heap), r, to_string_result(old(heap)@, this)),
{
    let obj: usize = match this_regexp(heap, this, "RegExp.prototype.toString") {
        Ok(o) => o,
        Err(t) => {
            return Err(t);
        },
    };
    let (s, f) = regexp_source_flags(heap, obj);
    let mut out: Vec<u16> = Vec::new();
    out.push(0x2f);
    push_all(&mut out, s.as_slice());
    out.push(0x2f);
    push_all(&mut out, f.as_slice());
    proof {
        assert(out@ =~= seq![0x2fu16] + s@ + seq![0x2fu16] + f@);
    }
    text_value(heap, out.as_slice())
}

// ---------------------------------------------------------------------------
// exec
// ---------------------------------------------------------------------------

/// What the engine found: where the whole match and its groups lie; a group that took
/// no part has no place.
#[derive(Clone, Debug)]
pub struct RegexMatch {
    /// Start of the whole match.
    pub start: usize,
    /// End of the whole match.
    pub end: usize,
    /// The groups, from the first on.
    pub groups: Vec<Option<(usize, usize)>>,
}

impl RegexMatch {
    /// Whether all places lie in a text of the given length.
    pub open spec fn fits(&self, len: int) -> bool {
        &&& self.start <= self.end <= len
        &&& forall|i: int|
            0 <= i < self.groups@.len() ==> match #[trigger] self.groups@[i] {
                Some((a, b)) => a <= b <= len,
                None => true,
            }
    }
}

/// What is to be done for a match.
#[derive(Clone, Copy, PartialEq, Eq, Structural, Debug)]
pub enum ExecPlan {
    /// Nothing: there is none.
    NoMatch,
    /// The engine has to search from an index on.
    Search(usize),
}

/// Whether matches of a regular expression depend on its `lastIndex`.
pub open spec fn is_stateful(h: HeapModel, o: usize) -> bool {
    has_flag(h, o, 0x67) || has_flag(h, o, 0x79)
}

/// Where a search starts.
pub open spec fn search_start(h: HeapModel, o: usize) -> u64 {
    if is_stateful(h, o) {
        last_index_of(h, o)
    } else {
        int_double(0)
    }
}

/// A start as an index.
pub open spec fn start_int(b: u64) -> int {
    if saturated(b) < 0 {
        0
    } else {
        saturated(b)
    }
}

/// What is to be done for a match in a text of the given length, and the heap after it:
/// a start past the end finds nothing.
pub open spec fn begin_result(h: HeapModel, o: usize, len: int) -> (HeapModel, ExecPlan) {
    let start = search_start(h, o);
    if below(int_double(len), start) {
        (
            if is_stateful(h, o) {
                with_last_index(h, o, int_double(0))
            } else {
                h
            },
            ExecPlan::NoMatch,
        )
    } else {
        (h, ExecPlan::Search(start_int(start) as usize))
    }
}

/// Decides how a match is looked for in a text of the given length.
pub fn exec_begin(heap: &mut Heap, obj: usize, len: usize) -> (r: ExecPlan)
    requires
        old(heap).wf(),
        obj < old(heap)@.objects.len(),
        old(heap)@.objects[obj as int].kind == Kind::RegExp,
        len < 0x20_0000_0000_0000,
    ensures
        final(heap).wf(),
        (final(heap)@, r) == begin_result(old(heap)@, obj, len as int),
        r matches ExecPlan::Search(start) ==> start <= len,
{
    let stateful: bool = flag_set(heap, obj, 0x67) || flag_set(heap, obj, 0x79);
    let start: u64 = if stateful {
        last_index(heap, obj)
    } else {
        from_i64(0)
    };
    if flt(from_i64(len as i64), start) {
        if stateful {
            set_last_index(heap, obj, from_i64(0));
        }
        return ExecPlan::NoMatch;
    }
    proof {
        lemma_start(start, len as int);
    }
    let n: i64 = to_i64(start);
    ExecPlan::Search(
        if n < 0 {
            0
        } else {
            n as usize
        },
    )
}

/// A start that is not past the end lies in the text.
proof fn lemma_start(b: u64, len: int)
    requires
        0 <= len < 0x20_0000_0000_0000,
        !below(int_double(len), b),
    ensures
        start_int(b) <= len,
{
    crate::double::lemma_int_exact(len);
    if crate::double::is_finite(b) {
        if crate::double::is_negative(b) {
            let m = crate::double::mantissa(b);
            let q = crate::double::exponent(b);
            if q >= 0 {
                let p = vstd::arithmetic::power2::pow2(q as nat);
                assert(m * p >= 0) by (nonlinear_arith)
                    requires
                        m >= 0,
                        p >= 0,
                ;
            } else {
                let p = vstd::arithmetic::power2::pow2((-q) as nat);
                vstd::arithmetic::power2::lemma_pow2_pos((-q) as nat);
                vstd::arithmetic::div_mod::lemma_div_pos_is_pos(m as int, p as int);
            }
            assert(crate::double::trunc_int(b) <= 0);
        } else {
            crate::double::lemma_magnitude_bound(b, len);
        }
    }
}

/// Where the next match starts behind one: at its end, one further where it is empty.
pub open spec fn next_start(start: int, end: int) -> int {
    if start == end {
        start + 1
    } else {
        end
    }
}

/// The texts of groups, `undefined` for those that took no part, behind others; and the
/// heap that holds them.
pub open spec fn group_texts(
    h: HeapModel,
    input: Seq<u16>,
    groups: Seq<Option<(usize, usize)>>,
    k: int,
    head: Seq<JsValue>,
) -> (HeapModel, Seq<JsValue>)
    decreases k,
{
    if k <= 0 {
        (h, head)
    } else {
        let (h1, s) = group_texts(h, input, groups, k - 1, head);
        match groups[k - 1] {
            Some((a, b)) => {
                let t = well_formed(input.subrange(a as int, b as int));
                (h1.interned(t), s.push(JsValue::Text(h1.text_id(t))))
            },
            None => (h1, s.push(JsValue::Undefined)),
        }
    }
}

/// The heap with the names of the properties of a match.
pub open spec fn with_match_names(h: HeapModel) -> HeapModel {
    h.interned(utf16_of("length"@)).interned(utf16_of("index"@)).interned(
        utf16_of("input"@),
    ).interned(utf16_of("groups"@))
}

/// A property of a match.
pub open spec fn match_prop(h: HeapModel, name: Seq<char>, v: JsValue) -> Prop {
    Prop {
        key: PropKey::Text(h.text_id(utf16_of(name))),
        attrs: all_attrs(),
        body: PropBody::Data(v),
    }
}

/// The properties of a match.
pub open spec fn match_props(h: HeapModel, count: int, index: int, input: usize) -> Seq<Prop> {
    seq![
        match_prop(h, "length"@, int_value(count)),
        match_prop(h, "index"@, int_value(index)),
        match_prop(h, "input"@, JsValue::Text(input)),
        match_prop(h, "groups"@, JsValue::Undefined),
    ]
}

/// What a match looks like: an array of the whole match and its groups, with `index`
/// and `input`; and the heap that holds it.
pub open spec fn match_object(
    h: HeapModel,
    input: Seq<u16>,
    start: int,
    end: int,
    groups: Seq<Option<(usize, usize)>>,
) -> (HeapModel, JsValue) {
    let whole = well_formed(input.subrange(start, end));
    let (h1, items) = group_texts(
        h.interned(whole),
        input,
        groups,
        groups.len() as int,
        seq![JsValue::Text(h.text_id(whole))],
    );
    let h2 = h1.interned(input);
    let h3 = with_match_names(h2);
    (
        h3.with_new(
            ObjModel {
                elements: items,
                named: Named {
                    list: match_props(h3, items.len() as int, start, h1.text_id(input)),
                    base: 4,
                    spilled: false,
                },
                ..plain_object(Kind::Array)
            },
        ),
        JsValue::Object(h.objects.len() as usize),
    )
}

/// What a match gives, for what the engine found from an index on: a sticky expression
/// must match there, and one that depends on its `lastIndex` moves it on.
pub open spec fn end_result(
    h: HeapModel,
    o: usize,
    input: Seq<u16>,
    from: int,
    found: Option<RegexMatch>,
) -> (HeapModel, JsValue) {
    match found {
        None => (
            if is_stateful(h, o) {
                with_last_index(h, o, int_double(0))
            } else {
                h
            },
            JsValue::Null,
        ),
        Some(m) => if has_flag(h, o, 0x79) && m.start != from {
            (with_last_index(h, o, int_double(0)), JsValue::Null)
        } else {
            match_object(
                if is_stateful(h, o) {
                    with_last_index(
                        h,
                        o,
                        int_double(next_start(m.start as int, m.end as int)),
                    )
                } else {
                    h
                },
                input,
                m.start as int,
                m.end as int,
                m.groups@,
            )
        },
    }
}

/// The texts of the whole match and its groups.
fn match_items(heap: &mut Heap, input: &[u16], m: &RegexMatch) -> (r: Vec<JsValue>)
    requires
        old(heap).wf(),
        m.fits(input@.len() as int),
    ensures
        final(heap).wf(),
        ({
            let whole = well_formed(input@.subrange(m.start as int, m.end as int));
            (final(heap)@, r@) == group_texts(
                old(heap)@.interned(whole),
                input@,
                m.groups@,
                m.groups@.len() as int,
                seq![JsValue::Text(old(heap)@.text_id(whole))],
            )
        }),
        old(heap)@.grows_to(final(heap)@),
        valid_args(final(heap)@, r@),
{
    let ghost h = heap@;
    let part: Vec<u16> = copy_range(input, m.start, m.end);
    let whole: Vec<u16> = to_well_formed(part.as_slice());
    let id: usize = heap.intern(whole.as_slice());
    let mut out: Vec<JsValue> = Vec::new();
    out.push(JsValue::Text(id));
    let ghost h1 = heap@;
    let ghost head = out@;
    proof {
        assert(head =~= seq![JsValue::Text(h.text_id(whole@))]);
        assert(h.texts.is_prefix_of(h1.texts));
    }
    let mut i: usize = 0;
    while i < m.groups.len()
        invariant
            heap.wf(),
            m.fits(input@.len() as int),
            i <= m.groups@.len(),
            (heap@, out@) == group_texts(h1, input@, m.groups@, i as int, head),
            h.grows_to(heap@),
            valid_args(heap@, out@),
        decreases m.groups@.len() - i,
    {
        let ghost before = heap@;
        proof {
            assert(match m.groups@[i as int] {
                Some((a, b)) => a <= b <= input@.len(),
                None => true,
            });
        }
        match m.groups[i] {
            Some((a, b)) => {
                let part: Vec<u16> = copy_range(input, a, b);
                let t: Vec<u16> = to_well_formed(part.as_slice());
                let id: usize = heap.intern(t.as_slice());
                out.push(JsValue::Text(id));
                proof {
                    assert(before.texts.is_prefix_of(heap@.texts));
                    assert(h.texts.is_prefix_of(heap@.texts));
                    assert forall|k: int| 0 <= k < out@.len() implies heap@.valid(
                        #[trigger] out@[k],
                    ) by {
                        if k < out@.len() - 1 {
                            assert(before.valid(out@[k]));
                        }
                    }
                }
            },
            None => {
                out.push(JsValue::Undefined);
            },
        }
        i = i + 1;
    }
    out
}

/// Names of the properties of a match.
pub open spec fn match_name(k: int) -> Seq<char> {
    if k == 0 {
        "length"@
    } else if k == 1 {
        "index"@
    } else if k == 2 {
        "input"@
    } else {
        "groups"@
    }
}

/// No two properties of a match have one name.
proof fn lemma_match_names(i: int, j: int)
    requires
        0 <= i < j < 4,
    ensures
        utf16_of(match_name(i)) != utf16_of(match_name(j)),
{
    reveal_strlit("length");
    reveal_strlit("index");
    reveal_strlit("input");
    reveal_strlit("groups");
    lemma_ascii_units("length"@);
    lemma_ascii_units("index"@);
    lemma_ascii_units("input"@);
    lemma_ascii_units("groups"@);
    assert(utf16_of("length"@)[0] as int == 'l' as int);
    assert(utf16_of("groups"@)[0] as int == 'g' as int);
    assert(utf16_of("index"@)[2] as int == 'd' as int);
    assert(utf16_of("input"@)[2] as int == 'p' as int);
}

/// Puts the names of the properties of a match into the heap.
fn intern_match_names(heap: &mut Heap) -> (r: (usize, usize, usize, usize))
    requires
        old(heap).wf(),
    ensures
        final(heap).wf(),
        final(heap)@ == with_match_names(old(heap)@),
        old(heap)@.grows_to(final(heap)@),
        r.0 == final(heap)@.text_id(utf16_of("length"@)),
        r.1 == final(heap)@.text_id(utf16_of("index"@)),
        r.2 == final(heap)@.text_id(utf16_of("input"@)),
        r.3 == final(heap)@.text_id(utf16_of("groups"@)),
        r.0 < final(heap)@.texts.len() && r.1 < final(heap)@.texts.len() && r.2
            < final(heap)@.texts.len() && r.3 < final(heap)@.texts.len(),
        r.0 != r.1 && r.0 != r.2 && r.0 != r.3 && r.1 != r.2 && r.1 != r.3 && r.2 != r.3,
{
    let ghost h = heap@;
    let k0: usize = heap.intern_text("length");
    let ghost g0 = heap@;
    let k1: usize = heap.intern_text("index");
    let ghost g1 = heap@;
    let k2: usize = heap.intern_text("input");
    let ghost g2 = heap@;
    let k3: usize = heap.intern_text("groups");
    let ghost h3 = heap@;
    proof {
        assert(h.texts.is_prefix_of(g0.texts));
        assert(g0.texts.is_prefix_of(g1.texts));
        assert(g1.texts.is_prefix_of(g2.texts));
        assert(g2.texts.is_prefix_of(h3.texts));
        assert(h.texts.is_prefix_of(h3.texts));
        assert(h3.texts[k0 as int] == g0.texts[k0 as int]);
        assert(h3.texts[k1 as int] == g1.texts[k1 as int]);
        assert(h3.texts[k2 as int] == g2.texts[k2 as int]);
        heap.lemma_wf();
        lemma_text_id(h3, k0 as int);
        lemma_text_id(h3, k1 as int);
        lemma_text_id(h3, k2 as int);
        lemma_text_id(h3, k3 as int);
        lemma_match_names(0, 1);
        lemma_match_names(0, 2);
        lemma_match_names(0, 3);
        lemma_match_names(1, 2);
        lemma_match_names(1, 3);
        lemma_match_names(2, 3);
    }
    (k0, k1, k2, k3)
}

/// A property that a script could have made.
fn open_prop(key: usize, v: JsValue) -> (r: Prop)
    ensures
        r == (Prop { key: PropKey::Text(key), attrs: all_attrs(), body: PropBody::Data(v) }),
{
    Prop { key: PropKey::Text(key), attrs: Attrs::all(), body: PropBody::Data(v) }
}

/// The properties of a match.
fn match_named(
    names: (usize, usize, usize, usize),
    count: i64,
    start: i64,
    input: usize,
    Ghost(h): Ghost<HeapModel>,
) -> (r: Properties)
    requires
        names.0 == h.text_id(utf16_of("length"@)),
        names.1 == h.text_id(utf16_of("index"@)),
        names.2 == h.text_id(utf16_of("input"@)),
        names.3 == h.text_id(utf16_of("groups"@)),
        names.0 != names.1 && names.0 != names.2 && names.0 != names.3 && names.1 != names.2
            && names.1 != names.3 && names.2 != names.3,
    ensures
        r.wf(),
        r@ == (Named {
            list: match_props(h, count as int, start as int, input),
            base: 4,
            spilled: false,
        }),
{
    let mut named: Properties = Properties::new();
    named.install(open_prop(names.0, smi_or_f64(count)));
    proof {
        assert(named@.list[0].key == PropKey::Text(names.0));
    }
    named.install(open_prop(names.1, smi_or_f64(start)));
    proof {
        assert(named@.list[0].key == PropKey::Text(names.0));
        assert(named@.list[1].key == PropKey::Text(names.1));
    }
    named.install(open_prop(names.2, JsValue::Text(input)));
    proof {
        assert(named@.list[0].key == PropKey::Text(names.0));
        assert(named@.list[1].key == PropKey::Text(names.1));
        assert(named@.list[2].key == PropKey::Text(names.2));
    }
    named.install(open_prop(names.3, JsValue::Undefined));
    proof {
        assert(named@.list =~= match_props(h, count as int, start as int, input));
    }
    named
}

/// Puts a match into the heap.
fn match_result(heap: &mut Heap, m: &RegexMatch, input: &[u16]) -> (r: JsValue)
    requires
        old(heap).wf(),
        m.fits(input@.len() as int),
        input@.len() < 0x20_0000_0000_0000,
        m.groups@.len() < 0x20_0000_0000_0000,
    ensures
        final(heap).wf(),
        (final(heap)@, r) == match_object(
            old(heap)@,
            input@,
            m.start as int,
            m.end as int,
            m.groups@,
        ),
{
    let ghost h = heap@;
    let items: Vec<JsValue> = match_items(heap, input, m);
    let ghost h1 = heap@;
    let count: i64 = m.groups.len() as i64 + 1;
    let ghost whole = well_formed(input@.subrange(m.start as int, m.end as int));
    proof {
        lemma_group_count(
            h.interned(whole),
            input@,
            m.groups@,
            m.groups@.len() as int,
            seq![JsValue::Text(h.text_id(whole))],
        );
    }
    let input_id: usize = heap.intern(input);
    let ghost h2 = heap@;
    let names: (usize, usize, usize, usize) = intern_match_names(heap);
    let ghost h3 = heap@;
    let mut o: JsObject = JsObject::plain(Kind::Array);
    o.named = match_named(names, count, m.start as i64, input_id, Ghost(h3));
    o.elements = items;
    proof {
        let list = match_props(h3, count as int, m.start as int, input_id);
        assert(o@ == ObjModel {
            elements: items@,
            named: Named { list, base: 4, spilled: false },
            ..plain_object(Kind::Array)
        });
        assert forall|i: int| 0 <= i < items@.len() implies h3.valid(#[trigger] items@[i]) by {
            assert(h1.valid(items@[i]));
        }
        assert(h3.valid_refs(o@));
    }
    JsValue::Object(heap.allocate(o))
}

proof fn lemma_group_count(
    h: HeapModel,
    input: Seq<u16>,
    groups: Seq<Option<(usize, usize)>>,
    k: int,
    head: Seq<JsValue>,
)
    requires
        0 <= k,
    ensures
        group_texts(h, input, groups, k, head).1.len() == head.len() + k,
    decreases k,
{
    if k > 0 {
        lemma_group_count(h, input, groups, k - 1, head);
    }
}

/// Gives the match for what the engine found.
pub fn exec_end(heap: &mut Heap, obj: usize, input: &[u16], from: usize, found: Option<RegexMatch>) -> (r:
    JsValue)
    requires
        old(heap).wf(),
        obj < old(heap)@.objects.len(),
        old(heap)@.objects[obj as int].kind == Kind::RegExp,
        input@.len() < 0x20_0000_0000_0000,
        found matches Some(m) ==> m.fits(input@.len() as int) && m.groups@.len()
            < 0x20_0000_0000_0000,
    ensures
        final(heap).wf(),
        (final(heap)@, r) == end_result(old(heap)@, obj, input@, from as int, found),
{
    let stateful: bool = flag_set(heap, obj, 0x67) || flag_set(heap, obj, 0x79);
    let sticky: bool = flag_set(heap, obj, 0x79);
    match found {
        None => {
            if stateful {
                set_last_index(heap, obj, from_i64(0));
            }
            JsValue::Null
        },
        Some(m) => {
            if sticky && m.start != from {
                set_last_index(heap, obj, from_i64(0));
                return JsValue::Null;
            }
            if stateful {
                let next: i64 = if m.start == m.end {
                    m.start as i64 + 1
                } else {
                    m.end as i64
                };
                set_last_index(heap, obj, from_i64(next));
            }
            match_result(heap, &m, input)
        },
    }
}

/// The text that a match is looked for in.
pub open spec fn exec_input(h: HeapModel, args: Seq<JsValue>) -> Seq<u16> {
    if args.len() == 0 {
        seq![]
    } else {
        text_of(h, args[0])
    }
}

/// `RegExp.prototype.exec(text)` up to the search: the expression, the text and what is
/// to be done.
pub fn regexp_exec(heap: &mut Heap, this: JsValue, args: &[JsValue]) -> (r: Result<
    (usize, Vec<u16>, ExecPlan),
    Throw,
>)
    requires
        old(heap).wf(),
        old(heap)@.valid(this),
        valid_args(old(heap)@, args@),
        exec_input(old(heap)@, args@).len() < 0x20_0000_0000_0000,
    ensures
        final(heap).wf(),
        match receiver(old(heap)@, this, "RegExp.prototype.exec"@, Some(Kind::RegExp)) {
            Err(t) => final(heap)@ == old(heap)@ && r is Err && is_error(r->Err_0, t),
            Ok(o) => {
                let input = exec_input(old(heap)@, args@);
                let (h, plan) = begin_result(old(heap)@, o, input.len() as int);
                &&& final(heap)@ == h
                &&& r is Ok
                &&& r->Ok_0.0 == o
                &&& r->Ok_0.1@ == input
                &&& r->Ok_0.2 == plan
            },
        },
{
    let obj: usize = match this_regexp(heap, this, "RegExp.prototype.exec") {
        Ok(o) => o,
        Err(t) => {
            return Err(t);
        },
    };
    let input: Vec<u16> = if args.len() == 0 {
        let none: Vec<u16> = Vec::new();
        proof {
            assert(none@ =~= Seq::<u16>::empty());
        }
        none
    } else {
        to_text(heap, args[0])
    };
    let plan: ExecPlan = exec_begin(heap, obj, input.len());
    Ok((obj, input, plan))
}

/// What `RegExp.prototype.test` makes of the result of `exec`.
pub fn regexp_test(found: JsValue) -> (r: JsValue)
    ensures
        r == JsValue::Bool(found != JsValue::Null),
{
    JsValue::Bool(found != JsValue::Null)
}

/// Flags that were put in order are asked for unchanged.
proof fn lemma_flags_again(t: Seq<u16>)
    requires
        flags_of(t) is Ok,
    ensures
        flags_of(flags_of(t)->Ok_0) == flags_of(t),
{
    let g = ordered_flags(chars_of(t));
    let f = utf16_of(g);
    law_flag_order(chars_of(t), chars_of(t));
    assert forall|i: int| 0 <= i < g.len() implies 0 <= (#[trigger] g[i] as int) < 0x80 by {
        assert(g.contains(g[i]));
        lemma_flags_ascii(chars_of(t), g[i]);
    }
    lemma_ascii_units(g);
    assert(well_formed(f) =~= f) by {
        assert forall|i: int| 0 <= i < f.len() implies #[trigger] well_formed(f)[i] == f[i] by {
            assert(f[i] as int == g[i] as int);
        }
    }
    assert(spells(g, f));
    law_units_unique(chars_of(f), g);
}

/// Every flag is a lower-case letter.
proof fn lemma_flags_ascii(s: Seq<char>, c: char)
    requires
        ordered_flags(s).contains(c),
    ensures
        0x61 <= c as int <= 0x7a,
{
    let o = ordered_flags(s);
    let i = choose|i: int| 0 <= i < o.len() && o[i] == c;
    assert(o[i] == c);
    assert(c == 'd' || c == 'g' || c == 'i' || c == 'm' || c == 's' || c == 'u' || c == 'v' || c
        == 'y');
}

/// A regular expression that is made from another has its source and its flags, and starts
/// anew.
pub proof fn law_copied_regexp(h: HeapModel, o: usize, a: usize, b: usize, asked: Seq<u16>)
    requires
        h.distinct_texts(),
        o < h.objects.len(),
        h.texts.len() <= usize::MAX,
        h.objects[o as int].kind == Kind::RegExp,
        h.objects[o as int].inner.len() >= 3,
        h.objects[o as int].inner[0] == JsValue::Text(a),
        h.objects[o as int].inner[1] == JsValue::Text(b),
        a < h.texts.len(),
        b < h.texts.len(),
        h.texts[a as int].len() > 0,
        flags_of(asked) == Ok::<Seq<u16>, Seq<char>>(h.texts[b as int]),
    ensures
        made_regexp(h, seq![JsValue::Object(o)], None) == (
            h.with_new(
                ObjModel {
                    inner: regexp_slots(a, b, JsValue::Smi(0)),
                    ..plain_object(Kind::RegExp)
                },
            ),
            Ok::<JsValue, Fault>(JsValue::Object(h.objects.len() as usize)),
        ),
{
    lemma_flags_again(asked);
    lemma_text_id(h, a as int);
    lemma_text_id(h, b as int);
}

} // verus!

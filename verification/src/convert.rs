//! Conversions of values to numbers and texts, and comparisons of values.
use vstd::prelude::*;

use crate::bigint::{bytes_value, is_zero};
use crate::decimal::{parse_double, text_double};
use crate::double::{
    NAN, equal, feq, from_i64, int_double, integral, is_integral, is_nan, nan, to_i64,
    trunc_int,
};
use crate::heap::{Heap, HeapModel, JsObject};
use crate::text::{
    double_text, int_text, integer_text, number_text, push_all, to_well_formed, trim, trimmed,
    utf16, utf16_of, well_formed,
};
use crate::value::{JsValue, Kind, Throw};

verus! {

/// Whether an exception is an error with the given text.
pub open spec fn is_error(t: Throw, text: Seq<char>) -> bool {
    t matches Throw::Error(s) && s@ == text
}

/// An error with the given text.
pub fn error(text: &str) -> (r: Throw)
    ensures
        is_error(r, text@),
{
    Throw::Error(text.to_owned())
}

/// An error whose text is made of three parts.
pub fn error3(a: &str, b: &str, c: &str) -> (r: Throw)
    ensures
        is_error(r, a@ + b@ + c@),
{
    let mut s: String = a.to_owned();
    s.append(b);
    s.append(c);
    Throw::Error(s)
}

// ---------------------------------------------------------------------------
// Numbers
// ---------------------------------------------------------------------------

/// The number that a value is, `None` where it is no number.
pub open spec fn as_number(v: JsValue) -> Option<u64> {
    match v {
        JsValue::Smi(n) => Some(int_double(n as int)),
        JsValue::Double(b) => Some(b),
        _ => None,
    }
}

/// `ToNumber`: booleans and `null` are 0 and 1, a text is the decimal that it spells
/// between white space, and everything else is not a number.
pub open spec fn number_of(h: HeapModel, v: JsValue) -> u64 {
    match v {
        JsValue::Smi(n) => int_double(n as int),
        JsValue::Double(b) => b,
        JsValue::Bool(true) => int_double(1),
        JsValue::Bool(false) => int_double(0),
        JsValue::Null => int_double(0),
        JsValue::Text(n) => {
            let t = trimmed(well_formed(h.texts[n as int]));
            if t.len() == 0 {
                int_double(0)
            } else {
                match text_double(t) {
                    Some(b) => b,
                    None => NAN,
                }
            }
        },
        _ => NAN,
    }
}

/// The number that a value is.
pub fn value_number(v: JsValue) -> (r: Option<u64>)
    ensures
        r == as_number(v),
{
    match v {
        JsValue::Smi(n) => Some(from_i64(n as i64)),
        JsValue::Double(b) => Some(b),
        _ => None,
    }
}

/// `ToNumber`.
pub fn to_number(heap: &Heap, v: JsValue) -> (r: u64)
    requires
        heap@.valid(v),
    ensures
        r == number_of(heap@, v),
{
    match v {
        JsValue::Smi(n) => from_i64(n as i64),
        JsValue::Double(b) => b,
        JsValue::Bool(x) => if x {
            from_i64(1)
        } else {
            from_i64(0)
        },
        JsValue::Null => from_i64(0),
        JsValue::Text(n) => {
            let t: Vec<u16> = trim(to_well_formed(heap.text(n).as_slice()).as_slice());
            if t.len() == 0 {
                return from_i64(0);
            }
            match parse_double(t.as_slice()) {
                Some(b) => b,
                None => NAN,
            }
        },
        _ => NAN,
    }
}

/// A number as a value: a small integer where it is one, else a double.
pub open spec fn number_value(b: u64) -> JsValue {
    if is_integral(b) && i32::MIN <= trunc_int(b) <= i32::MAX {
        JsValue::Smi(trunc_int(b) as i32)
    } else {
        JsValue::Double(b)
    }
}

/// A number as a value: a small integer where it is one, else a double.
pub fn js_number(b: u64) -> (r: JsValue)
    ensures
        r == number_value(b),
{
    if integral(b) {
        let n: i64 = to_i64(b);
        if -0x8000_0000 <= n && n <= 0x7fff_ffff {
            return JsValue::Smi(n as i32);
        }
    }
    JsValue::Double(b)
}

/// An integer as a value: a small integer where it is in range, else a double.
pub open spec fn int_value(n: int) -> JsValue {
    if i32::MIN <= n <= i32::MAX {
        JsValue::Smi(n as i32)
    } else {
        JsValue::Double(int_double(n))
    }
}

/// An integer as a value: a small integer where it is in range, else a double.
pub fn smi_or_f64(n: i64) -> (r: JsValue)
    ensures
        r == int_value(n as int),
{
    if -0x8000_0000 <= n && n <= 0x7fff_ffff {
        JsValue::Smi(n as i32)
    } else {
        JsValue::Double(from_i64(n))
    }
}

// ---------------------------------------------------------------------------
// Texts
// ---------------------------------------------------------------------------

/// Text of a value that is neither a text nor an array.
pub open spec fn display(v: JsValue) -> Seq<u16> {
    match v {
        JsValue::Smi(n) => int_text(n as int),
        JsValue::Double(b) => double_text(b),
        JsValue::Bool(true) => utf16_of("true"@),
        JsValue::Bool(false) => utf16_of("false"@),
        JsValue::Undefined => utf16_of("undefined"@),
        JsValue::Null => utf16_of("null"@),
        JsValue::Object(_) => utf16_of("[object Object]"@),
        _ => utf16_of("<unprintable>"@),
    }
}

/// Text of a value that is neither a text nor an array.
pub fn display_text(v: JsValue) -> (r: Vec<u16>)
    ensures
        r@ == display(v),
{
    match v {
        JsValue::Smi(n) => integer_text(n as i64),
        JsValue::Double(b) => number_text(b),
        JsValue::Bool(x) => if x {
            utf16("true")
        } else {
            utf16("false")
        },
        JsValue::Undefined => utf16("undefined"),
        JsValue::Null => utf16("null"),
        JsValue::Object(_) => utf16("[object Object]"),
        _ => utf16("<unprintable>"),
    }
}

/// Depth past which nested arrays are left out of their texts.
pub const MAX_JOIN_DEPTH: u64 = 8;

/// The first `k` elements joined by commas: `undefined`, `null` and holes are empty,
/// nested arrays are joined in turn down to [`MAX_JOIN_DEPTH`].
pub open spec fn joined(h: HeapModel, s: Seq<JsValue>, k: nat, depth: nat) -> Seq<u16>
    decreases 9 - depth, k,
{
    if k == 0 || depth > MAX_JOIN_DEPTH {
        seq![]
    } else {
        let head = if k == 1 {
            seq![]
        } else {
            joined(h, s, (k - 1) as nat, depth) + seq![0x2cu16]
        };
        head + match s[k - 1] {
            JsValue::Undefined => seq![],
            JsValue::Null => seq![],
            JsValue::Hole => seq![],
            JsValue::Text(n) => well_formed(h.texts[n as int]),
            JsValue::Object(o) => if h.objects[o as int].kind == Kind::Array {
                joined(
                    h,
                    h.objects[o as int].elements,
                    h.objects[o as int].elements.len(),
                    depth + 1,
                )
            } else {
                display(s[k - 1])
            },
            _ => display(s[k - 1]),
        }
    }
}

/// The elements of an array joined by commas.
fn array_join_text(heap: &Heap, o: usize, depth: u64) -> (r: Vec<u16>)
    requires
        heap.wf(),
        o < heap@.objects.len(),
        depth <= 9,
    ensures
        r@ == joined(
            heap@,
            heap@.objects[o as int].elements,
            heap@.objects[o as int].elements.len(),
            depth as nat,
        ),
    decreases 9 - depth,
{
    let mut out: Vec<u16> = Vec::new();
    if depth > MAX_JOIN_DEPTH {
        return out;
    }
    let object: &JsObject = heap.object(o);
    let ghost s = heap@.objects[o as int].elements;
    let mut i: usize = 0;
    while i < object.elements.len()
        invariant
            heap.wf(),
            depth <= 8,
            s == object@.elements,
            heap@.valid_refs(object@),
            i <= s.len(),
            out@ == joined(heap@, s, i as nat, depth as nat),
        decreases s.len() - i,
    {
        if i > 0 {
            out.push(0x2c);
        }
        proof {
            assert(heap@.valid(s[i as int]));
        }
        let ghost head = if i == 0 {
            seq![]
        } else {
            joined(heap@, s, i as nat, depth as nat) + seq![0x2cu16]
        };
        proof {
            assert(out@ =~= head);
        }
        let v: JsValue = object.elements[i];
        match v {
            JsValue::Undefined | JsValue::Null | JsValue::Hole => {
                proof {
                    assert(head + seq![] =~= head);
                }
            },
            JsValue::Text(n) => {
                push_all(&mut out, to_well_formed(heap.text(n).as_slice()).as_slice());
            },
            JsValue::Object(k) => {
                if heap.object(k).kind == Kind::Array {
                    let inner: Vec<u16> = array_join_text(heap, k, depth + 1);
                    push_all(&mut out, inner.as_slice());
                } else {
                    push_all(&mut out, display_text(v).as_slice());
                }
            },
            _ => {
                push_all(&mut out, display_text(v).as_slice());
            },
        }
        proof {
            assert(((i + 1) as nat - 1) as nat == i as nat);
        }
        i = i + 1;
    }
    out
}

/// Text of a value: a text is itself with lone surrogates replaced, an array is its
/// elements joined by commas, everything else is as [`display`] has it.
pub open spec fn text_of(h: HeapModel, v: JsValue) -> Seq<u16> {
    match v {
        JsValue::Text(n) => well_formed(h.texts[n as int]),
        JsValue::Object(o) => if h.objects[o as int].kind == Kind::Array {
            joined(h, h.objects[o as int].elements, h.objects[o as int].elements.len(), 0)
        } else {
            display(v)
        },
        _ => display(v),
    }
}

/// Text of a value.
pub fn to_text(heap: &Heap, v: JsValue) -> (r: Vec<u16>)
    requires
        heap.wf(),
        heap@.valid(v),
    ensures
        r@ == text_of(heap@, v),
{
    match v {
        JsValue::Text(n) => to_well_formed(heap.text(n).as_slice()),
        JsValue::Object(o) => if heap.object(o).kind == Kind::Array {
            array_join_text(heap, o, 0)
        } else {
            display_text(v)
        },
        _ => display_text(v),
    }
}

// ---------------------------------------------------------------------------
// Comparisons
// ---------------------------------------------------------------------------

/// `IsStrictlyEqual`: numbers by value, everything else by identity; texts are kept
/// once, so that their numbers tell them apart. Holes equal nothing.
pub open spec fn strictly_equal(a: JsValue, b: JsValue) -> bool {
    match (as_number(a), as_number(b)) {
        (Some(x), Some(y)) => equal(x, y),
        (None, None) => a == b && a != JsValue::Hole,
        _ => false,
    }
}

/// `IsStrictlyEqual`.
pub fn strict_equals(a: JsValue, b: JsValue) -> (r: bool)
    ensures
        r == strictly_equal(a, b),
{
    match (value_number(a), value_number(b)) {
        (Some(x), Some(y)) => feq(x, y),
        (None, None) => a == b && a != JsValue::Hole,
        _ => false,
    }
}

/// Whether a value is a double that is not a number.
pub open spec fn is_nan_value(v: JsValue) -> bool {
    v matches JsValue::Double(b) && is_nan(b)
}

/// `SameValueZero`: like [`strictly_equal`], but not-a-number equals itself.
pub open spec fn same_value_zero_of(a: JsValue, b: JsValue) -> bool {
    (is_nan_value(a) && is_nan_value(b)) || strictly_equal(a, b)
}

/// `SameValueZero`.
pub fn same_value_zero(a: JsValue, b: JsValue) -> (r: bool)
    ensures
        r == same_value_zero_of(a, b),
{
    match (a, b) {
        (JsValue::Double(x), JsValue::Double(y)) => if nan(x) && nan(y) {
            return true;
        },
        _ => {},
    }
    strict_equals(a, b)
}

/// Every value but a hole is the same as itself.
pub proof fn law_same_value_reflexive(a: JsValue)
    ensures
        same_value_zero_of(a, a) == (a != JsValue::Hole),
{
    if a is Smi {
        crate::double::lemma_int_exact(a->Smi_0 as int);
    }
}

/// Both comparisons are symmetric.
pub proof fn law_equality_symmetric(a: JsValue, b: JsValue)
    ensures
        strictly_equal(a, b) == strictly_equal(b, a),
        same_value_zero_of(a, b) == same_value_zero_of(b, a),
{
}

/// Values that are strictly equal to one value are strictly equal to each other.
pub proof fn law_equality_transitive(a: JsValue, b: JsValue, c: JsValue)
    requires
        strictly_equal(a, b),
        strictly_equal(b, c),
    ensures
        strictly_equal(a, c),
{
}

/// `ToBoolean`: false, `undefined`, `null`, zero of either kind, not-a-number and the
/// empty text are false, and so is a hole; true, other numbers, other big integers, other
/// texts, symbols and objects are true.
pub open spec fn truthy(h: HeapModel, v: JsValue) -> bool {
    match v {
        JsValue::Bool(x) => x,
        JsValue::Smi(n) => n != 0,
        JsValue::Double(b) => !is_nan(b) && !equal(b, int_double(0)),
        JsValue::Text(n) => h.texts[n as int].len() > 0,
        JsValue::BigInt(n) => bytes_value(h.bigints[n as int].1, 0) != 0,
        JsValue::Symbol(_) | JsValue::Object(_) => true,
        JsValue::Undefined | JsValue::Null | JsValue::Hole => false,
    }
}

/// `ToBoolean`.
pub fn to_boolean(heap: &Heap, v: JsValue) -> (r: bool)
    requires
        heap@.valid(v),
    ensures
        r == truthy(heap@, v),
{
    match v {
        JsValue::Bool(x) => x,
        JsValue::Smi(n) => n != 0,
        JsValue::Double(b) => !nan(b) && !feq(b, from_i64(0)),
        JsValue::Text(n) => heap.text(n).len() > 0,
        JsValue::BigInt(n) => !is_zero(&heap.bigint(n).magnitude_le),
        JsValue::Symbol(_) | JsValue::Object(_) => true,
        JsValue::Undefined | JsValue::Null | JsValue::Hole => false,
    }
}

} // verus!

//! `String` and its methods on texts.
use vstd::prelude::*;

use crate::convert::{
    as_number, error, error3, int_value, is_error, number_of, smi_or_f64, text_of, to_number,
    to_text, value_number,
};
use crate::ctx::{arg, arg_of, valid_args};
use crate::descriptor::{Fault, is_fault};
use crate::double::{
    NAN, below, finite, flt, from_i64, int_double, integral, is_finite, is_infinite,
    is_integral, is_nan, nan, saturated, to_i64,
};
use crate::heap::{Heap, HeapModel};
use crate::json_text::repeated;
use crate::text::{
    char_units, chars_of, copy_range, is_high, is_low, push_all, to_chars, to_well_formed,
    utf16, utf16_of, well_formed,
};
use crate::value::{JsValue, Throw};

verus! {

/// Whether a function left the heap and returned the result that are expected.
pub open spec fn heap_ends_in(
    after: Heap,
    r: Result<JsValue, Throw>,
    expected: (HeapModel, Result<JsValue, Fault>),
) -> bool {
    &&& after.wf()
    &&& after@ == expected.0
    &&& match expected.1 {
        Ok(v) => r == Ok::<JsValue, Throw>(v) && after@.valid(v),
        Err(f) => r is Err && is_fault(r->Err_0, f),
    }
}

/// A text as a result.
pub open spec fn text_result(h: HeapModel, t: Seq<u16>) -> (HeapModel, Result<JsValue, Fault>) {
    (h.interned(t), Ok(JsValue::Text(h.text_id(t))))
}

/// A text as a result.
pub fn text_value(heap: &mut Heap, t: &[u16]) -> (r: Result<JsValue, Throw>)
    requires
        old(heap).wf(),
    ensures
        heap_ends_in(*final(heap), r, text_result(old(heap)@, t@)),
{
    Ok(JsValue::Text(heap.intern(t)))
}

/// Text of the error of a method that is called on something else than a text.
pub open spec fn not_a_text(method: Seq<char>) -> Seq<char> {
    "TypeError: String.prototype."@ + method + " requires that 'this' be a String"@
}

/// The text that a receiver is.
pub open spec fn receiver_text(h: HeapModel, this: JsValue, method: Seq<char>) -> Result<
    Seq<u16>,
    Fault,
> {
    match this {
        JsValue::Text(n) => Ok(well_formed(h.texts[n as int])),
        _ => Err(Fault::Text(not_a_text(method))),
    }
}

/// The text that a receiver is.
fn this_text(heap: &Heap, this: JsValue, method: &str) -> (r: Result<Vec<u16>, Throw>)
    requires
        heap@.valid(this),
    ensures
        match receiver_text(heap@, this, method@) {
            Ok(t) => r is Ok && r->Ok_0@ == t,
            Err(f) => r is Err && is_fault(r->Err_0, f),
        },
{
    match this {
        JsValue::Text(n) => Ok(to_well_formed(heap.text(n).as_slice())),
        _ => Err(
            error3("TypeError: String.prototype.", method, " requires that 'this' be a String"),
        ),
    }
}

/// Text of an argument, `undefined` spelled out where it is missing.
pub open spec fn arg_text_of(h: HeapModel, args: Seq<JsValue>, i: int) -> Seq<u16> {
    if 0 <= i < args.len() {
        text_of(h, args[i])
    } else {
        utf16_of("undefined"@)
    }
}

/// Text of an argument.
fn arg_text(heap: &Heap, args: &[JsValue], i: usize) -> (r: Vec<u16>)
    requires
        heap.wf(),
        valid_args(heap@, args@),
    ensures
        r@ == arg_text_of(heap@, args@, i as int),
{
    if i < args.len() {
        to_text(heap, args[i])
    } else {
        utf16("undefined")
    }
}

/// An argument as an integer: 0 where it is missing, `undefined` or not a number.
pub open spec fn int_of(h: HeapModel, v: JsValue) -> int {
    if v == JsValue::Undefined {
        0
    } else {
        saturated(number_of(h, v))
    }
}

/// An argument as an integer.
fn to_int(heap: &Heap, v: JsValue) -> (r: i64)
    requires
        heap@.valid(v),
    ensures
        r == int_of(heap@, v),
{
    if v == JsValue::Undefined {
        0
    } else {
        to_i64(to_number(heap, v))
    }
}

// ---------------------------------------------------------------------------
// Indices
// ---------------------------------------------------------------------------

/// An index that counts from the end where it is negative, held between 0 and `len`.
pub open spec fn clamped_index(index: int, len: int) -> int {
    if index < 0 {
        if len + index < 0 {
            0
        } else {
            len + index
        }
    } else if index > len {
        len
    } else {
        index
    }
}

/// An index that counts from the end where it is negative, held between 0 and `len`.
pub fn clamp_index(index: i64, len: i64) -> (r: i64)
    requires
        0 <= len,
    ensures
        r == clamped_index(index as int, len as int),
        0 <= r <= len,
{
    if index < 0 {
        if len + index < 0 {
            0
        } else {
            len + index
        }
    } else if index > len {
        len
    } else {
        index
    }
}

/// A finite number as an index.
pub open spec fn plain_index(v: JsValue) -> Option<int> {
    match as_number(v) {
        Some(b) => if is_finite(b) {
            Some(saturated(b))
        } else {
            None
        },
        None => None,
    }
}

/// A finite number as an index.
fn to_index(v: JsValue) -> (r: Option<i64>)
    ensures
        match plain_index(v) {
            Some(n) => r is Some && r->0 == n,
            None => r is None,
        },
{
    proof {
        if v is Smi {
            crate::double::lemma_int_exact(v->Smi_0 as int);
        }
    }
    match value_number(v) {
        Some(b) => if finite(b) {
            Some(to_i64(b))
        } else {
            None
        },
        None => None,
    }
}

/// The text that a receiver is, or the error of a method that is called on something
/// else.
pub open spec fn raw_text(h: HeapModel, this: JsValue, method: Seq<char>) -> Result<Seq<u16>, Fault> {
    match this {
        JsValue::Text(n) => Ok(h.texts[n as int]),
        _ => Err(Fault::Text("TypeError: "@ + method + " called on non-string"@)),
    }
}

/// The number of the text that a receiver is.
pub fn this_string(this: JsValue, method: &str) -> (r: Result<usize, Throw>)
    ensures
        match this {
            JsValue::Text(n) => r == Ok::<usize, Throw>(n),
            _ => r is Err && is_error(r->Err_0, "TypeError: "@ + method@ + " called on non-string"@),
        },
{
    match this {
        JsValue::Text(n) => Ok(n),
        _ => Err(error3("TypeError: ", method, " called on non-string")),
    }
}

/// What `charAt` does.
pub open spec fn char_at_result(h: HeapModel, this: JsValue, args: Seq<JsValue>) -> (
    HeapModel,
    Result<JsValue, Fault>,
) {
    match raw_text(h, this, "String.prototype.charAt"@) {
        Err(f) => (h, Err(f)),
        Ok(t) => {
            let i = match plain_index(arg_of(args, 0)) {
                Some(n) => n,
                None => 0,
            };
            text_result(
                h,
                if 0 <= i < t.len() {
                    seq![t[i]]
                } else {
                    seq![]
                },
            )
        },
    }
}

/// `String.prototype.charAt(index)`.
pub fn string_char_at(heap: &mut Heap, this: JsValue, args: &[JsValue]) -> (r: Result<JsValue, Throw>)
    requires
        old(heap).wf(),
        old(heap)@.valid(this),
        valid_args(old(heap)@, args@),
    ensures
        heap_ends_in(*final(heap), r, char_at_result(old(heap)@, this, args@)),
{
    let n: usize = match this_string(this, "String.prototype.charAt") {
        Ok(n) => n,
        Err(t) => {
            return Err(t);
        },
    };
    let i: i64 = match to_index(arg(args, 0)) {
        Some(i) => i,
        None => 0,
    };
    let t: &Vec<u16> = heap.text(n);
    let mut unit: Vec<u16> = Vec::new();
    if 0 <= i && (i as u64) < t.len() as u64 {
        unit.push(t[i as usize]);
    }
    proof {
        let s = heap@.texts[n as int];
        assert(unit@ =~= if 0 <= i < s.len() {
            seq![s[i as int]]
        } else {
            seq![]
        });
    }
    text_value(heap, unit.as_slice())
}

/// What `slice` does.
pub open spec fn slice_result(h: HeapModel, this: JsValue, args: Seq<JsValue>) -> (
    HeapModel,
    Result<JsValue, Fault>,
) {
    match raw_text(h, this, "String.prototype.slice"@) {
        Err(f) => (h, Err(f)),
        Ok(t) => {
            let len = t.len() as int;
            let a = clamped_index(
                match plain_index(arg_of(args, 0)) {
                    Some(n) => n,
                    None => 0,
                },
                len,
            );
            let b = clamped_index(
                match plain_index(arg_of(args, 1)) {
                    Some(n) => n,
                    None => len,
                },
                len,
            );
            text_result(
                h,
                if a < b {
                    t.subrange(a, b)
                } else {
                    seq![]
                },
            )
        },
    }
}

/// Whether a text has a length that fits into 63 bits.
pub open spec fn countable_text(h: HeapModel, v: JsValue) -> bool {
    v matches JsValue::Text(n) ==> h.texts[n as int].len() <= i64::MAX
}

/// `String.prototype.slice(start, end)`.
pub fn string_slice(heap: &mut Heap, this: JsValue, args: &[JsValue]) -> (r: Result<JsValue, Throw>)
    requires
        old(heap).wf(),
        old(heap)@.valid(this),
        valid_args(old(heap)@, args@),
        countable_text(old(heap)@, this),
    ensures
        heap_ends_in(*final(heap), r, slice_result(old(heap)@, this, args@)),
{
    let n: usize = match this_string(this, "String.prototype.slice") {
        Ok(n) => n,
        Err(t) => {
            return Err(t);
        },
    };
    let t: &Vec<u16> = heap.text(n);
    let len: i64 = t.len() as i64;
    let start: i64 = match to_index(arg(args, 0)) {
        Some(i) => i,
        None => 0,
    };
    let end: i64 = match to_index(arg(args, 1)) {
        Some(i) => i,
        None => len,
    };
    let a: i64 = clamp_index(start, len);
    let b: i64 = clamp_index(end, len);
    let part: Vec<u16> = if a < b {
        copy_range(t.as_slice(), a as usize, b as usize)
    } else {
        Vec::new()
    };
    proof {
        let s = heap@.texts[n as int];
        assert(part@ =~= if a < b {
            s.subrange(a as int, b as int)
        } else {
            seq![]
        });
    }
    text_value(heap, part.as_slice())
}

/// UTF-16 units of the first `k` characters.
pub open spec fn units_of(s: Seq<char>, k: int) -> nat
    decreases k,
{
    if k <= 0 {
        0
    } else {
        units_of(s, k - 1) + char_units(s[k - 1]).len()
    }
}

/// UTF-8 bytes of a character.
pub open spec fn char_bytes(c: char) -> nat {
    let n = c as u32;
    if n < 0x80 {
        1
    } else if n < 0x800 {
        2
    } else if n < 0x1_0000 {
        3
    } else {
        4
    }
}

/// UTF-8 bytes of the first `k` characters.
pub open spec fn bytes_of(s: Seq<char>, k: int) -> nat
    decreases k,
{
    if k <= 0 {
        0
    } else {
        bytes_of(s, k - 1) + char_bytes(s[k - 1])
    }
}

/// How many characters from `k` on it takes to reach a number of units, or all.
pub open spec fn chars_reaching(s: Seq<char>, units: int, k: int) -> int
    decreases s.len() - k,
{
    if k >= s.len() || units_of(s, k) >= units {
        k
    } else {
        chars_reaching(s, units, k + 1)
    }
}

/// Byte offset of a UTF-16 index; one inside a character is that of the next one.
pub fn utf16_byte_offset(text: &str, units: usize) -> (r: u128)
    ensures
        r == bytes_of(text@, chars_reaching(text@, units as int, 0)),
{
    let n: usize = text.unicode_len();
    let mut count: u128 = 0;
    let mut bytes: u128 = 0;
    let mut i: usize = 0;
    while i < n && count < units as u128
        invariant
            n == text@.len(),
            i <= n,
            count == units_of(text@, i as int),
            bytes == bytes_of(text@, i as int),
            count <= 2 * i,
            bytes <= 4 * i,
            chars_reaching(text@, units as int, 0) == chars_reaching(text@, units as int, i as int),
        decreases n - i,
    {
        let c: char = text.get_char(i);
        let v: u32 = c as u32;
        count = count + if v < 0x1_0000 {
            1
        } else {
            2
        };
        bytes = bytes + if v < 0x80 {
            1
        } else if v < 0x800 {
            2
        } else if v < 0x1_0000 {
            3
        } else {
            4
        };
        i = i + 1;
    }
    bytes
}

// ---------------------------------------------------------------------------
// Searching
// ---------------------------------------------------------------------------

/// Whether a text stands in another at an index.
pub open spec fn stands_at(s: Seq<u16>, needle: Seq<u16>, i: int) -> bool {
    0 <= i && i + needle.len() <= s.len() && s.subrange(i, i + needle.len()) == needle
}

/// The first index from `i` on at which a text stands in another.
pub open spec fn found_from(s: Seq<u16>, needle: Seq<u16>, i: int) -> Option<int>
    decreases s.len() + 1 - i,
{
    if i > s.len() {
        None
    } else if stands_at(s, needle, i) {
        Some(i)
    } else {
        found_from(s, needle, i + 1)
    }
}

/// The first index at or after `from` at which a text stands in another; the empty text
/// stands everywhere up to the end.
pub open spec fn found_in(s: Seq<u16>, needle: Seq<u16>, from: int) -> Option<int> {
    if needle.len() == 0 {
        Some(
            if from < s.len() {
                from
            } else {
                s.len() as int
            },
        )
    } else {
        found_from(s, needle, from)
    }
}

/// Whether a text stands in another at an index.
fn is_at(s: &[u16], needle: &[u16], i: usize) -> (r: bool)
    ensures
        r == stands_at(s@, needle@, i as int),
{
    let n: usize = needle.len();
    let len: usize = s.len();
    if i > len || len - i < n {
        return false;
    }
    let mut k: usize = 0;
    while k < n
        invariant
            n == needle@.len(),
            len == s@.len(),
            i + n <= len,
            k <= n,
            forall|j: int| 0 <= j < k ==> s@[i + j] == #[trigger] needle@[j],
        decreases n - k,
    {
        if s[i + k] != needle[k] {
            proof {
                assert(s@.subrange(i as int, i + n)[k as int] != needle@[k as int]);
            }
            return false;
        }
        k = k + 1;
    }
    proof {
        assert(s@.subrange(i as int, i + n) =~= needle@);
    }
    true
}

/// The first index at or after `from` at which a text stands in another.
pub fn utf16_find(haystack: &[u16], needle: &[u16], from: usize) -> (r: Option<usize>)
    ensures
        match found_in(haystack@, needle@, from as int) {
            Some(i) => r is Some && r->0 == i && i <= haystack@.len() && (needle@.len() > 0
                ==> i + needle@.len() <= haystack@.len() && i >= from),
            None => r is None,
        },
{
    let n: usize = haystack.len();
    if needle.len() == 0 {
        return Some(
            if from < n {
                from
            } else {
                n
            },
        );
    }
    let mut i: usize = from;
    while i < n
        invariant
            n == haystack@.len(),
            needle@.len() > 0,
            from <= i,
            found_from(haystack@, needle@, from as int) == found_from(
                haystack@,
                needle@,
                i as int,
            ),
        decreases n - i,
    {
        if is_at(haystack, needle, i) {
            return Some(i);
        }
        i = i + 1;
    }
    proof {
        if i == n {
            assert(!stands_at(haystack@, needle@, n as int));
            assert(found_from(haystack@, needle@, n + 1) is None);
        }
    }
    None
}

/// The last index up to `i` at which a text stands in another.
pub open spec fn found_back(s: Seq<u16>, needle: Seq<u16>, i: int) -> Option<int>
    decreases i + 1,
{
    if i < 0 {
        None
    } else if stands_at(s, needle, i) {
        Some(i)
    } else {
        found_back(s, needle, i - 1)
    }
}

/// An index or `-1`, as a value.
pub open spec fn index_value(i: Option<int>) -> JsValue {
    match i {
        Some(n) => int_value(n),
        None => int_value(-1),
    }
}

/// A from-index: what is negative is 0.
pub open spec fn from_index(h: HeapModel, v: JsValue) -> int {
    if int_of(h, v) < 0 {
        0
    } else {
        int_of(h, v)
    }
}

/// A from-index, at most the length and one more.
fn start_index(heap: &Heap, v: JsValue, len: usize) -> (r: usize)
    requires
        heap@.valid(v),
        len < usize::MAX,
    ensures
        r == from_index(heap@, v) || (r == len + 1 && from_index(heap@, v) > len),
        r <= len + 1,
{
    let n: i64 = to_int(heap, v);
    if n < 0 {
        0
    } else if n as u64 > len as u64 {
        len + 1
    } else {
        n as usize
    }
}

proof fn lemma_found_past(s: Seq<u16>, needle: Seq<u16>, i: int, j: int)
    requires
        i > s.len(),
        j > s.len(),
    ensures
        found_in(s, needle, i) == found_in(s, needle, j),
{
}

/// What `indexOf` does.
pub open spec fn index_of_result(h: HeapModel, this: JsValue, args: Seq<JsValue>) -> (
    HeapModel,
    Result<JsValue, Fault>,
) {
    match receiver_text(h, this, "indexOf"@) {
        Err(f) => (h, Err(f)),
        Ok(t) => (
            h,
            Ok(
                index_value(
                    found_in(t, arg_text_of(h, args, 0), from_index(h, arg_of(args, 1))),
                ),
            ),
        ),
    }
}

/// Whether a text leaves room for one more unit, and is countable in 63 bits.
pub open spec fn short_text(h: HeapModel, v: JsValue) -> bool {
    v matches JsValue::Text(n) ==> h.texts[n as int].len() < usize::MAX && h.texts[n as int].len()
        <= i64::MAX
}

/// `String.prototype.indexOf(search, fromIndex)`.
pub fn string_index_of(heap: &mut Heap, this: JsValue, args: &[JsValue]) -> (r: Result<
    JsValue,
    Throw,
>)
    requires
        old(heap).wf(),
        old(heap)@.valid(this),
        valid_args(old(heap)@, args@),
        short_text(old(heap)@, this),
    ensures
        heap_ends_in(*final(heap), r, index_of_result(old(heap)@, this, args@)),
{
    let t: Vec<u16> = match this_text(heap, this, "indexOf") {
        Ok(t) => t,
        Err(e) => {
            return Err(e);
        },
    };
    let search: Vec<u16> = arg_text(heap, args, 0);
    let from: usize = start_index(heap, arg(args, 1), t.len());
    proof {
        if from_index(heap@, arg_of(args@, 1)) > t@.len() {
            lemma_found_past(t@, search@, from as int, from_index(heap@, arg_of(args@, 1)));
        }
    }
    match utf16_find(t.as_slice(), search.as_slice(), from) {
        Some(i) => Ok(smi_or_f64(i as i64)),
        None => Ok(smi_or_f64(-1)),
    }
}

/// What `includes` does.
pub open spec fn includes_result(h: HeapModel, this: JsValue, args: Seq<JsValue>) -> (
    HeapModel,
    Result<JsValue, Fault>,
) {
    match receiver_text(h, this, "includes"@) {
        Err(f) => (h, Err(f)),
        Ok(t) => (
            h,
            Ok(
                JsValue::Bool(
                    found_in(t, arg_text_of(h, args, 0), from_index(h, arg_of(args, 1))) is Some,
                ),
            ),
        ),
    }
}

/// `String.prototype.includes(search, fromIndex)`.
pub fn string_includes(heap: &mut Heap, this: JsValue, args: &[JsValue]) -> (r: Result<
    JsValue,
    Throw,
>)
    requires
        old(heap).wf(),
        old(heap)@.valid(this),
        valid_args(old(heap)@, args@),
        short_text(old(heap)@, this),
    ensures
        heap_ends_in(*final(heap), r, includes_result(old(heap)@, this, args@)),
{
    let t: Vec<u16> = match this_text(heap, this, "includes") {
        Ok(t) => t,
        Err(e) => {
            return Err(e);
        },
    };
    let search: Vec<u16> = arg_text(heap, args, 0);
    let from: usize = start_index(heap, arg(args, 1), t.len());
    proof {
        if from_index(heap@, arg_of(args@, 1)) > t@.len() {
            lemma_found_past(t@, search@, from as int, from_index(heap@, arg_of(args@, 1)));
        }
    }
    Ok(JsValue::Bool(utf16_find(t.as_slice(), search.as_slice(), from).is_some()))
}

/// An end index: the length where it is missing or `undefined`, else held between 0 and
/// the length; not-a-number is the length where `whole` is set, else 0.
pub open spec fn end_index(h: HeapModel, v: JsValue, len: int, whole: bool) -> int {
    if v == JsValue::Undefined || (whole && is_nan(number_of(h, v))) {
        len
    } else {
        let n = saturated(number_of(h, v));
        if n < 0 {
            0
        } else if n > len {
            len
        } else {
            n
        }
    }
}

/// An end index.
fn to_end(heap: &Heap, v: JsValue, len: usize, whole: bool) -> (r: usize)
    requires
        heap@.valid(v),
    ensures
        r == end_index(heap@, v, len as int, whole),
        r <= len,
{
    if v == JsValue::Undefined {
        return len;
    }
    let b: u64 = to_number(heap, v);
    if whole && nan(b) {
        return len;
    }
    let n: i64 = to_i64(b);
    if n < 0 {
        0
    } else if n as u64 > len as u64 {
        len
    } else {
        n as usize
    }
}

/// What `lastIndexOf` does: the search ends before `fromIndex`.
pub open spec fn last_index_of_result(h: HeapModel, this: JsValue, args: Seq<JsValue>) -> (
    HeapModel,
    Result<JsValue, Fault>,
) {
    match receiver_text(h, this, "lastIndexOf"@) {
        Err(f) => (h, Err(f)),
        Ok(t) => {
            let end = end_index(h, arg_of(args, 1), t.len() as int, true);
            (h, Ok(index_value(found_back(t.take(end), arg_text_of(h, args, 0), end))))
        },
    }
}

/// `String.prototype.lastIndexOf(search, fromIndex)`.
pub fn string_last_index_of(heap: &mut Heap, this: JsValue, args: &[JsValue]) -> (r: Result<
    JsValue,
    Throw,
>)
    requires
        old(heap).wf(),
        old(heap)@.valid(this),
        valid_args(old(heap)@, args@),
        short_text(old(heap)@, this),
    ensures
        heap_ends_in(*final(heap), r, last_index_of_result(old(heap)@, this, args@)),
{
    let t: Vec<u16> = match this_text(heap, this, "lastIndexOf") {
        Ok(t) => t,
        Err(e) => {
            return Err(e);
        },
    };
    let search: Vec<u16> = arg_text(heap, args, 0);
    let end: usize = to_end(heap, arg(args, 1), t.len(), true);
    let part: Vec<u16> = copy_range(t.as_slice(), 0, end);
    proof {
        assert(part@ =~= t@.take(end as int));
    }
    let mut i: usize = end + 1;
    while i > 0
        invariant
            heap.wf(),
            *heap == *old(heap),
            part@.len() == end,
            end <= i64::MAX,
            i <= end + 1,
            found_back(part@, search@, end as int) == found_back(part@, search@, i - 1),
            last_index_of_result(heap@, this, args@) == (heap@, Ok::<JsValue, Fault>(
                index_value(found_back(part@, search@, end as int)),
            )),
        decreases i,
    {
        i = i - 1;
        if is_at(part.as_slice(), search.as_slice(), i) {
            return Ok(smi_or_f64(i as i64));
        }
    }
    Ok(smi_or_f64(-1))
}

/// What `startsWith` does.
pub open spec fn starts_with_result(h: HeapModel, this: JsValue, args: Seq<JsValue>) -> (
    HeapModel,
    Result<JsValue, Fault>,
) {
    match receiver_text(h, this, "startsWith"@) {
        Err(f) => (h, Err(f)),
        Ok(t) => (
            h,
            Ok(
                JsValue::Bool(
                    stands_at(t, arg_text_of(h, args, 0), from_index(h, arg_of(args, 1))),
                ),
            ),
        ),
    }
}

/// `String.prototype.startsWith(search, position)`.
pub fn string_starts_with(heap: &mut Heap, this: JsValue, args: &[JsValue]) -> (r: Result<
    JsValue,
    Throw,
>)
    requires
        old(heap).wf(),
        old(heap)@.valid(this),
        valid_args(old(heap)@, args@),
        short_text(old(heap)@, this),
    ensures
        heap_ends_in(*final(heap), r, starts_with_result(old(heap)@, this, args@)),
{
    let t: Vec<u16> = match this_text(heap, this, "startsWith") {
        Ok(t) => t,
        Err(e) => {
            return Err(e);
        },
    };
    let search: Vec<u16> = arg_text(heap, args, 0);
    let from: usize = start_index(heap, arg(args, 1), t.len());
    Ok(JsValue::Bool(is_at(t.as_slice(), search.as_slice(), from)))
}

/// What `endsWith` does.
pub open spec fn ends_with_result(h: HeapModel, this: JsValue, args: Seq<JsValue>) -> (
    HeapModel,
    Result<JsValue, Fault>,
) {
    match receiver_text(h, this, "endsWith"@) {
        Err(f) => (h, Err(f)),
        Ok(t) => {
            let end = end_index(h, arg_of(args, 1), t.len() as int, false);
            let needle = arg_text_of(h, args, 0);
            (h, Ok(JsValue::Bool(stands_at(t, needle, end - needle.len()))))
        },
    }
}

/// `String.prototype.endsWith(search, endPosition)`.
pub fn string_ends_with(heap: &mut Heap, this: JsValue, args: &[JsValue]) -> (r: Result<
    JsValue,
    Throw,
>)
    requires
        old(heap).wf(),
        old(heap)@.valid(this),
        valid_args(old(heap)@, args@),
    ensures
        heap_ends_in(*final(heap), r, ends_with_result(old(heap)@, this, args@)),
{
    let t: Vec<u16> = match this_text(heap, this, "endsWith") {
        Ok(t) => t,
        Err(e) => {
            return Err(e);
        },
    };
    let needle: Vec<u16> = arg_text(heap, args, 0);
    let end: usize = to_end(heap, arg(args, 1), t.len(), false);
    Ok(
        JsValue::Bool(
            end >= needle.len() && is_at(t.as_slice(), needle.as_slice(), end - needle.len()),
        ),
    )
}

// ---------------------------------------------------------------------------
// Single units
// ---------------------------------------------------------------------------

/// What `charCodeAt` does.
pub open spec fn char_code_at_result(h: HeapModel, this: JsValue, args: Seq<JsValue>) -> (
    HeapModel,
    Result<JsValue, Fault>,
) {
    match receiver_text(h, this, "charCodeAt"@) {
        Err(f) => (h, Err(f)),
        Ok(t) => {
            let i = int_of(h, arg_of(args, 0));
            (
                h,
                Ok(
                    if 0 <= i < t.len() {
                        JsValue::Smi(t[i] as i32)
                    } else {
                        JsValue::Double(NAN)
                    },
                ),
            )
        },
    }
}

/// `String.prototype.charCodeAt(index)`.
pub fn string_char_code_at(heap: &mut Heap, this: JsValue, args: &[JsValue]) -> (r: Result<
    JsValue,
    Throw,
>)
    requires
        old(heap).wf(),
        old(heap)@.valid(this),
        valid_args(old(heap)@, args@),
    ensures
        heap_ends_in(*final(heap), r, char_code_at_result(old(heap)@, this, args@)),
{
    let t: Vec<u16> = match this_text(heap, this, "charCodeAt") {
        Ok(t) => t,
        Err(e) => {
            return Err(e);
        },
    };
    let i: i64 = to_int(heap, arg(args, 0));
    if 0 <= i && (i as u64) < t.len() as u64 {
        Ok(JsValue::Smi(t[i as usize] as i32))
    } else {
        Ok(JsValue::Double(NAN))
    }
}

/// The code point of the character at an index.
pub open spec fn code_point(t: Seq<u16>, i: int) -> int {
    if is_high(t[i]) && i + 1 < t.len() && is_low(t[i + 1]) {
        0x1_0000 + (t[i] - 0xd800) * 0x400 + (t[i + 1] - 0xdc00)
    } else {
        t[i] as int
    }
}

/// What `codePointAt` does.
pub open spec fn code_point_at_result(h: HeapModel, this: JsValue, args: Seq<JsValue>) -> (
    HeapModel,
    Result<JsValue, Fault>,
) {
    match receiver_text(h, this, "codePointAt"@) {
        Err(f) => (h, Err(f)),
        Ok(t) => {
            let i = int_of(h, arg_of(args, 0));
            (
                h,
                Ok(
                    if 0 <= i < t.len() {
                        int_value(code_point(t, i))
                    } else {
                        JsValue::Undefined
                    },
                ),
            )
        },
    }
}

/// `String.prototype.codePointAt(index)`.
pub fn string_code_point_at(heap: &mut Heap, this: JsValue, args: &[JsValue]) -> (r: Result<
    JsValue,
    Throw,
>)
    requires
        old(heap).wf(),
        old(heap)@.valid(this),
        valid_args(old(heap)@, args@),
    ensures
        heap_ends_in(*final(heap), r, code_point_at_result(old(heap)@, this, args@)),
{
    let t: Vec<u16> = match this_text(heap, this, "codePointAt") {
        Ok(t) => t,
        Err(e) => {
            return Err(e);
        },
    };
    let i: i64 = to_int(heap, arg(args, 0));
    if i < 0 || i as u64 >= t.len() as u64 {
        return Ok(JsValue::Undefined);
    }
    let k: usize = i as usize;
    let u: u16 = t[k];
    if 0xd800 <= u && u <= 0xdbff && t.len() - k > 1 && 0xdc00 <= t[k + 1] && t[k + 1] <= 0xdfff {
        let low: u16 = t[k + 1];
        return Ok(
            smi_or_f64(0x1_0000 + (u as i64 - 0xd800) * 0x400 + (low as i64 - 0xdc00)),
        );
    }
    Ok(smi_or_f64(u as i64))
}

/// What `at` does: an index that counts from the end where it is negative.
pub open spec fn at_result(h: HeapModel, this: JsValue, args: Seq<JsValue>) -> (
    HeapModel,
    Result<JsValue, Fault>,
) {
    match receiver_text(h, this, "at"@) {
        Err(f) => (h, Err(f)),
        Ok(t) => {
            let n = int_of(h, arg_of(args, 0));
            let i = if n < 0 {
                t.len() + n
            } else {
                n
            };
            if 0 <= i < t.len() {
                text_result(h, well_formed(seq![t[i]]))
            } else {
                (h, Ok(JsValue::Undefined))
            }
        },
    }
}

/// `String.prototype.at(index)`.
pub fn string_at(heap: &mut Heap, this: JsValue, args: &[JsValue]) -> (r: Result<JsValue, Throw>)
    requires
        old(heap).wf(),
        old(heap)@.valid(this),
        valid_args(old(heap)@, args@),
        countable_text(old(heap)@, this),
    ensures
        heap_ends_in(*final(heap), r, at_result(old(heap)@, this, args@)),
{
    let t: Vec<u16> = match this_text(heap, this, "at") {
        Ok(t) => t,
        Err(e) => {
            return Err(e);
        },
    };
    let len: i64 = t.len() as i64;
    let n: i64 = to_int(heap, arg(args, 0));
    let i: i64 = if n < 0 {
        len + n
    } else {
        n
    };
    if i < 0 || i >= len {
        return Ok(JsValue::Undefined);
    }
    let one: Vec<u16> = copy_range(t.as_slice(), i as usize, i as usize + 1);
    proof {
        assert(one@ =~= seq![t@[i as int]]);
    }
    let unit: Vec<u16> = to_well_formed(one.as_slice());
    text_value(heap, unit.as_slice())
}

// ---------------------------------------------------------------------------
// New texts
// ---------------------------------------------------------------------------

/// A text with those of the first `k` arguments behind it.
pub open spec fn concatenated(h: HeapModel, t: Seq<u16>, args: Seq<JsValue>, k: int) -> Seq<u16>
    decreases k,
{
    if k <= 0 {
        t
    } else {
        concatenated(h, t, args, k - 1) + text_of(h, args[k - 1])
    }
}

/// What `concat` does.
pub open spec fn concat_result(h: HeapModel, this: JsValue, args: Seq<JsValue>) -> (
    HeapModel,
    Result<JsValue, Fault>,
) {
    match receiver_text(h, this, "concat"@) {
        Err(f) => (h, Err(f)),
        Ok(t) => text_result(h, concatenated(h, t, args, args.len() as int)),
    }
}

/// `String.prototype.concat(...texts)`.
pub fn string_concat(heap: &mut Heap, this: JsValue, args: &[JsValue]) -> (r: Result<JsValue, Throw>)
    requires
        old(heap).wf(),
        old(heap)@.valid(this),
        valid_args(old(heap)@, args@),
    ensures
        heap_ends_in(*final(heap), r, concat_result(old(heap)@, this, args@)),
{
    let mut t: Vec<u16> = match this_text(heap, this, "concat") {
        Ok(t) => t,
        Err(e) => {
            return Err(e);
        },
    };
    let ghost start = t@;
    let mut i: usize = 0;
    while i < args.len()
        invariant
            heap.wf(),
            *heap == *old(heap),
            valid_args(heap@, args@),
            i <= args@.len(),
            t@ == concatenated(heap@, start, args@, i as int),
        decreases args@.len() - i,
    {
        proof {
            assert(heap@.valid(args@[i as int]));
        }
        let more: Vec<u16> = to_text(heap, args[i]);
        push_all(&mut t, more.as_slice());
        i = i + 1;
    }
    text_value(heap, t.as_slice())
}

/// What `repeat` does: not-a-number is no repetition, a negative or infinite number an
/// error.
pub open spec fn repeat_result(h: HeapModel, this: JsValue, args: Seq<JsValue>) -> (
    HeapModel,
    Result<JsValue, Fault>,
) {
    match receiver_text(h, this, "repeat"@) {
        Err(f) => (h, Err(f)),
        Ok(t) => {
            let b = if args.len() == 0 {
                int_double(0)
            } else {
                number_of(h, args[0])
            };
            if is_nan(b) {
                text_result(h, seq![])
            } else if below(b, int_double(0)) || is_infinite(b) {
                (h, Err(Fault::Text("RangeError: Invalid count value"@)))
            } else {
                text_result(
                    h,
                    repeated(
                        t,
                        if saturated(b) < 0 {
                            0
                        } else {
                            saturated(b) as nat
                        },
                    ),
                )
            }
        },
    }
}

proof fn lemma_repeated_empty(n: nat)
    ensures
        repeated(seq![], n) == Seq::<u16>::empty(),
    decreases n,
{
    if n > 0 {
        lemma_repeated_empty((n - 1) as nat);
        assert(repeated(seq![], n) =~= Seq::<u16>::empty());
    }
}

/// `String.prototype.repeat(count)`.
pub fn string_repeat(heap: &mut Heap, this: JsValue, args: &[JsValue]) -> (r: Result<JsValue, Throw>)
    requires
        old(heap).wf(),
        old(heap)@.valid(this),
        valid_args(old(heap)@, args@),
    ensures
        heap_ends_in(*final(heap), r, repeat_result(old(heap)@, this, args@)),
{
    let t: Vec<u16> = match this_text(heap, this, "repeat") {
        Ok(t) => t,
        Err(e) => {
            return Err(e);
        },
    };
    let b: u64 = if args.len() == 0 {
        from_i64(0)
    } else {
        to_number(heap, args[0])
    };
    let mut out: Vec<u16> = Vec::new();
    if nan(b) {
        proof {
            assert(out@ =~= Seq::<u16>::empty());
        }
        return text_value(heap, out.as_slice());
    }
    if flt(b, from_i64(0)) || !finite(b) {
        return Err(error("RangeError: Invalid count value"));
    }
    let n: i64 = to_i64(b);
    if t.len() > 0 {
        let mut i: i64 = 0;
        while i < n
            invariant
                0 <= i,
                i <= n || n < 0,
                n < 0 ==> i == 0,
                out@ == repeated(t@, i as nat),
            decreases n - i,
        {
            push_all(&mut out, t.as_slice());
            proof {
                assert(repeated(t@, (i + 1) as nat) == repeated(t@, i as nat) + t@);
            }
            i = i + 1;
        }
    } else {
        proof {
            assert(t@ =~= Seq::<u16>::empty());
            lemma_repeated_empty(
                if n < 0 {
                    0
                } else {
                    n as nat
                },
            );
            assert(out@ =~= Seq::<u16>::empty());
        }
    }
    text_value(heap, out.as_slice())
}

/// The length that a padded text is to have.
pub open spec fn pad_target(h: HeapModel, args: Seq<JsValue>) -> int {
    if args.len() == 0 {
        0
    } else {
        let n = saturated(number_of(h, args[0]));
        if n < 0 {
            0
        } else if n > u32::MAX {
            u32::MAX as int
        } else {
            n
        }
    }
}

/// The text that fills up a padded one.
pub open spec fn pad_fill(h: HeapModel, args: Seq<JsValue>) -> Seq<u16> {
    if arg_of(args, 1) == JsValue::Undefined {
        seq![0x20u16]
    } else {
        text_of(h, arg_of(args, 1))
    }
}

/// A text over and over, up to a length.
pub open spec fn cycled(fill: Seq<u16>, n: nat) -> Seq<u16> {
    Seq::new(n, |i: int| fill[i % fill.len() as int])
}

/// A text filled up to a length at its start or at its end.
pub open spec fn padded_text(t: Seq<u16>, target: int, fill: Seq<u16>, start: bool) -> Seq<u16> {
    if target <= t.len() || fill.len() == 0 {
        t
    } else {
        let p = cycled(fill, (target - t.len()) as nat);
        well_formed(
            if start {
                p + t
            } else {
                t + p
            },
        )
    }
}

/// What `padStart` and `padEnd` do.
pub open spec fn pad_result(h: HeapModel, this: JsValue, args: Seq<JsValue>, start: bool) -> (
    HeapModel,
    Result<JsValue, Fault>,
) {
    match receiver_text(
        h,
        this,
        if start {
            "padStart"@
        } else {
            "padEnd"@
        },
    ) {
        Err(f) => (h, Err(f)),
        Ok(t) => text_result(
            h,
            padded_text(t, pad_target(h, args), pad_fill(h, args), start),
        ),
    }
}

/// Fills a text up to a length.
fn pad(heap: &mut Heap, t: Vec<u16>, args: &[JsValue], start: bool) -> (r: Result<JsValue, Throw>)
    requires
        old(heap).wf(),
        valid_args(old(heap)@, args@),
    ensures
        heap_ends_in(
            *final(heap),
            r,
            text_result(
                old(heap)@,
                padded_text(t@, pad_target(old(heap)@, args@), pad_fill(old(heap)@, args@), start),
            ),
        ),
{
    let target: u64 = if args.len() == 0 {
        0
    } else {
        let n: i64 = to_i64(to_number(heap, args[0]));
        if n < 0 {
            0
        } else if n > 0xffff_ffff {
            0xffff_ffff
        } else {
            n as u64
        }
    };
    let second: JsValue = arg(args, 1);
    let fill: Vec<u16> = if second == JsValue::Undefined {
        let mut f: Vec<u16> = Vec::new();
        f.push(0x20);
        proof {
            assert(f@ =~= seq![0x20u16]);
        }
        f
    } else {
        to_text(heap, second)
    };
    if target <= t.len() as u64 || fill.len() == 0 {
        return text_value(heap, t.as_slice());
    }
    let n: u64 = target - t.len() as u64;
    let mut p: Vec<u16> = Vec::new();
    let mut i: u64 = 0;
    let mut k: usize = 0;
    let m: usize = fill.len();
    while i < n
        invariant
            i <= n,
            m == fill@.len(),
            m > 0,
            k < m,
            k == i as int % fill@.len() as int,
            p@ == cycled(fill@, i as nat),
        decreases n - i,
    {
        p.push(fill[k]);
        proof {
            assert(p@ =~= cycled(fill@, (i + 1) as nat));
            let len = fill@.len() as int;
            vstd::arithmetic::div_mod::lemma_fundamental_div_mod(i as int, len);
            let q = i as int / len;
            assert(len * q == q * len) by (nonlinear_arith);
            if k + 1 == len {
                assert(q * len + len == (q + 1) * len) by (nonlinear_arith);
                vstd::arithmetic::div_mod::lemma_fundamental_div_mod_converse(
                    i + 1,
                    len,
                    q + 1,
                    0,
                );
            } else {
                vstd::arithmetic::div_mod::lemma_fundamental_div_mod_converse(
                    i + 1,
                    len,
                    q,
                    k + 1,
                );
            }
        }
        k = k + 1;
        if k == m {
            k = 0;
        }
        i = i + 1;
    }
    let mut out: Vec<u16> = Vec::new();
    if start {
        push_all(&mut out, p.as_slice());
        push_all(&mut out, t.as_slice());
    } else {
        push_all(&mut out, t.as_slice());
        push_all(&mut out, p.as_slice());
    }
    proof {
        assert(out@ =~= if start {
            p@ + t@
        } else {
            t@ + p@
        });
    }
    let whole: Vec<u16> = to_well_formed(out.as_slice());
    text_value(heap, whole.as_slice())
}

/// What `padStart` does.
pub open spec fn pad_start_result(h: HeapModel, this: JsValue, args: Seq<JsValue>) -> (
    HeapModel,
    Result<JsValue, Fault>,
) {
    pad_result(h, this, args, true)
}

/// `String.prototype.padStart(length, fill)`.
pub fn string_pad_start(heap: &mut Heap, this: JsValue, args: &[JsValue]) -> (r: Result<
    JsValue,
    Throw,
>)
    requires
        old(heap).wf(),
        old(heap)@.valid(this),
        valid_args(old(heap)@, args@),
    ensures
        heap_ends_in(*final(heap), r, pad_start_result(old(heap)@, this, args@)),
{
    match this_text(heap, this, "padStart") {
        Ok(t) => pad(heap, t, args, true),
        Err(e) => Err(e),
    }
}

/// What `padEnd` does.
pub open spec fn pad_end_result(h: HeapModel, this: JsValue, args: Seq<JsValue>) -> (
    HeapModel,
    Result<JsValue, Fault>,
) {
    pad_result(h, this, args, false)
}

/// `String.prototype.padEnd(length, fill)`.
pub fn string_pad_end(heap: &mut Heap, this: JsValue, args: &[JsValue]) -> (r: Result<
    JsValue,
    Throw,
>)
    requires
        old(heap).wf(),
        old(heap)@.valid(this),
        valid_args(old(heap)@, args@),
    ensures
        heap_ends_in(*final(heap), r, pad_end_result(old(heap)@, this, args@)),
{
    match this_text(heap, this, "padEnd") {
        Ok(t) => pad(heap, t, args, false),
        Err(e) => Err(e),
    }
}

// ---------------------------------------------------------------------------
// Trimming
// ---------------------------------------------------------------------------

/// Whether a unit is white space that `trim` removes.
pub open spec fn is_trimmed(c: u16) -> bool {
    ||| 0x09 <= c <= 0x0d
    ||| c == 0x20
    ||| c == 0xa0
    ||| c == 0x1680
    ||| 0x2000 <= c <= 0x200a
    ||| c == 0x2028
    ||| c == 0x2029
    ||| c == 0x202f
    ||| c == 0x205f
    ||| c == 0x3000
    ||| c == 0xfeff
}

/// Whether a unit is white space that `trim` removes.
pub fn is_js_whitespace(c: u16) -> (r: bool)
    ensures
        r == is_trimmed(c),
{
    (0x09 <= c && c <= 0x0d) || c == 0x20 || c == 0xa0 || c == 0x1680 || (0x2000 <= c && c
        <= 0x200a) || c == 0x2028 || c == 0x2029 || c == 0x202f || c == 0x205f || c == 0x3000 || c
        == 0xfeff
}

/// Index of the first unit that `trim` keeps.
pub open spec fn trim_front(t: Seq<u16>, i: int) -> int
    decreases t.len() - i,
{
    if 0 <= i < t.len() && is_trimmed(t[i]) {
        trim_front(t, i + 1)
    } else {
        i
    }
}

/// Index behind the last unit that `trim` keeps, not before `i`.
pub open spec fn trim_back(t: Seq<u16>, i: int, j: int) -> int
    decreases j - i,
{
    if i < j <= t.len() && is_trimmed(t[j - 1]) {
        trim_back(t, i, j - 1)
    } else {
        j
    }
}

/// A text without white space at its start, its end or both.
pub open spec fn trimmed_text(t: Seq<u16>, front: bool, back: bool) -> Seq<u16> {
    let a = if front {
        trim_front(t, 0)
    } else {
        0
    };
    let b = if back {
        trim_back(t, a, t.len() as int)
    } else {
        t.len() as int
    };
    t.subrange(a, b)
}

/// What the trimming methods do.
pub open spec fn trim_result(
    h: HeapModel,
    this: JsValue,
    method: Seq<char>,
    front: bool,
    back: bool,
) -> (HeapModel, Result<JsValue, Fault>) {
    match receiver_text(h, this, method) {
        Err(f) => (h, Err(f)),
        Ok(t) => text_result(h, trimmed_text(t, front, back)),
    }
}

/// Trims a text.
fn trim_units(t: &[u16], front: bool, back: bool) -> (r: Vec<u16>)
    ensures
        r@ == trimmed_text(t@, front, back),
{
    let n: usize = t.len();
    let mut a: usize = 0;
    if front {
        while a < n && is_js_whitespace(t[a])
            invariant
                n == t@.len(),
                a <= n,
                trim_front(t@, 0) == trim_front(t@, a as int),
            decreases n - a,
        {
            a = a + 1;
        }
    }
    let mut b: usize = n;
    if back {
        while b > a && is_js_whitespace(t[b - 1])
            invariant
                n == t@.len(),
                a <= b <= n,
                trim_back(t@, a as int, n as int) == trim_back(t@, a as int, b as int),
            decreases b,
        {
            b = b - 1;
        }
    }
    copy_range(t, a, b)
}

/// What `trim` does.
pub open spec fn trim_both_result(h: HeapModel, this: JsValue) -> (HeapModel, Result<JsValue, Fault>) {
    trim_result(h, this, "trim"@, true, true)
}

/// `String.prototype.trim()`.
pub fn string_trim(heap: &mut Heap, this: JsValue, _args: &[JsValue]) -> (r: Result<JsValue, Throw>)
    requires
        old(heap).wf(),
        old(heap)@.valid(this),
    ensures
        heap_ends_in(*final(heap), r, trim_both_result(old(heap)@, this)),
{
    match this_text(heap, this, "trim") {
        Ok(t) => {
            let s: Vec<u16> = trim_units(t.as_slice(), true, true);
            text_value(heap, s.as_slice())
        },
        Err(e) => Err(e),
    }
}

/// What `trimStart` does.
pub open spec fn trim_start_result(h: HeapModel, this: JsValue) -> (HeapModel, Result<JsValue, Fault>) {
    trim_result(h, this, "trimStart"@, true, false)
}

/// `String.prototype.trimStart()`.
pub fn string_trim_start(heap: &mut Heap, this: JsValue, _args: &[JsValue]) -> (r: Result<
    JsValue,
    Throw,
>)
    requires
        old(heap).wf(),
        old(heap)@.valid(this),
    ensures
        heap_ends_in(*final(heap), r, trim_start_result(old(heap)@, this)),
{
    match this_text(heap, this, "trimStart") {
        Ok(t) => {
            let s: Vec<u16> = trim_units(t.as_slice(), true, false);
            text_value(heap, s.as_slice())
        },
        Err(e) => Err(e),
    }
}

/// What `trimEnd` does.
pub open spec fn trim_end_result(h: HeapModel, this: JsValue) -> (HeapModel, Result<JsValue, Fault>) {
    trim_result(h, this, "trimEnd"@, false, true)
}

/// `String.prototype.trimEnd()`.
pub fn string_trim_end(heap: &mut Heap, this: JsValue, _args: &[JsValue]) -> (r: Result<
    JsValue,
    Throw,
>)
    requires
        old(heap).wf(),
        old(heap)@.valid(this),
    ensures
        heap_ends_in(*final(heap), r, trim_end_result(old(heap)@, this)),
{
    match this_text(heap, this, "trimEnd") {
        Ok(t) => {
            let s: Vec<u16> = trim_units(t.as_slice(), false, true);
            text_value(heap, s.as_slice())
        },
        Err(e) => Err(e),
    }
}

// ---------------------------------------------------------------------------
// Upper and lower case
// ---------------------------------------------------------------------------

/// The lower case of characters, as [`str::to_lowercase`] has it.
pub uninterp spec fn lowercase_of(s: Seq<char>) -> Seq<char>;

/// The upper case of characters, as [`str::to_uppercase`] has it.
pub uninterp spec fn uppercase_of(s: Seq<char>) -> Seq<char>;

/// `str::to_lowercase`: the result depends on the characters alone.
#[verifier::external_body]
fn lowercase(s: &str) -> (r: String)
    ensures
        r@ == lowercase_of(s@),
{
    s.to_lowercase()
}

/// `str::to_uppercase`: the result depends on the characters alone.
#[verifier::external_body]
fn uppercase(s: &str) -> (r: String)
    ensures
        r@ == uppercase_of(s@),
{
    s.to_uppercase()
}

/// `String.prototype.toLowerCase()`.
pub fn string_to_lower_case(heap: &mut Heap, this: JsValue, _args: &[JsValue]) -> (r: Result<
    JsValue,
    Throw,
>)
    requires
        old(heap).wf(),
        old(heap)@.valid(this),
    ensures
        heap_ends_in(
            *final(heap),
            r,
            match receiver_text(old(heap)@, this, "toLowerCase"@) {
                Err(f) => (old(heap)@, Err(f)),
                Ok(t) => text_result(old(heap)@, utf16_of(lowercase_of(chars_of(t)))),
            },
        ),
{
    match this_text(heap, this, "toLowerCase") {
        Ok(t) => {
            let s: String = lowercase(to_chars(t.as_slice()).as_str());
            text_value(heap, utf16(s.as_str()).as_slice())
        },
        Err(e) => Err(e),
    }
}

/// `String.prototype.toUpperCase()`.
pub fn string_to_upper_case(heap: &mut Heap, this: JsValue, _args: &[JsValue]) -> (r: Result<
    JsValue,
    Throw,
>)
    requires
        old(heap).wf(),
        old(heap)@.valid(this),
    ensures
        heap_ends_in(
            *final(heap),
            r,
            match receiver_text(old(heap)@, this, "toUpperCase"@) {
                Err(f) => (old(heap)@, Err(f)),
                Ok(t) => text_result(old(heap)@, utf16_of(uppercase_of(chars_of(t)))),
            },
        ),
{
    match this_text(heap, this, "toUpperCase") {
        Ok(t) => {
            let s: String = uppercase(to_chars(t.as_slice()).as_str());
            text_value(heap, utf16(s.as_str()).as_slice())
        },
        Err(e) => Err(e),
    }
}

// ---------------------------------------------------------------------------
// Parts of texts
// ---------------------------------------------------------------------------

/// A number held between 0 and `len`.
pub open spec fn held(n: int, len: int) -> int {
    if n < 0 {
        0
    } else if n > len {
        len
    } else {
        n
    }
}

/// What `substring` does: the part between two indices, in whichever order.
pub open spec fn substring_result(h: HeapModel, this: JsValue, args: Seq<JsValue>) -> (
    HeapModel,
    Result<JsValue, Fault>,
) {
    match receiver_text(h, this, "substring"@) {
        Err(f) => (h, Err(f)),
        Ok(t) => {
            let len = t.len() as int;
            let a = held(int_of(h, arg_of(args, 0)), len);
            let b = if arg_of(args, 1) == JsValue::Undefined {
                len
            } else {
                held(int_of(h, arg_of(args, 1)), len)
            };
            text_result(
                h,
                well_formed(
                    if a > b {
                        t.subrange(b, a)
                    } else {
                        t.subrange(a, b)
                    },
                ),
            )
        },
    }
}

/// A number held between 0 and `len`.
fn hold(n: i64, len: usize) -> (r: usize)
    ensures
        r == held(n as int, len as int),
        r <= len,
{
    if n < 0 {
        0
    } else if n as u64 > len as u64 {
        len
    } else {
        n as usize
    }
}

/// `String.prototype.substring(start, end)`.
pub fn string_substring(heap: &mut Heap, this: JsValue, args: &[JsValue]) -> (r: Result<
    JsValue,
    Throw,
>)
    requires
        old(heap).wf(),
        old(heap)@.valid(this),
        valid_args(old(heap)@, args@),
    ensures
        heap_ends_in(*final(heap), r, substring_result(old(heap)@, this, args@)),
{
    let t: Vec<u16> = match this_text(heap, this, "substring") {
        Ok(t) => t,
        Err(e) => {
            return Err(e);
        },
    };
    let len: usize = t.len();
    let a: usize = hold(to_int(heap, arg(args, 0)), len);
    let second: JsValue = arg(args, 1);
    let b: usize = if second == JsValue::Undefined {
        len
    } else {
        hold(to_int(heap, second), len)
    };
    let part: Vec<u16> = if a > b {
        copy_range(t.as_slice(), b, a)
    } else {
        copy_range(t.as_slice(), a, b)
    };
    let whole: Vec<u16> = to_well_formed(part.as_slice());
    text_value(heap, whole.as_slice())
}

/// What `substr` does: a number of units from an index on.
pub open spec fn substr_result(h: HeapModel, this: JsValue, args: Seq<JsValue>) -> (
    HeapModel,
    Result<JsValue, Fault>,
) {
    match receiver_text(h, this, "substr"@) {
        Err(f) => (h, Err(f)),
        Ok(t) => {
            let len = t.len() as int;
            let a = clamped_index(int_of(h, arg_of(args, 0)), len);
            let n = if arg_of(args, 1) == JsValue::Undefined {
                len - a
            } else {
                held(int_of(h, arg_of(args, 1)), len - a)
            };
            text_result(h, well_formed(t.subrange(a, a + n)))
        },
    }
}

/// `String.prototype.substr(start, length)`.
pub fn string_substr(heap: &mut Heap, this: JsValue, args: &[JsValue]) -> (r: Result<JsValue, Throw>)
    requires
        old(heap).wf(),
        old(heap)@.valid(this),
        valid_args(old(heap)@, args@),
        countable_text(old(heap)@, this),
    ensures
        heap_ends_in(*final(heap), r, substr_result(old(heap)@, this, args@)),
{
    let t: Vec<u16> = match this_text(heap, this, "substr") {
        Ok(t) => t,
        Err(e) => {
            return Err(e);
        },
    };
    let len: usize = t.len();
    let a: usize = clamp_index(to_int(heap, arg(args, 0)), len as i64) as usize;
    let second: JsValue = arg(args, 1);
    let n: usize = if second == JsValue::Undefined {
        len - a
    } else {
        hold(to_int(heap, second), len - a)
    };
    let part: Vec<u16> = copy_range(t.as_slice(), a, a + n);
    let whole: Vec<u16> = to_well_formed(part.as_slice());
    text_value(heap, whole.as_slice())
}

/// `String.prototype.toString()`: the receiver.
pub fn string_to_string(heap: &mut Heap, this: JsValue, _args: &[JsValue]) -> (r: Result<
    JsValue,
    Throw,
>)
    ensures
        *final(heap) == *old(heap),
        r == Ok::<JsValue, Throw>(this),
{
    Ok(this)
}

/// `String.prototype.valueOf()`: the receiver.
pub fn string_value_of(heap: &mut Heap, this: JsValue, _args: &[JsValue]) -> (r: Result<
    JsValue,
    Throw,
>)
    ensures
        *final(heap) == *old(heap),
        r == Ok::<JsValue, Throw>(this),
{
    Ok(this)
}

/// `String(value)`: its text, `undefined` spelled out without one.
pub fn string_construct(heap: &mut Heap, _this: JsValue, args: &[JsValue]) -> (r: Result<
    JsValue,
    Throw,
>)
    requires
        old(heap).wf(),
        valid_args(old(heap)@, args@),
    ensures
        heap_ends_in(
            *final(heap),
            r,
            text_result(old(heap)@, arg_text_of(old(heap)@, args@, 0)),
        ),
{
    let t: Vec<u16> = arg_text(heap, args, 0);
    text_value(heap, t.as_slice())
}

// ---------------------------------------------------------------------------
// Order
// ---------------------------------------------------------------------------

/// Order of two texts by their units, from the index `i` on: negative, 0 or positive.
pub open spec fn unit_order(a: Seq<u16>, b: Seq<u16>, i: int) -> int
    decreases a.len() - i,
{
    if i < 0 || i >= a.len() {
        if i < b.len() {
            -1
        } else {
            0
        }
    } else if i >= b.len() {
        1
    } else if a[i] == b[i] {
        unit_order(a, b, i + 1)
    } else if a[i] < b[i] {
        -1
    } else {
        1
    }
}

/// What `localeCompare` does.
pub open spec fn locale_order_result(h: HeapModel, this: JsValue, args: Seq<JsValue>) -> (
    HeapModel,
    Result<JsValue, Fault>,
) {
    match receiver_text(h, this, "localeCompare"@) {
        Err(f) => (h, Err(f)),
        Ok(t) => (h, Ok(int_value(unit_order(t, arg_text_of(h, args, 0), 0)))),
    }
}

/// `String.prototype.localeCompare(other)`: by UTF-16 units.
pub fn string_locale_compare(heap: &mut Heap, this: JsValue, args: &[JsValue]) -> (r: Result<
    JsValue,
    Throw,
>)
    requires
        old(heap).wf(),
        old(heap)@.valid(this),
        valid_args(old(heap)@, args@),
    ensures
        heap_ends_in(*final(heap), r, locale_order_result(old(heap)@, this, args@)),
{
    let a: Vec<u16> = match this_text(heap, this, "localeCompare") {
        Ok(t) => t,
        Err(e) => {
            return Err(e);
        },
    };
    let b: Vec<u16> = arg_text(heap, args, 0);
    let mut i: usize = 0;
    while i < a.len() && i < b.len() && a[i] == b[i]
        invariant
            i <= a@.len(),
            i <= b@.len(),
            unit_order(a@, b@, 0) == unit_order(a@, b@, i as int),
        decreases a@.len() - i,
    {
        i = i + 1;
    }
    let n: i64 = if i >= a.len() {
        if i < b.len() {
            -1
        } else {
            0
        }
    } else if i >= b.len() {
        1
    } else if a[i] < b[i] {
        -1
    } else {
        1
    };
    Ok(smi_or_f64(n))
}

/// The order of texts is that of their units: equal texts are in order 0, and turning
/// two round turns the order round.
pub proof fn law_order(a: Seq<u16>, b: Seq<u16>, i: int)
    requires
        0 <= i,
    ensures
        unit_order(a, b, i) == -unit_order(b, a, i),
        unit_order(a, a, i) == 0,
    decreases a.len() - i,
{
    if i < a.len() {
        law_order(a, b, i + 1);
    }
}

// ---------------------------------------------------------------------------
// fromCharCode and fromCodePoint
// ---------------------------------------------------------------------------

/// A number as a unit: cut, and held between 0 and the largest.
pub open spec fn as_unit(h: HeapModel, v: JsValue) -> u16 {
    held(saturated(number_of(h, v)), 0xffff) as u16
}

/// What `fromCharCode` does.
pub open spec fn from_char_code_result(h: HeapModel, args: Seq<JsValue>) -> (
    HeapModel,
    Result<JsValue, Fault>,
) {
    text_result(h, well_formed(args.map_values(|v: JsValue| as_unit(h, v))))
}

/// `String.fromCharCode(...codes)`.
pub fn string_from_char_code(heap: &mut Heap, _this: JsValue, args: &[JsValue]) -> (r: Result<
    JsValue,
    Throw,
>)
    requires
        old(heap).wf(),
        valid_args(old(heap)@, args@),
    ensures
        heap_ends_in(
            *final(heap),
            r,
            from_char_code_result(old(heap)@, args@),
        ),
{
    let ghost h = heap@;
    let ghost f = |v: JsValue| as_unit(h, v);
    let mut units: Vec<u16> = Vec::new();
    let mut i: usize = 0;
    while i < args.len()
        invariant
            heap.wf(),
            *heap == *old(heap),
            h == heap@,
            f == |v: JsValue| as_unit(h, v),
            valid_args(h, args@),
            i <= args@.len(),
            units@ == args@.take(i as int).map_values(f),
        decreases args@.len() - i,
    {
        proof {
            assert(h.valid(args@[i as int]));
        }
        let n: i64 = to_i64(to_number(heap, args[i]));
        let u: u16 = if n < 0 {
            0
        } else if n > 0xffff {
            0xffff
        } else {
            n as u16
        };
        units.push(u);
        proof {
            assert(units@ =~= args@.take(i + 1).map_values(f));
        }
        i = i + 1;
    }
    proof {
        assert(args@.take(i as int) =~= args@);
    }
    let t: Vec<u16> = to_well_formed(units.as_slice());
    text_value(heap, t.as_slice())
}

/// Whether a number is the code point of a character.
pub open spec fn is_code_point(b: u64) -> bool {
    &&& is_integral(b)
    &&& 0 <= saturated(b) <= 0x10_ffff
    &&& !(0xd800 <= saturated(b) <= 0xdfff)
    &&& !below(b, int_double(0))
}

/// UTF-16 units of a code point.
pub open spec fn point_units(n: int) -> Seq<u16> {
    if n < 0x1_0000 {
        seq![n as u16]
    } else {
        seq![(0xd800 + (n - 0x1_0000) / 0x400) as u16, (0xdc00 + (n - 0x1_0000) % 0x400) as u16]
    }
}

/// The text of the first `k` code points, `None` where one is none.
pub open spec fn points_text(h: HeapModel, args: Seq<JsValue>, k: int) -> Option<Seq<u16>>
    decreases k,
{
    if k <= 0 {
        Some(seq![])
    } else {
        match points_text(h, args, k - 1) {
            None => None,
            Some(t) => if is_code_point(number_of(h, args[k - 1])) {
                Some(t + point_units(saturated(number_of(h, args[k - 1]))))
            } else {
                None
            },
        }
    }
}

proof fn lemma_points_none(h: HeapModel, args: Seq<JsValue>, k: int, n: int)
    requires
        0 <= k <= n,
        points_text(h, args, k) is None,
    ensures
        points_text(h, args, n) is None,
    decreases n - k,
{
    if k < n {
        lemma_points_none(h, args, k, n - 1);
    }
}

/// What `fromCodePoint` does.
pub open spec fn from_code_point_result(h: HeapModel, args: Seq<JsValue>) -> (
    HeapModel,
    Result<JsValue, Fault>,
) {
    match points_text(h, args, args.len() as int) {
        Some(t) => text_result(h, t),
        None => (h, Err(Fault::Text("RangeError: Invalid code point"@))),
    }
}

/// `String.fromCodePoint(...points)`: what is no code point is an error.
pub fn string_from_code_point(heap: &mut Heap, _this: JsValue, args: &[JsValue]) -> (r: Result<
    JsValue,
    Throw,
>)
    requires
        old(heap).wf(),
        valid_args(old(heap)@, args@),
    ensures
        heap_ends_in(
            *final(heap),
            r,
            from_code_point_result(old(heap)@, args@),
        ),
{
    let mut t: Vec<u16> = Vec::new();
    let mut i: usize = 0;
    proof {
        assert(t@ =~= Seq::<u16>::empty());
    }
    while i < args.len()
        invariant
            heap.wf(),
            *heap == *old(heap),
            valid_args(heap@, args@),
            i <= args@.len(),
            points_text(heap@, args@, i as int) == Some(t@),
        decreases args@.len() - i,
    {
        proof {
            assert(heap@.valid(args@[i as int]));
        }
        let b: u64 = to_number(heap, args[i]);
        let n: i64 = to_i64(b);
        if !integral(b) || n < 0 || n > 0x10_ffff || (0xd800 <= n && n <= 0xdfff) || flt(
            b,
            from_i64(0),
        ) {
            proof {
                lemma_points_none(heap@, args@, i + 1, args@.len() as int);
            }
            return Err(error("RangeError: Invalid code point"));
        }
        let ghost before = t@;
        if n < 0x1_0000 {
            t.push(n as u16);
        } else {
            t.push((0xd800 + (n - 0x1_0000) / 0x400) as u16);
            t.push((0xdc00 + (n - 0x1_0000) % 0x400) as u16);
        }
        proof {
            assert(t@ =~= before + point_units(n as int));
        }
        i = i + 1;
    }
    text_value(heap, t.as_slice())
}

// ---------------------------------------------------------------------------
// Replacing
// ---------------------------------------------------------------------------

/// What `$` and the unit behind it stand for in a replacement.
pub open spec fn expansion(c: u16, whole: Seq<u16>, groups: Seq<Seq<u16>>) -> Seq<u16> {
    if c == 0x24 {
        seq![0x24u16]
    } else if c == 0x26 || c == 0x30 {
        whole
    } else if 0x31 <= c <= 0x39 {
        if c - 0x30 <= groups.len() {
            groups[c - 0x31]
        } else {
            seq![]
        }
    } else {
        seq![0x24u16, c]
    }
}

/// A replacement from the index `i` on, with `$&`, `$0` to `$9` and `$$` expanded.
pub open spec fn expanded(template: Seq<u16>, i: int, whole: Seq<u16>, groups: Seq<Seq<u16>>) -> Seq<
    u16,
>
    decreases template.len() - i,
{
    if i < 0 || i >= template.len() {
        seq![]
    } else if template[i] != 0x24 {
        seq![template[i]] + expanded(template, i + 1, whole, groups)
    } else if i + 1 >= template.len() {
        seq![0x24u16]
    } else {
        expansion(template[i + 1], whole, groups) + expanded(template, i + 2, whole, groups)
    }
}

/// Expands `$&`, `$0` to `$9` and `$$` in a replacement.
pub fn expand_replacement(template: &[u16], whole: &[u16], groups: &Vec<Vec<u16>>) -> (r: Vec<u16>)
    ensures
        r@ == expanded(template@, 0, whole@, crate::text::views(groups@)),
{
    let n: usize = template.len();
    let ghost all = crate::text::views(groups@);
    let mut out: Vec<u16> = Vec::new();
    let mut i: usize = 0;
    proof {
        assert(out@ + expanded(template@, 0, whole@, all) =~= expanded(template@, 0, whole@, all));
    }
    while i < n
        invariant
            n == template@.len(),
            i <= n,
            all == crate::text::views(groups@),
            out@ + expanded(template@, i as int, whole@, all) == expanded(
                template@,
                0,
                whole@,
                all,
            ),
        decreases n - i,
    {
        let c: u16 = template[i];
        let ghost before = out@;
        let ghost rest = expanded(template@, i as int, whole@, all);
        if c != 0x24 {
            out.push(c);
            i = i + 1;
            proof {
                assert(out@ + expanded(template@, i as int, whole@, all) =~= before + rest);
            }
        } else if n - i <= 1 {
            out.push(0x24);
            i = i + 1;
            proof {
                assert(out@ + expanded(template@, i as int, whole@, all) =~= before + rest);
            }
        } else {
            let d: u16 = template[i + 1];
            if d == 0x24 {
                out.push(0x24);
            } else if d == 0x26 || d == 0x30 {
                push_all(&mut out, whole);
            } else if 0x31 <= d && d <= 0x39 {
                let k: usize = (d - 0x31) as usize;
                if k < groups.len() {
                    push_all(&mut out, groups[k].as_slice());
                }
            } else {
                out.push(0x24);
                out.push(d);
            }
            proof {
                assert(out@ =~= before + expansion(d, whole@, all));
                assert(out@ + expanded(template@, i + 2, whole@, all) =~= before + rest);
            }
            i = i + 2;
        }
    }
    proof {
        assert(out@ + expanded(template@, i as int, whole@, all) =~= out@);
    }
    out
}

/// A text with each occurrence of another from `i` on replaced.
pub open spec fn replaced_all(t: Seq<u16>, needle: Seq<u16>, with: Seq<u16>, i: int) -> Seq<u16>
    decreases t.len() - i,
{
    if i < 0 || i > t.len() || needle.len() == 0 {
        seq![]
    } else {
        match found_from(t, needle, i) {
            None => t.skip(i),
            Some(k) => if i <= k && k + needle.len() <= t.len() {
                t.subrange(i, k) + with + replaced_all(t, needle, with, k + needle.len())
            } else {
                t.skip(i)
            },
        }
    }
}

/// What `replaceAll` does; an empty search stands at the start.
pub open spec fn replace_all_result(h: HeapModel, this: JsValue, args: Seq<JsValue>) -> (
    HeapModel,
    Result<JsValue, Fault>,
) {
    match receiver_text(h, this, "replaceAll"@) {
        Err(f) => (h, Err(f)),
        Ok(t) => {
            let needle = arg_text_of(h, args, 0);
            let with = arg_text_of(h, args, 1);
            text_result(
                h,
                if needle.len() == 0 {
                    with + t
                } else {
                    replaced_all(t, needle, with, 0)
                },
            )
        },
    }
}

/// Replaces each occurrence of a text.
fn replace_each(t: &[u16], needle: &[u16], with: &[u16]) -> (r: Vec<u16>)
    requires
        needle@.len() > 0,
    ensures
        r@ == replaced_all(t@, needle@, with@, 0),
{
    let n: usize = t.len();
    let mut out: Vec<u16> = Vec::new();
    let mut i: usize = 0;
    proof {
        let all = replaced_all(t@, needle@, with@, 0);
        assert(out@ + all =~= all);
    }
    loop
        invariant
            n == t@.len(),
            i <= n,
            needle@.len() > 0,
            out@ + replaced_all(t@, needle@, with@, i as int) == replaced_all(
                t@,
                needle@,
                with@,
                0,
            ),
        decreases n - i,
    {
        let ghost before = out@;
        let ghost rest = replaced_all(t@, needle@, with@, i as int);
        match utf16_find(t, needle, i) {
            None => {
                let tail: Vec<u16> = copy_range(t, i, n);
                push_all(&mut out, tail.as_slice());
                proof {
                    assert(tail@ =~= t@.skip(i as int));
                    assert(out@ =~= before + rest);
                }
                return out;
            },
            Some(k) => {
                let head: Vec<u16> = copy_range(t, i, k);
                push_all(&mut out, head.as_slice());
                push_all(&mut out, with);
                proof {
                    assert(out@ + replaced_all(t@, needle@, with@, k + needle@.len()) =~= before
                        + rest);
                }
                i = k + needle.len();
            },
        }
    }
}

/// `String.prototype.replaceAll(search, replacement)` of a text.
pub fn string_replace_all(heap: &mut Heap, this: JsValue, args: &[JsValue]) -> (r: Result<
    JsValue,
    Throw,
>)
    requires
        old(heap).wf(),
        old(heap)@.valid(this),
        valid_args(old(heap)@, args@),
    ensures
        heap_ends_in(*final(heap), r, replace_all_result(old(heap)@, this, args@)),
{
    let t: Vec<u16> = match this_text(heap, this, "replaceAll") {
        Ok(t) => t,
        Err(e) => {
            return Err(e);
        },
    };
    let needle: Vec<u16> = arg_text(heap, args, 0);
    let with: Vec<u16> = arg_text(heap, args, 1);
    if needle.len() == 0 {
        let mut out: Vec<u16> = Vec::new();
        push_all(&mut out, with.as_slice());
        push_all(&mut out, t.as_slice());
        proof {
            assert(out@ =~= with@ + t@);
        }
        return text_value(heap, out.as_slice());
    }
    let out: Vec<u16> = replace_each(t.as_slice(), needle.as_slice(), with.as_slice());
    text_value(heap, out.as_slice())
}

} // verus!

//! `encodeURI`, `decodeURI` and their component variants.
use vstd::prelude::*;

use crate::convert::{error3, text_of, to_text};
use crate::ctx::valid_args;
use crate::descriptor::Fault;
use crate::heap::{Heap, HeapModel};
use crate::string::{heap_ends_in, text_result, text_value};
use crate::text::is_lone;
use crate::utf8::{
    decode_utf8, encode_utf8, law_utf8_reads_back, lemma_ascii_bytes, utf8_of, utf8_text,
};
use crate::value::{JsValue, Throw};

verus! {

/// Whether a byte is never escaped: letters, digits and some marks.
pub open spec fn unreserved(b: u8) -> bool {
    ||| 0x30 <= b <= 0x39
    ||| 0x41 <= b <= 0x5a
    ||| 0x61 <= b <= 0x7a
    ||| b == 0x2d
    ||| b == 0x5f
    ||| b == 0x2e
    ||| b == 0x21
    ||| b == 0x7e
    ||| b == 0x2a
    ||| b == 0x27
    ||| b == 0x28
    ||| b == 0x29
}

/// Whether a byte belongs to the syntax of URIs.
pub open spec fn reserved(b: u8) -> bool {
    ||| b == 0x3b
    ||| b == 0x2f
    ||| b == 0x3f
    ||| b == 0x3a
    ||| b == 0x40
    ||| b == 0x26
    ||| b == 0x3d
    ||| b == 0x2b
    ||| b == 0x24
    ||| b == 0x2c
    ||| b == 0x23
}

/// Whether a byte is never escaped.
pub fn is_unreserved(b: u8) -> (r: bool)
    ensures
        r == unreserved(b),
{
    (0x30 <= b && b <= 0x39) || (0x41 <= b && b <= 0x5a) || (0x61 <= b && b <= 0x7a) || b == 0x2d
        || b == 0x5f || b == 0x2e || b == 0x21 || b == 0x7e || b == 0x2a || b == 0x27 || b == 0x28
        || b == 0x29
}

/// Whether a byte belongs to the syntax of URIs.
pub fn is_uri_reserved(b: u8) -> (r: bool)
    ensures
        r == reserved(b),
{
    b == 0x3b || b == 0x2f || b == 0x3f || b == 0x3a || b == 0x40 || b == 0x26 || b == 0x3d || b
        == 0x2b || b == 0x24 || b == 0x2c || b == 0x23
}

// ---------------------------------------------------------------------------
// Escaping
// ---------------------------------------------------------------------------

/// Upper-case hexadecimal digit.
pub open spec fn upper_hex(d: int) -> u8 {
    if d < 10 {
        (0x30 + d) as u8
    } else {
        (0x37 + d) as u8
    }
}

/// How a byte is written in a URI.
pub open spec fn escaped_byte(b: u8, keep: bool) -> Seq<u8> {
    if unreserved(b) || (keep && reserved(b)) {
        seq![b]
    } else {
        seq![0x25u8, upper_hex(b as int / 16), upper_hex(b as int % 16)]
    }
}

/// Bytes from `i` on as they are written in a URI.
pub open spec fn escaped(b: Seq<u8>, i: int, keep: bool) -> Seq<u8>
    decreases b.len() - i,
{
    if i < 0 || i >= b.len() {
        seq![]
    } else {
        escaped_byte(b[i], keep) + escaped(b, i + 1, keep)
    }
}

/// Bytes as units.
pub open spec fn as_units(b: Seq<u8>) -> Seq<u16> {
    b.map_values(|x: u8| x as u16)
}

/// A text as it is written in a URI: syntax characters stay where `keep` is set.
pub open spec fn encoded(t: Seq<u16>, keep: bool) -> Seq<u16> {
    as_units(escaped(utf8_of(t, 0), 0, keep))
}

/// Upper-case hexadecimal digit.
fn hex_unit(d: u8) -> (r: u8)
    requires
        d < 16,
    ensures
        r == upper_hex(d as int),
{
    if d < 10 {
        0x30 + d
    } else {
        0x37 + d
    }
}

/// A text as it is written in a URI.
fn encode_units(t: &[u16], keep: bool) -> (r: Vec<u16>)
    ensures
        r@ == encoded(t@, keep),
{
    let b: Vec<u8> = encode_utf8(t);
    let ghost all = escaped(b@, 0, keep);
    let mut out: Vec<u16> = Vec::new();
    let mut i: usize = 0;
    proof {
        assert(out@ + as_units(all) =~= as_units(all));
    }
    while i < b.len()
        invariant
            i <= b@.len(),
            all == escaped(b@, 0, keep),
            out@ + as_units(escaped(b@, i as int, keep)) == as_units(all),
        decreases b@.len() - i,
    {
        let ghost before = out@;
        let x: u8 = b[i];
        if is_unreserved(x) || (keep && is_uri_reserved(x)) {
            out.push(x as u16);
        } else {
            out.push(0x25);
            out.push(hex_unit(x / 16) as u16);
            out.push(hex_unit(x % 16) as u16);
        }
        proof {
            assert(out@ =~= before + as_units(escaped_byte(x, keep)));
            assert(out@ + as_units(escaped(b@, i + 1, keep)) =~= before + as_units(
                escaped(b@, i as int, keep),
            ));
        }
        i = i + 1;
    }
    proof {
        assert(out@ + as_units(escaped(b@, i as int, keep)) =~= out@);
    }
    out
}

// ---------------------------------------------------------------------------
// Unescaping
// ---------------------------------------------------------------------------

/// What can be wrong with a URI.
#[derive(Clone, Copy, PartialEq, Eq, Structural, Debug)]
pub enum UriFault {
    /// A percent sign without two hexadecimal digits.
    Malformed,
    /// An escape for a character of the syntax.
    Reserved,
    /// Bytes that are no UTF-8.
    NotUtf8,
}

/// Value of a hexadecimal digit, `-1` of anything else.
pub open spec fn hex_of(b: u8) -> int {
    if 0x30 <= b <= 0x39 {
        b - 0x30
    } else if 0x41 <= b <= 0x46 {
        b - 0x37
    } else if 0x61 <= b <= 0x66 {
        b - 0x57
    } else {
        -1
    }
}

/// The bytes that a URI from `i` on stands for; escapes for characters of the syntax
/// are errors unless `all` is set.
pub open spec fn unescaped(s: Seq<u8>, i: int, all: bool) -> Result<Seq<u8>, UriFault>
    decreases s.len() - i,
{
    if i < 0 || i >= s.len() {
        Ok(seq![])
    } else if s[i] != 0x25 {
        match unescaped(s, i + 1, all) {
            Ok(rest) => Ok(seq![s[i]] + rest),
            Err(e) => Err(e),
        }
    } else if i + 2 >= s.len() || hex_of(s[i + 1]) < 0 || hex_of(s[i + 2]) < 0 {
        Err(UriFault::Malformed)
    } else {
        let b = (hex_of(s[i + 1]) * 16 + hex_of(s[i + 2])) as u8;
        if !all && reserved(b) {
            Err(UriFault::Reserved)
        } else {
            match unescaped(s, i + 3, all) {
                Ok(rest) => Ok(seq![b] + rest),
                Err(e) => Err(e),
            }
        }
    }
}

/// The text that a URI stands for.
pub open spec fn decoded(t: Seq<u16>, all: bool) -> Result<Seq<u16>, UriFault> {
    match unescaped(utf8_of(t, 0), 0, all) {
        Err(e) => Err(e),
        Ok(b) => match utf8_text(b, 0) {
            Some(s) => Ok(s),
            None => Err(UriFault::NotUtf8),
        },
    }
}

/// Value of a hexadecimal digit.
fn hex_value(b: u8) -> (r: Option<u8>)
    ensures
        match r {
            Some(x) => x == hex_of(b) && x < 16,
            None => hex_of(b) < 0,
        },
{
    if 0x30 <= b && b <= 0x39 {
        Some(b - 0x30)
    } else if 0x41 <= b && b <= 0x46 {
        Some(b - 0x37)
    } else if 0x61 <= b && b <= 0x66 {
        Some(b - 0x57)
    } else {
        None
    }
}

/// Bytes with others in front, where there are any.
pub open spec fn after_bytes(out: Seq<u8>, rest: Result<Seq<u8>, UriFault>) -> Result<
    Seq<u8>,
    UriFault,
> {
    match rest {
        Ok(b) => Ok(out + b),
        Err(e) => Err(e),
    }
}

/// The bytes that a URI stands for.
fn unescape(s: &Vec<u8>, all: bool) -> (r: Result<Vec<u8>, UriFault>)
    ensures
        match unescaped(s@, 0, all) {
            Ok(b) => r is Ok && r->Ok_0@ == b,
            Err(e) => r is Err && r->Err_0 == e,
        },
{
    let n: usize = s.len();
    let mut out: Vec<u8> = Vec::new();
    let mut i: usize = 0;
    proof {
        if unescaped(s@, 0, all) is Ok {
            assert(out@ + unescaped(s@, 0, all)->Ok_0 =~= unescaped(s@, 0, all)->Ok_0);
        }
    }
    while i < n
        invariant
            n == s@.len(),
            i <= n,
            after_bytes(out@, unescaped(s@, i as int, all)) == unescaped(s@, 0, all),
        decreases n - i,
    {
        let ghost before = out@;
        let c: u8 = s[i];
        if c != 0x25 {
            out.push(c);
            proof {
                if unescaped(s@, i + 1, all) is Ok {
                    let rest = unescaped(s@, i + 1, all)->Ok_0;
                    assert(out@ + rest =~= before + (seq![c] + rest));
                }
            }
            i = i + 1;
        } else {
            if n - i <= 2 {
                return Err(UriFault::Malformed);
            }
            let (hi, lo): (u8, u8) = match (hex_value(s[i + 1]), hex_value(s[i + 2])) {
                (Some(h), Some(l)) => (h, l),
                _ => {
                    return Err(UriFault::Malformed);
                },
            };
            let b: u8 = hi * 16 + lo;
            if !all && is_uri_reserved(b) {
                return Err(UriFault::Reserved);
            }
            out.push(b);
            proof {
                if unescaped(s@, i + 3, all) is Ok {
                    let rest = unescaped(s@, i + 3, all)->Ok_0;
                    assert(out@ + rest =~= before + (seq![b] + rest));
                }
            }
            i = i + 3;
        }
    }
    proof {
        assert(out@ + seq![] =~= out@);
    }
    Ok(out)
}

/// The text that a URI stands for.
fn decode_units(t: &[u16], all: bool) -> (r: Result<Vec<u16>, UriFault>)
    ensures
        match decoded(t@, all) {
            Ok(s) => r is Ok && r->Ok_0@ == s,
            Err(e) => r is Err && r->Err_0 == e,
        },
{
    let bytes: Vec<u8> = encode_utf8(t);
    match unescape(&bytes, all) {
        Err(e) => Err(e),
        Ok(b) => match decode_utf8(b.as_slice()) {
            Some(s) => Ok(s),
            None => Err(UriFault::NotUtf8),
        },
    }
}

// ---------------------------------------------------------------------------
// The functions
// ---------------------------------------------------------------------------

/// Text of the error of a URI.
pub open spec fn uri_error(what: Seq<char>, e: UriFault) -> Seq<char> {
    match e {
        UriFault::Malformed => "URIError: "@ + what + " malformed percent-encoding"@,
        UriFault::Reserved => "URIError: "@ + what + " reserved character"@,
        UriFault::NotUtf8 => "URIError: "@ + what + " invalid UTF-8 sequence"@,
    }
}

/// What encoding a text does.
pub open spec fn encoding(h: HeapModel, t: Seq<u16>, keep: bool) -> (
    HeapModel,
    Result<JsValue, Fault>,
) {
    text_result(h, encoded(t, keep))
}

/// What decoding a text does.
pub open spec fn decoding(h: HeapModel, t: Seq<u16>, what: Seq<char>, all: bool) -> (
    HeapModel,
    Result<JsValue, Fault>,
) {
    match decoded(t, all) {
        Ok(s) => text_result(h, s),
        Err(e) => (h, Err(Fault::Text(uri_error(what, e)))),
    }
}

/// What encoding the first argument does.
pub open spec fn encode_result(h: HeapModel, args: Seq<JsValue>, what: Seq<char>, keep: bool) -> (
    HeapModel,
    Result<JsValue, Fault>,
) {
    if args.len() == 0 {
        (h, Err(Fault::Text("TypeError: "@ + what + " requires an argument"@)))
    } else {
        encoding(h, text_of(h, args[0]), keep)
    }
}

/// What decoding the first argument does.
pub open spec fn decode_result(h: HeapModel, args: Seq<JsValue>, what: Seq<char>, all: bool) -> (
    HeapModel,
    Result<JsValue, Fault>,
) {
    if args.len() == 0 {
        (h, Err(Fault::Text("TypeError: "@ + what + " requires an argument"@)))
    } else {
        decoding(h, text_of(h, args[0]), what, all)
    }
}

/// Writes a text as it stands in a URI: syntax characters stay where `keep` is set.
pub fn encode(heap: &mut Heap, text: &[u16], keep: bool, _what: &str) -> (r: Result<JsValue, Throw>)
    requires
        old(heap).wf(),
    ensures
        heap_ends_in(*final(heap), r, encoding(old(heap)@, text@, keep)),
{
    let s: Vec<u16> = encode_units(text, keep);
    text_value(heap, s.as_slice())
}

/// Reads a text that stands in a URI: escapes of syntax characters are read where `all`
/// is set, and an error otherwise.
pub fn decode(heap: &mut Heap, text: &[u16], all: bool, what: &str) -> (r: Result<JsValue, Throw>)
    requires
        old(heap).wf(),
    ensures
        heap_ends_in(*final(heap), r, decoding(old(heap)@, text@, what@, all)),
{
    match decode_units(text, all) {
        Ok(s) => text_value(heap, s.as_slice()),
        Err(UriFault::Malformed) => Err(error3("URIError: ", what, " malformed percent-encoding")),
        Err(UriFault::Reserved) => Err(error3("URIError: ", what, " reserved character")),
        Err(UriFault::NotUtf8) => Err(error3("URIError: ", what, " invalid UTF-8 sequence")),
    }
}

/// Encodes the first argument.
fn encode_arg(heap: &mut Heap, args: &[JsValue], what: &str, keep: bool) -> (r: Result<
    JsValue,
    Throw,
>)
    requires
        old(heap).wf(),
        valid_args(old(heap)@, args@),
    ensures
        heap_ends_in(*final(heap), r, encode_result(old(heap)@, args@, what@, keep)),
{
    if args.len() == 0 {
        return Err(error3("TypeError: ", what, " requires an argument"));
    }
    let t: Vec<u16> = to_text(heap, args[0]);
    encode(heap, t.as_slice(), keep, what)
}

/// Decodes the first argument.
fn decode_arg(heap: &mut Heap, args: &[JsValue], what: &str, all: bool) -> (r: Result<
    JsValue,
    Throw,
>)
    requires
        old(heap).wf(),
        valid_args(old(heap)@, args@),
    ensures
        heap_ends_in(*final(heap), r, decode_result(old(heap)@, args@, what@, all)),
{
    if args.len() == 0 {
        return Err(error3("TypeError: ", what, " requires an argument"));
    }
    let t: Vec<u16> = to_text(heap, args[0]);
    decode(heap, t.as_slice(), all, what)
}

/// `encodeURI(text)`.
pub fn global_encode_uri(heap: &mut Heap, _this: JsValue, args: &[JsValue]) -> (r: Result<
    JsValue,
    Throw,
>)
    requires
        old(heap).wf(),
        valid_args(old(heap)@, args@),
    ensures
        heap_ends_in(*final(heap), r, encode_result(old(heap)@, args@, "encodeURI"@, true)),
{
    encode_arg(heap, args, "encodeURI", true)
}

/// `encodeURIComponent(text)`.
pub fn global_encode_uri_component(heap: &mut Heap, _this: JsValue, args: &[JsValue]) -> (r: Result<
    JsValue,
    Throw,
>)
    requires
        old(heap).wf(),
        valid_args(old(heap)@, args@),
    ensures
        heap_ends_in(
            *final(heap),
            r,
            encode_result(old(heap)@, args@, "encodeURIComponent"@, false),
        ),
{
    encode_arg(heap, args, "encodeURIComponent", false)
}

/// `decodeURI(text)`.
pub fn global_decode_uri(heap: &mut Heap, _this: JsValue, args: &[JsValue]) -> (r: Result<
    JsValue,
    Throw,
>)
    requires
        old(heap).wf(),
        valid_args(old(heap)@, args@),
    ensures
        heap_ends_in(*final(heap), r, decode_result(old(heap)@, args@, "decodeURI"@, false)),
{
    decode_arg(heap, args, "decodeURI", false)
}

/// `decodeURIComponent(text)`.
pub fn global_decode_uri_component(heap: &mut Heap, _this: JsValue, args: &[JsValue]) -> (r: Result<
    JsValue,
    Throw,
>)
    requires
        old(heap).wf(),
        valid_args(old(heap)@, args@),
    ensures
        heap_ends_in(
            *final(heap),
            r,
            decode_result(old(heap)@, args@, "decodeURIComponent"@, true),
        ),
{
    decode_arg(heap, args, "decodeURIComponent", true)
}

// ---------------------------------------------------------------------------
// Laws
// ---------------------------------------------------------------------------

proof fn lemma_unescaped_shift(p: Seq<u8>, s: Seq<u8>, i: int, all: bool)
    requires
        0 <= i,
    ensures
        unescaped(p + s, p.len() + i, all) == unescaped(s, i, all),
    decreases s.len() - i,
{
    let q = p + s;
    if i < s.len() {
        assert(q[p.len() + i] == s[i]);
        if i + 1 < s.len() {
            assert(q[p.len() + i + 1] == s[i + 1]);
        }
        if i + 2 < s.len() {
            assert(q[p.len() + i + 2] == s[i + 2]);
        }
        if s[i] != 0x25 {
            lemma_unescaped_shift(p, s, i + 1, all);
        } else if i + 2 < s.len() {
            lemma_unescaped_shift(p, s, i + 3, all);
        }
    }
}

proof fn lemma_unescaped_escaped(b: Seq<u8>, i: int, keep: bool)
    requires
        0 <= i <= b.len(),
    ensures
        unescaped(escaped(b, i, keep), 0, !keep) == Ok::<Seq<u8>, UriFault>(b.skip(i)),
        forall|k: int| 0 <= k < escaped(b, i, keep).len() ==> #[trigger] escaped(b, i, keep)[k] < 0x80,
    decreases b.len() - i,
{
    if i < b.len() {
        let x = b[i];
        let p = escaped_byte(x, keep);
        let rest = escaped(b, i + 1, keep);
        let s = p + rest;
        lemma_unescaped_escaped(b, i + 1, keep);
        lemma_unescaped_shift(p, rest, 0, !keep);
        assert(s[0] == p[0]);
        if p.len() == 3 {
            assert(s[1] == p[1]);
            assert(s[2] == p[2]);
            assert(hex_of(p[1]) == x as int / 16);
            assert(hex_of(p[2]) == x as int % 16);
        }
        assert(seq![x] + b.skip(i + 1) =~= b.skip(i));
        assert forall|k: int| 0 <= k < s.len() implies #[trigger] s[k] < 0x80 by {
            if k >= p.len() {
                assert(s[k] == rest[k - p.len()]);
            }
        }
    } else {
        assert(b.skip(i) =~= seq![]);
    }
}

/// What `encodeURI` makes of a text without lone surrogates, `decodeURI` turns back
/// into it, and so do the component variants.
pub proof fn law_uri_reads_back(t: Seq<u16>, keep: bool)
    requires
        forall|k: int| 0 <= k < t.len() ==> !is_lone(t, k),
    ensures
        decoded(encoded(t, keep), !keep) == Ok::<Seq<u16>, UriFault>(t),
{
    let b = utf8_of(t, 0);
    let e = escaped(b, 0, keep);
    lemma_unescaped_escaped(b, 0, keep);
    let u = as_units(e);
    assert forall|k: int| 0 <= k < u.len() implies #[trigger] u[k] < 0x80 by {
        assert(e[k] < 0x80);
    }
    lemma_ascii_bytes(u, 0);
    assert(utf8_of(u, 0) =~= e);
    assert(b.skip(0) =~= b);
    law_utf8_reads_back(t);
}

/// Encoding a text without lone surrogates gives a text, and decoding that text gives a
/// text that reads as the first one.
pub proof fn law_uri_round_trip(h: HeapModel, t: Seq<u16>, keep: bool, what: Seq<char>)
    requires
        h.texts.len() + 1 < usize::MAX,
        forall|k: int| 0 <= k < t.len() ==> !is_lone(t, k),
    ensures
        ({
            let (h1, r) = encoding(h, t, keep);
            &&& r matches Ok(JsValue::Text(n))
            &&& n < h1.texts.len()
            &&& ({
                let (h2, back) = decoding(h1, h1.texts[n as int], what, !keep);
                back matches Ok(JsValue::Text(m)) && m < h2.texts.len() && h2.texts[m as int] == t
            })
        }),
{
    law_uri_reads_back(t, keep);
    let h1 = h.interned(encoded(t, keep));
    lemma_interned_text(h, encoded(t, keep));
    lemma_interned_text(h1, t);
}

/// A text that is put into a heap stands there.
proof fn lemma_interned_text(h: HeapModel, t: Seq<u16>)
    requires
        h.texts.len() < usize::MAX,
    ensures
        h.text_id(t) < h.interned(t).texts.len(),
        h.interned(t).texts[h.text_id(t) as int] == t,
{
}

} // verus!

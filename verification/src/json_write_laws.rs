//! How JSON texts look: quoting, line breaks and indentation, and what is left out.
use vstd::prelude::*;

use crate::double::{int_double, is_finite, lemma_int_exact, lemma_int_order, saturated};
use crate::heap::HeapModel;
use crate::json::{
    WriteErr, allowed_names, gap_of, json_elements, json_members, json_value, listed_members,
    listed_names, members, named_value,
};
use crate::json_text::{
    indent, quoted, quoted_prefix, quoted_unit, repeated, string_literal, string_rest,
    unicode_escape,
};
use crate::text::{is_high, is_lone, is_low, utf16_of};
use crate::value::{JsValue, Kind};

verus! {

// ---------------------------------------------------------------------------
// Quoting
// ---------------------------------------------------------------------------

/// Whether a unit stands for itself between quotes.
pub open spec fn is_bare(s: Seq<u16>, i: int) -> bool {
    s[i] >= 0x20 && s[i] != 0x22 && s[i] != 0x5c && !is_lone(s, i)
}

/// A text without controls, quotes, backslashes and lone surrogates is written between
/// quotes as it is.
pub proof fn law_quoted_bare(s: Seq<u16>)
    requires
        forall|i: int| 0 <= i < s.len() ==> #[trigger] is_bare(s, i),
    ensures
        quoted(s) == seq![0x22u16] + s + seq![0x22u16],
{
    lemma_bare_prefix(s, s.len() as int);
    assert(s.take(s.len() as int) =~= s);
}

proof fn lemma_bare_prefix(s: Seq<u16>, k: int)
    requires
        0 <= k <= s.len(),
        forall|i: int| 0 <= i < s.len() ==> #[trigger] is_bare(s, i),
    ensures
        quoted_prefix(s, k) == s.take(k),
    decreases k,
{
    if k > 0 {
        lemma_bare_prefix(s, k - 1);
        assert(is_bare(s, k - 1));
        assert(s.take(k) =~= s.take(k - 1) + seq![s[k - 1]]);
    } else {
        assert(s.take(0) =~= seq![]);
    }
}

/// Quotes, backslashes and the controls that have one get a short escape; other controls
/// are written by their number.
pub proof fn law_quoted_escapes(c: u16)
    ensures
        c == 0x22 || c == 0x5c ==> quoted(seq![c]) == seq![0x22u16, 0x5c, c, 0x22],
        c == 0x08 ==> quoted(seq![c]) == seq![0x22u16, 0x5c, 0x62, 0x22],
        c == 0x09 ==> quoted(seq![c]) == seq![0x22u16, 0x5c, 0x74, 0x22],
        c == 0x0a ==> quoted(seq![c]) == seq![0x22u16, 0x5c, 0x6e, 0x22],
        c == 0x0c ==> quoted(seq![c]) == seq![0x22u16, 0x5c, 0x66, 0x22],
        c == 0x0d ==> quoted(seq![c]) == seq![0x22u16, 0x5c, 0x72, 0x22],
        c < 0x20 && c != 0x08 && c != 0x09 && c != 0x0a && c != 0x0c && c != 0x0d ==> quoted(
            seq![c],
        ) == seq![
            0x22u16,
            0x5c,
            0x75,
            0x30,
            0x30,
            if c >= 0x10 {
                0x31u16
            } else {
                0x30u16
            },
            if c % 16 < 10 {
                (0x30 + c % 16) as u16
            } else {
                (0x61 + c % 16 - 10) as u16
            },
            0x22,
        ],
{
    let s = seq![c];
    reveal_with_fuel(quoted_prefix, 2);
    assert(quoted_prefix(s, 1) =~= quoted_unit(s, 0));
    let q = quoted(s);
    if c == 0x22 || c == 0x5c {
        assert(q =~= seq![0x22u16, 0x5c, c, 0x22]);
    } else if c == 0x08 {
        assert(q =~= seq![0x22u16, 0x5c, 0x62, 0x22]);
    } else if c == 0x09 {
        assert(q =~= seq![0x22u16, 0x5c, 0x74, 0x22]);
    } else if c == 0x0a {
        assert(q =~= seq![0x22u16, 0x5c, 0x6e, 0x22]);
    } else if c == 0x0c {
        assert(q =~= seq![0x22u16, 0x5c, 0x66, 0x22]);
    } else if c == 0x0d {
        assert(q =~= seq![0x22u16, 0x5c, 0x72, 0x22]);
    } else if c < 0x20 {
        assert(c as int / 4096 == 0 && c as int / 256 % 16 == 0);
        assert(c as int / 16 % 16 == if c >= 0x10 {
            1int
        } else {
            0int
        });
        assert(q =~= seq![0x22u16] + unicode_escape(c) + seq![0x22u16]);
        assert(q =~= seq![
            0x22u16,
            0x5c,
            0x75,
            0x30,
            0x30,
            if c >= 0x10 {
                0x31u16
            } else {
                0x30u16
            },
            if c % 16 < 10 {
                (0x30 + c % 16) as u16
            } else {
                (0x61 + c % 16 - 10) as u16
            },
            0x22,
        ]);
    }
}

/// A text in two parts that do not share a surrogate pair is written as the parts are,
/// between one pair of quotes.
pub proof fn law_quoted_parts(a: Seq<u16>, b: Seq<u16>)
    requires
        a.len() > 0 && b.len() > 0 ==> !(is_high(a.last()) && is_low(b[0])),
    ensures
        quoted(a + b) == quoted(a).drop_last() + quoted(b).drop_first(),
{
    lemma_front_part(a, b, a.len() as int);
    lemma_back_part(a, b, b.len() as int);
    let s = a + b;
    let x = quoted_prefix(a, a.len() as int);
    let y = quoted_prefix(b, b.len() as int);
    assert(quoted_prefix(s, s.len() as int) == x + y);
    assert(quoted(a).drop_last() =~= seq![0x22u16] + x);
    assert(quoted(b).drop_first() =~= y + seq![0x22u16]);
    assert(quoted(s) =~= seq![0x22u16] + x + (y + seq![0x22u16]));
}

proof fn lemma_front_part(a: Seq<u16>, b: Seq<u16>, k: int)
    requires
        0 <= k <= a.len(),
        a.len() > 0 && b.len() > 0 ==> !(is_high(a.last()) && is_low(b[0])),
    ensures
        quoted_prefix(a + b, k) == quoted_prefix(a, k),
    decreases k,
{
    if k > 0 {
        lemma_front_part(a, b, k - 1);
        let s = a + b;
        let i = k - 1;
        assert(s[i] == a[i]);
        if i + 1 < a.len() {
            assert(s[i + 1] == a[i + 1]);
        } else if b.len() > 0 {
            assert(s[i + 1] == b[0]);
            assert(a[i] == a.last());
        }
        if i > 0 {
            assert(s[i - 1] == a[i - 1]);
        }
        assert(is_lone(s, i) == is_lone(a, i));
    }
}

proof fn lemma_back_part(a: Seq<u16>, b: Seq<u16>, k: int)
    requires
        0 <= k <= b.len(),
        a.len() > 0 && b.len() > 0 ==> !(is_high(a.last()) && is_low(b[0])),
    ensures
        quoted_prefix(a + b, a.len() + k) == quoted_prefix(a, a.len() as int) + quoted_prefix(b, k),
    decreases k,
{
    let s = a + b;
    if k > 0 {
        lemma_back_part(a, b, k - 1);
        let i = a.len() + k - 1;
        assert(s[i] == b[k - 1]);
        if k < b.len() {
            assert(s[i + 1] == b[k]);
        }
        if k > 1 {
            assert(s[i - 1] == b[k - 2]);
        } else if a.len() > 0 {
            assert(s[i - 1] == a.last());
        }
        assert(is_lone(s, i) == is_lone(b, k - 1));
        assert(quoted_unit(s, i) == quoted_unit(b, k - 1));
        assert(quoted_prefix(s, a.len() + k) =~= quoted_prefix(a, a.len() as int) + quoted_prefix(
            b,
            k,
        ));
    } else {
        lemma_front_part(a, b, a.len() as int);
        assert(quoted_prefix(a, a.len() as int) + Seq::<u16>::empty() =~= quoted_prefix(
            a,
            a.len() as int,
        ));
    }
}

/// A unit between quotes that needs no escape, and a slash or a quote behind a backslash,
/// is read as that unit; a control is refused.
pub proof fn law_string_units(c: u16)
    ensures
        c >= 0x20 && c != 0x22 && c != 0x5c ==> string_literal(seq![0x22u16, c, 0x22], 0) == Ok::<
            (Seq<u16>, int),
            Seq<char>,
        >((seq![c], 3)),
        c == 0x2f || c == 0x22 || c == 0x5c ==> string_literal(seq![0x22u16, 0x5c, c, 0x22], 0)
            == Ok::<(Seq<u16>, int), Seq<char>>((seq![c], 4)),
        c < 0x20 ==> string_literal(seq![0x22u16, c, 0x22], 0) is Err,
        c != 0x22 ==> string_literal(seq![0x22u16, c], 0) is Err,
{
    let s = seq![0x22u16, c, 0x22];
    let t = seq![0x22u16, 0x5c, c, 0x22];
    let u = seq![0x22u16, c];
    reveal_with_fuel(string_rest, 4);
    assert(Seq::<u16>::empty() + seq![c] =~= seq![c]);
}

// ---------------------------------------------------------------------------
// Values that are not objects
// ---------------------------------------------------------------------------

/// `null`, booleans and numbers are written by their names and digits, numbers that are
/// not finite as `null`; `undefined`, symbols and functions are not written, and big
/// integers are an error.
pub proof fn law_json_plain(h: HeapModel, u: Seq<u16>, seen: Seq<usize>, b: u64, n: usize)
    ensures
        json_value(h, JsValue::Null, u, seen, None) == Ok::<Option<Seq<u16>>, WriteErr>(
            Some(utf16_of("null"@)),
        ),
        json_value(h, JsValue::Bool(true), u, seen, None) == Ok::<Option<Seq<u16>>, WriteErr>(
            Some(utf16_of("true"@)),
        ),
        json_value(h, JsValue::Bool(false), u, seen, None) == Ok::<Option<Seq<u16>>, WriteErr>(
            Some(utf16_of("false"@)),
        ),
        !is_finite(b) ==> json_value(h, JsValue::Double(b), u, seen, None) == json_value(
            h,
            JsValue::Null,
            u,
            seen,
            None,
        ),
        json_value(h, JsValue::Undefined, u, seen, None) == Ok::<Option<Seq<u16>>, WriteErr>(None),
        json_value(h, JsValue::Symbol(n), u, seen, None) == Ok::<Option<Seq<u16>>, WriteErr>(None),
        h.objects[n as int].kind == Kind::Function ==> json_value(
            h,
            JsValue::Object(n),
            u,
            seen,
            None,
        ) == Ok::<Option<Seq<u16>>, WriteErr>(None),
        json_value(h, JsValue::BigInt(n), u, seen, None) == Err::<Option<Seq<u16>>, WriteErr>(
            WriteErr::BigInt,
        ),
        seen.contains(n) && h.objects[n as int].kind != Kind::Function ==> json_value(
            h,
            JsValue::Object(n),
            u,
            seen,
            None,
        ) == Err::<Option<Seq<u16>>, WriteErr>(WriteErr::Cyclic),
{
}

// ---------------------------------------------------------------------------
// Lines
// ---------------------------------------------------------------------------

/// A line break and a unit `d` times over, nothing where the unit is empty.
pub open spec fn line(u: Seq<u16>, d: nat) -> Seq<u16> {
    if u.len() == 0 {
        Seq::empty()
    } else {
        Seq::new(
            1 + d * u.len(),
            |i: int|
                if i == 0 {
                    0x0au16
                } else {
                    u[(i - 1) % (u.len() as int)]
                },
        )
    }
}

proof fn lemma_repeated_len(u: Seq<u16>, d: nat)
    requires
        u.len() > 0,
    ensures
        repeated(u, d).len() == d * u.len(),
        forall|i: int|
            0 <= i < d * u.len() ==> #[trigger] repeated(u, d)[i] == u[i % (u.len() as int)],
    decreases d,
{
    let n = u.len() as int;
    if d > 0 {
        lemma_repeated_len(u, (d - 1) as nat);
        let a = repeated(u, (d - 1) as nat);
        assert(d * n == (d - 1) * n + n) by (nonlinear_arith);
        assert forall|i: int| 0 <= i < d * u.len() implies #[trigger] repeated(u, d)[i] == u[i % n] by {
            if i < a.len() {
                assert(repeated(u, d)[i] == a[i]);
            } else {
                let k = i - a.len();
                assert(repeated(u, d)[i] == u[k]);
                vstd::arithmetic::div_mod::lemma_mod_multiples_vanish(d - 1, k, n);
                assert((d - 1) * n + k == n * (d - 1) + k) by (nonlinear_arith);
                vstd::arithmetic::div_mod::lemma_small_mod(k as nat, n as nat);
            }
        }
    } else {
        assert(0 * n == 0) by (nonlinear_arith);
    }
}

proof fn lemma_line(u: Seq<u16>, d: nat)
    ensures
        indent(u, d) == line(u, d),
{
    if u.len() > 0 {
        lemma_repeated_len(u, d);
        assert(indent(u, d) =~= line(u, d));
    }
}

/// The JSON text of an element: `null` where nothing is written.
pub open spec fn element_text(h: HeapModel, v: JsValue, u: Seq<u16>, seen: Seq<usize>) -> Seq<u16> {
    match json_value(h, v, u, seen, None) {
        Ok(Some(t)) => t,
        _ => utf16_of("null"@),
    }
}

/// Whether an object can be written inside others.
pub open spec fn is_open(h: HeapModel, o: usize, seen: Seq<usize>) -> bool {
    !seen.contains(o) && seen.len() < h.objects.len()
}

/// An array without elements is written as two brackets; one with one element as the
/// element on a line of its own, one level deeper than the brackets.
pub proof fn law_json_array_lines(h: HeapModel, o: usize, u: Seq<u16>, seen: Seq<usize>)
    requires
        is_open(h, o, seen),
        h.objects[o as int].kind == Kind::Array,
    ensures
        ({
            let s = h.objects[o as int].elements;
            let r = json_value(h, JsValue::Object(o), u, seen, None);
            let inner = seen.push(o);
            &&& s.len() == 0 ==> r == Ok::<Option<Seq<u16>>, WriteErr>(Some(seq![0x5bu16, 0x5d]))
            &&& s.len() == 1 && json_value(h, s[0], u, inner, None) is Ok ==> r == Ok::<
                Option<Seq<u16>>,
                WriteErr,
            >(
                Some(
                    seq![0x5bu16] + line(u, seen.len() + 1) + element_text(h, s[0], u, inner) + line(
                        u,
                        seen.len(),
                    ) + seq![0x5du16],
                ),
            )
        }),
{
    lemma_line(u, seen.len());
    lemma_line(u, seen.len() + 1);
    let s = h.objects[o as int].elements;
    let inner = seen.push(o);
    reveal_with_fuel(json_elements, 2);
    if s.len() == 1 && json_value(h, s[0], u, inner, None) is Ok {
        let t = element_text(h, s[0], u, inner);
        let e = json_elements(h, s, 1, u, inner, None)->Ok_0;
        assert(e =~= line(u, seen.len() + 1) + t);
        assert(seq![0x5bu16] + e + line(u, seen.len()) + seq![0x5du16] =~= seq![0x5bu16] + line(
            u,
            seen.len() + 1,
        ) + t + line(u, seen.len()) + seq![0x5du16]);
    }
}

/// One more element comes behind a comma on a line of its own: written among the elements
/// of an array, what was written before stays.
pub proof fn law_json_one_more_element(
    h: HeapModel,
    s: Seq<JsValue>,
    v: JsValue,
    u: Seq<u16>,
    seen: Seq<usize>,
)
    requires
        s.len() > 0,
        json_elements(h, s, s.len() as int, u, seen, None) is Ok,
        json_value(h, v, u, seen, None) is Ok,
    ensures
        json_elements(h, s.push(v), s.len() as int + 1, u, seen, None) == Ok::<Seq<u16>, WriteErr>(
            json_elements(h, s, s.len() as int, u, seen, None)->Ok_0 + seq![0x2cu16] + line(
                u,
                seen.len(),
            ) + element_text(h, v, u, seen),
        ),
{
    lemma_line(u, seen.len());
    lemma_elements_prefix(h, s, v, s.len() as int, u, seen);
}

proof fn lemma_elements_prefix(
    h: HeapModel,
    s: Seq<JsValue>,
    v: JsValue,
    k: int,
    u: Seq<u16>,
    seen: Seq<usize>,
)
    requires
        0 <= k <= s.len(),
    ensures
        json_elements(h, s.push(v), k, u, seen, None) == json_elements(h, s, k, u, seen, None),
    decreases k,
{
    if k > 0 {
        lemma_elements_prefix(h, s, v, k - 1, u, seen);
    }
}

/// What stands between a name and its value.
pub open spec fn separator(u: Seq<u16>) -> Seq<u16> {
    if u.len() == 0 {
        seq![0x3au16]
    } else {
        seq![0x3au16, 0x20]
    }
}

/// One more member of which something is written comes on a line of its own, behind a
/// comma where it is not the first: its name in quotes, a colon and its value; one of
/// which nothing is written changes nothing.
pub proof fn law_json_one_more_member(
    h: HeapModel,
    ms: Seq<(usize, JsValue)>,
    m: (usize, JsValue),
    u: Seq<u16>,
    seen: Seq<usize>,
)
    requires
        json_members(h, ms, ms.len() as int, u, seen, None) is Ok,
        json_value(h, m.1, u, seen, None) is Ok,
    ensures
        ({
            let before = json_members(h, ms, ms.len() as int, u, seen, None)->Ok_0;
            json_members(h, ms.push(m), ms.len() as int + 1, u, seen, None) == Ok::<
                Seq<u16>,
                WriteErr,
            >(
                match json_value(h, m.1, u, seen, None)->Ok_0 {
                    None => before,
                    Some(t) => (if before.len() == 0 {
                        seq![]
                    } else {
                        before + seq![0x2cu16]
                    }) + line(u, seen.len()) + quoted(h.texts[m.0 as int]) + separator(u) + t,
                },
            )
        }),
{
    lemma_line(u, seen.len());
    lemma_members_prefix(h, ms, m, ms.len() as int, u, seen);
    let before = json_members(h, ms, ms.len() as int, u, seen, None)->Ok_0;
    if before.len() == 0 {
        assert(before =~= seq![]);
    }
}

proof fn lemma_members_prefix(
    h: HeapModel,
    ms: Seq<(usize, JsValue)>,
    m: (usize, JsValue),
    k: int,
    u: Seq<u16>,
    seen: Seq<usize>,
)
    requires
        0 <= k <= ms.len(),
    ensures
        json_members(h, ms.push(m), k, u, seen, None) == json_members(h, ms, k, u, seen, None),
    decreases k,
{
    if k > 0 {
        lemma_members_prefix(h, ms, m, k - 1, u, seen);
    }
}

/// An object of which nothing is written is written as two brackets, and any other as its
/// members and a closing bracket on a line of its own.
pub proof fn law_json_object_lines(h: HeapModel, o: usize, u: Seq<u16>, seen: Seq<usize>)
    requires
        is_open(h, o, seen),
        h.objects[o as int].kind != Kind::Array,
        h.objects[o as int].kind != Kind::Function,
        ({
            let ms = members(h, o, None);
            json_members(h, ms, ms.len() as int, u, seen.push(o), None) is Ok
        }),
    ensures
        ({
            let ms = members(h, o, None);
            let t = json_members(h, ms, ms.len() as int, u, seen.push(o), None)->Ok_0;
            json_value(h, JsValue::Object(o), u, seen, None) == Ok::<Option<Seq<u16>>, WriteErr>(
                Some(
                    if t.len() == 0 {
                        seq![0x7bu16, 0x7d]
                    } else {
                        seq![0x7bu16] + t + line(u, seen.len()) + seq![0x7du16]
                    },
                ),
            )
        }),
{
    lemma_line(u, seen.len());
}

/// An array of several elements is written as its elements between brackets, the closing
/// one on a line of its own.
pub proof fn law_json_array_brackets(h: HeapModel, o: usize, u: Seq<u16>, seen: Seq<usize>)
    requires
        is_open(h, o, seen),
        h.objects[o as int].kind == Kind::Array,
        ({
            let s = h.objects[o as int].elements;
            s.len() > 0 && json_elements(h, s, s.len() as int, u, seen.push(o), None) is Ok
        }),
    ensures
        ({
            let s = h.objects[o as int].elements;
            let t = json_elements(h, s, s.len() as int, u, seen.push(o), None)->Ok_0;
            json_value(h, JsValue::Object(o), u, seen, None) == Ok::<Option<Seq<u16>>, WriteErr>(
                Some(seq![0x5bu16] + t + line(u, seen.len()) + seq![0x5du16]),
            )
        }),
{
    lemma_line(u, seen.len());
}

// ---------------------------------------------------------------------------
// Arguments
// ---------------------------------------------------------------------------

/// A number asks for that many spaces, at most ten, and a text for its first ten units;
/// anything else for none.
pub proof fn law_gap(h: HeapModel, n: i32, w: usize)
    ensures
        ({
            let g = gap_of(h, JsValue::Smi(n));
            &&& g.len() == if n < 0 {
                0
            } else if n > 10 {
                10
            } else {
                n as int
            }
            &&& forall|i: int| 0 <= i < g.len() ==> #[trigger] g[i] == 0x20
        }),
        ({
            let t = h.texts[w as int];
            let g = gap_of(h, JsValue::Text(w));
            &&& g.len() == if t.len() > 10 {
                10
            } else {
                t.len()
            }
            &&& forall|i: int|
                0 <= i < g.len() && !is_high(t[i]) && !is_low(t[i]) ==> #[trigger] g[i] == t[i]
        }),
        gap_of(h, JsValue::Undefined).len() == 0,
        gap_of(h, JsValue::Null).len() == 0,
        gap_of(h, JsValue::Bool(true)).len() == 0,
        gap_of(h, JsValue::Object(w)).len() == 0,
{
    lemma_int_exact(n as int);
    lemma_int_exact(1);
    if n >= 1 {
        lemma_int_order(1, n as int);
    } else if n < 0 {
        assert(saturated(int_double(n as int)) == n);
    } else {
        assert(saturated(int_double(0)) == 0);
    }
}

/// A list of names picks properties of an object in the order of the list, each by its own
/// value, and passes over names that the object does not have.
pub proof fn law_listed_members(h: HeapModel, o: usize, names: Seq<Seq<u16>>, name: Seq<u16>)
    ensures
        members(h, o, Some(seq![])).len() == 0,
        members(h, o, Some(names.push(name))) == match named_value(h, o, name) {
            Some(v) => members(h, o, Some(names)).push((h.text_id(name), v)),
            None => members(h, o, Some(names)),
        },
{
    lemma_listed_prefix(h, o, names, name, names.len() as int);
}

proof fn lemma_listed_prefix(
    h: HeapModel,
    o: usize,
    names: Seq<Seq<u16>>,
    name: Seq<u16>,
    k: int,
)
    requires
        0 <= k <= names.len(),
    ensures
        listed_members(h, o, names.push(name), k) == listed_members(h, o, names, k),
    decreases k,
{
    if k > 0 {
        lemma_listed_prefix(h, o, names, name, k - 1);
    }
}

/// Only an array lists names: without one every enumerable property is written.
pub proof fn law_replacer(h: HeapModel, v: JsValue, o: usize)
    ensures
        !(v is Object) ==> allowed_names(h, v) is None,
        h.objects[o as int].kind != Kind::Array ==> allowed_names(h, JsValue::Object(o)) is None,
        h.objects[o as int].kind == Kind::Array ==> allowed_names(h, JsValue::Object(o)) is Some,
{
}

/// A list of texts without lone surrogates, none of which occurs twice, lists them in
/// their order.
pub proof fn law_listed_names(h: HeapModel, s: Seq<JsValue>, k: int)
    requires
        0 <= k <= s.len(),
        forall|i: int|
            0 <= i < s.len() ==> (#[trigger] s[i] matches JsValue::Text(n) && forall|j: int|
                0 <= j < h.texts[n as int].len() ==> !is_lone(h.texts[n as int], j)),
        forall|i: int, j: int|
            0 <= i < j < s.len() ==> h.texts[(#[trigger] s[i])->Text_0 as int]
                != h.texts[(#[trigger] s[j])->Text_0 as int],
    ensures
        listed_names(h, s, k).len() == k,
        forall|i: int|
            0 <= i < k ==> #[trigger] listed_names(h, s, k)[i] == h.texts[s[i]->Text_0 as int],
    decreases k,
{
    if k > 0 {
        law_listed_names(h, s, k - 1);
        let n = s[k - 1]->Text_0;
        let t = h.texts[n as int];
        assert(s[k - 1] is Text);
        assert(crate::text::well_formed(t) =~= t);
        let head = listed_names(h, s, k - 1);
        if head.contains(t) {
            let i = head.index_of(t);
            assert(head[i] == h.texts[s[i]->Text_0 as int]);
            assert(h.texts[s[i]->Text_0 as int] != h.texts[s[k - 1]->Text_0 as int]);
        }
    }
}

} // verus!

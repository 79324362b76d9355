//! Values and their JSON texts.
use vstd::prelude::*;

use crate::convert::number_value;
use crate::decimal::{digits_end, is_digit, lemma_digits_end, shortest_decimal};
use crate::double::{
    int_double, is_finite, is_integral, is_negative, lemma_integral_is_int, magnitude,
};
use crate::heap::{HeapModel, ObjModel, plain_object};
use crate::internal_methods::lemma_lookup_key;
use crate::json::{
    WriteErr, colon, json_elements, json_members, json_value, members, number_literal,
    parsed_elements, parsed_members, parsed_text, parsed_value, with_member, with_pushed,
    word_at,
};
use crate::json_text::{
    array_index_of, indent, is_json_space, json_space_end, law_quote_reads_back,
    lemma_json_space_end, number_end, quoted, repeated,
};
use crate::key_order::{
    ascending, id_index, index_ids, insert_id, is_live, law_key_order, name_ids, ordered_ids,
    text_ids,
};
use crate::number_format::{layout, number_string, pointed, sign_text};
use crate::number_laws::{law_number_string_reads_back, lemma_end_shift, lemma_run};
use crate::object_describe::lemma_ascii_units;
use crate::properties::{Prop, PropBody, distinct_keys, has_key, index_of_key, lemma_index_of_key};
use crate::read_back::law_shortest_reads_back;
use crate::text::{is_lone, law_index_text_unique, law_nat_text_value, nat_text, utf16_of};
use crate::value::{JsValue, Kind, PropKey, all_attrs};

verus! {

/// What a JSON text stands for.
pub ghost enum Json {
    /// `null`.
    Null,
    /// A boolean.
    Bool(bool),
    /// A number.
    Number(u64),
    /// A text.
    Text(Seq<u16>),
    /// An array.
    Array(Seq<Json>),
    /// Names and values.
    Object(Seq<(Seq<u16>, Json)>),
}

/// The JSON text of a tree that lies `d` deep, indented by a unit.
pub open spec fn tree_text(j: Json, u: Seq<u16>, d: nat) -> Seq<u16>
    decreases j, 0int,
{
    match j {
        Json::Null => utf16_of("null"@),
        Json::Bool(true) => utf16_of("true"@),
        Json::Bool(false) => utf16_of("false"@),
        Json::Number(b) => number_string(b),
        Json::Text(t) => quoted(t),
        Json::Array(s) => if s.len() == 0 {
            seq![0x5bu16, 0x5d]
        } else {
            seq![0x5bu16] + array_text(s, s.len() as int, u, d + 1) + indent(u, d) + seq![0x5du16]
        },
        Json::Object(s) => if s.len() == 0 {
            seq![0x7bu16, 0x7d]
        } else {
            seq![0x7bu16] + object_text(s, s.len() as int, u, d + 1) + indent(u, d) + seq![0x7du16]
        },
    }
}

/// The first `k` elements of an array, which lie `d` deep.
pub open spec fn array_text(s: Seq<Json>, k: int, u: Seq<u16>, d: nat) -> Seq<u16>
    decreases s, k,
{
    if k <= 0 || k > s.len() {
        seq![]
    } else {
        (if k == 1 {
            seq![]
        } else {
            array_text(s, k - 1, u, d) + seq![0x2cu16]
        }) + indent(u, d) + tree_text(s[k - 1], u, d)
    }
}

/// The first `k` members of an object, which lie `d` deep.
pub open spec fn object_text(s: Seq<(Seq<u16>, Json)>, k: int, u: Seq<u16>, d: nat) -> Seq<u16>
    decreases s, k,
{
    if k <= 0 || k > s.len() {
        seq![]
    } else {
        (if k == 1 {
            seq![]
        } else {
            object_text(s, k - 1, u, d) + seq![0x2cu16]
        }) + indent(u, d) + quoted(s[k - 1].0) + colon(u) + tree_text(s[k - 1].1, u, d)
    }
}

/// Whether a text is white space.
pub open spec fn blank(u: Seq<u16>) -> bool {
    forall|i: int| 0 <= i < u.len() ==> is_json_space(#[trigger] u[i])
}

proof fn lemma_blank_indent(u: Seq<u16>, d: nat)
    requires
        blank(u),
    ensures
        blank(indent(u, d)),
    decreases d,
{
    if u.len() > 0 {
        lemma_blank_repeated(u, d);
        let t = indent(u, d);
        assert forall|i: int| 0 <= i < t.len() implies is_json_space(#[trigger] t[i]) by {
            if i > 0 {
                assert(t[i] == repeated(u, d)[i - 1]);
            }
        }
    }
}

proof fn lemma_blank_repeated(u: Seq<u16>, d: nat)
    requires
        blank(u),
    ensures
        blank(repeated(u, d)),
    decreases d,
{
    if d > 0 {
        lemma_blank_repeated(u, (d - 1) as nat);
        let t = repeated(u, d);
        let a = repeated(u, (d - 1) as nat);
        assert forall|i: int| 0 <= i < t.len() implies is_json_space(#[trigger] t[i]) by {
            if i < a.len() {
                assert(t[i] == a[i]);
            } else {
                assert(t[i] == u[i - a.len()]);
            }
        }
    }
}

/// White space in a text is passed over.
proof fn lemma_skipped(w: Seq<u16>, x: int, b: Seq<u16>)
    requires
        blank(b),
        stands_at(w, x, b),
        x + b.len() == w.len() || !is_json_space(w[x + b.len()]),
    ensures
        json_space_end(w, x) == x + b.len(),
    decreases b.len(),
{
    if b.len() > 0 {
        assert(w.subrange(x, x + b.len())[0] == w[x]);
        let c = b.skip(1);
        assert(w.subrange(x + 1, x + 1 + c.len()) =~= c) by {
            assert forall|i: int| 0 <= i < c.len() implies w[x + 1 + i] == #[trigger] c[i] by {
                assert(w.subrange(x, x + b.len())[i + 1] == w[x + 1 + i]);
            }
        }
        lemma_skipped(w, x + 1, c);
    }
}

/// A value is read behind white space as it is without.
proof fn lemma_value_skips(
    h: HeapModel,
    protos: (Option<usize>, Option<usize>),
    w: Seq<u16>,
    i: int,
)
    requires
        0 <= i,
    ensures
        parsed_value(h, protos, w, i) == parsed_value(h, protos, w, json_space_end(w, i)),
{
    let a = json_space_end(w, i);
    lemma_json_space_end(w, i);
    lemma_space_end_again(w, i);
}

proof fn lemma_space_end_again(w: Seq<u16>, i: int)
    ensures
        json_space_end(w, json_space_end(w, i)) == json_space_end(w, i),
    decreases w.len() - i,
{
    if 0 <= i < w.len() && is_json_space(w[i]) {
        lemma_space_end_again(w, i + 1);
    }
}

// ---------------------------------------------------------------------------
// Numbers
// ---------------------------------------------------------------------------

/// A number literal behind a minus sign ends where it did.
proof fn lemma_number_shift(t: Seq<u16>)
    requires
        t.len() > 0,
        is_digit(t[0]),
    ensures
        number_end(seq![0x2du16] + t, 0) == match number_end(t, 0) {
            Some(n) => Some(n + 1),
            None => None,
        },
{
    let s = seq![0x2du16] + t;
    lemma_end_shift(0x2d, t, 0);
    let b = digits_end(t, 0);
    lemma_digits_end(t, 0);
    if b < t.len() {
        assert(s[b + 1] == t[b]);
        let c = if t[b] == 0x2e {
            digits_end(t, b + 1)
        } else {
            b
        };
        if t[b] == 0x2e {
            lemma_end_shift(0x2d, t, b + 1);
            lemma_digits_end(t, b + 1);
        }
        if c < t.len() {
            assert(s[c + 1] == t[c]);
            if c + 1 < t.len() {
                assert(s[c + 2] == t[c + 1]);
            }
            lemma_end_shift(0x2d, t, c + 1);
            lemma_end_shift(0x2d, t, c + 2);
        }
    }
}

/// The layout of digits is one number literal that starts with a digit.
proof fn lemma_layout_end(s: nat, n: int)
    requires
        s > 0,
    ensures
        number_end(layout(nat_text(s), n), 0) == Some(layout(nat_text(s), n).len() as int),
        layout(nat_text(s), n).len() > 0,
        is_digit(layout(nat_text(s), n)[0]),
{
    let d = nat_text(s);
    let k = d.len() as int;
    let t = layout(d, n);
    law_nat_text_value(s);
    if k <= n <= 21 {
        assert forall|i: int| 0 <= i < t.len() implies is_digit(#[trigger] t[i]) by {
            if i < k {
                assert(t[i] == d[i]);
            }
        }
        lemma_run(t, 0, t.len() as int);
    } else if 0 < n <= 21 {
        assert forall|i: int| 0 <= i < n implies is_digit(#[trigger] t[i]) by {
            assert(t[i] == d[i]);
        }
        assert forall|i: int| n < i < t.len() implies is_digit(#[trigger] t[i]) by {
            assert(t[i] == d[i - 1]);
        }
        assert(t[n] == 0x2e);
        lemma_run(t, 0, n);
        lemma_run(t, n + 1, t.len() as int);
    } else if -6 < n <= 0 {
        assert(t[0] == 0x30 && t[1] == 0x2e);
        assert forall|i: int| 2 <= i < t.len() implies is_digit(#[trigger] t[i]) by {
            if i < 2 - n {
                assert(t[i] == 0x30);
            } else {
                assert(t[i] == d[i - 2 + n]);
            }
        }
        lemma_run(t, 0, 1);
        lemma_run(t, 2, t.len() as int);
    } else {
        let x = n - 1;
        let m: nat = if x >= 0 {
            x as nat
        } else {
            (-x) as nat
        };
        let w = nat_text(m);
        law_nat_text_value(m);
        let head = pointed(d);
        let h = head.len() as int;
        assert(t[0] == d[0]) by {
            assert(head[0] == d[0]);
        }
        assert(t[h] == 0x65);
        assert(t[h + 1] == 0x2b || t[h + 1] == 0x2d);
        assert forall|i: int| h + 2 <= i < t.len() implies is_digit(#[trigger] t[i]) by {
            assert(t[i] == w[i - h - 2]);
        }
        lemma_run(t, h + 2, t.len() as int);
        if k == 1 {
            lemma_run(t, 0, 1);
        } else {
            assert(t[1] == 0x2e);
            lemma_run(t, 0, 1);
            assert forall|i: int| 2 <= i < k + 1 implies is_digit(#[trigger] t[i]) by {
                assert(t[i] == d[i - 1]);
            }
            lemma_run(t, 2, k + 1);
        }
    }
}

/// The text of a number is one number literal.
proof fn lemma_number_whole(b: u64)
    requires
        is_finite(b),
    ensures
        number_end(number_string(b), 0) == Some(number_string(b).len() as int),
        number_string(b).len() > 0,
        number_string(b)[0] == 0x2d || is_digit(number_string(b)[0]),
        number_string(b)[0] == 0x2d ==> magnitude(b) != 0,
{
    if magnitude(b) == 0 {
        let t = seq![0x30u16];
        lemma_run(t, 0, 1);
    } else {
        law_shortest_reads_back(b);
        let (s, e) = shortest_decimal(b);
        let n = nat_text(s).len() + e;
        lemma_layout_end(s, n);
        let t = layout(nat_text(s), n);
        if is_negative(b) {
            lemma_number_shift(t);
        } else {
            assert(sign_text(b) + t =~= t);
        }
    }
}

/// Whether a value may end at `e` in a text: at its end, or before a comma, a closing
/// bracket or white space.
pub open spec fn ends_at(w: Seq<u16>, e: int) -> bool {
    e == w.len() || (0 <= e < w.len() && (w[e] == 0x2c || w[e] == 0x5d || w[e] == 0x7d
        || is_json_space(w[e])))
}

proof fn lemma_end_in(w: Seq<u16>, x: int, t: Seq<u16>, i: int)
    requires
        0 <= x,
        x + t.len() <= w.len(),
        w.subrange(x, x + t.len()) == t,
        ends_at(w, x + t.len()),
        0 <= i <= t.len(),
    ensures
        digits_end(w, x + i) == x + digits_end(t, i),
    decreases t.len() - i,
{
    if i < t.len() {
        assert(w.subrange(x, x + t.len())[i] == w[x + i]);
        if is_digit(t[i]) {
            lemma_end_in(w, x, t, i + 1);
        }
    }
}

/// A number literal ends in a longer text where it ends alone.
proof fn lemma_number_in(w: Seq<u16>, x: int, t: Seq<u16>)
    requires
        0 <= x,
        x + t.len() <= w.len(),
        w.subrange(x, x + t.len()) == t,
        ends_at(w, x + t.len()),
        t.len() > 0,
        number_end(t, 0) == Some(t.len() as int),
    ensures
        number_end(w, x) == Some(x + t.len()),
{
    let n = t.len() as int;
    assert forall|i: int| 0 <= i < n implies #[trigger] t[i] == w[x + i] by {
        assert(w.subrange(x, x + n)[i] == w[x + i]);
    }
    assert(t[0] == w[x]);
    let a: int = if t[0] == 0x2d {
        1
    } else {
        0
    };
    lemma_end_in(w, x, t, a);
    lemma_digits_end(t, a);
    let b = digits_end(t, a);
    if b < n {
        assert(t[b] == w[x + b]);
        let c = if t[b] == 0x2e {
            digits_end(t, b + 1)
        } else {
            b
        };
        lemma_end_in(w, x, t, b + 1);
        lemma_digits_end(t, b + 1);
        if c < n {
            assert(t[c] == w[x + c]);
            if c + 1 < n {
                assert(t[c + 1] == w[x + c + 1]);
                lemma_end_in(w, x, t, c + 2);
            }
            lemma_end_in(w, x, t, c + 1);
        }
    }
}

/// The text of a number reads back as the number, wherever it stands in a text.
proof fn lemma_number_reads_back(w: Seq<u16>, x: int, b: u64)
    requires
        is_finite(b),
        magnitude(b) == 0 ==> !is_negative(b),
        0 <= x,
        x + number_string(b).len() <= w.len(),
        w.subrange(x, x + number_string(b).len()) == number_string(b),
        ends_at(w, x + number_string(b).len()),
    ensures
        number_literal(w, x) == Ok::<(JsValue, int), Seq<char>>(
            (number_value(b), x + number_string(b).len()),
        ),
        w[x] == 0x2d || is_digit(w[x]),
{
    let t = number_string(b);
    lemma_number_whole(b);
    lemma_number_in(w, x, t);
    law_number_string_reads_back(b);
    assert(w.subrange(x, x + t.len())[0] == w[x]);
}

// ---------------------------------------------------------------------------
// Trees in the heap
// ---------------------------------------------------------------------------

/// Whether a text has no lone surrogate.
pub open spec fn no_lone(t: Seq<u16>) -> bool {
    forall|i: int| 0 <= i < t.len() ==> !is_lone(t, i)
}

/// Whether a name is listed before another: array indices ascend and come first.
pub open spec fn name_before(a: Seq<u16>, b: Seq<u16>) -> bool {
    a != b && (array_index_of(b) is Some ==> array_index_of(a) is Some && array_index_of(a).unwrap()
        < array_index_of(b).unwrap())
}

/// Whether names are in the order in which keys are listed.
pub open spec fn names_in_order(s: Seq<(Seq<u16>, Json)>) -> bool {
    forall|i: int, j: int|
        #![trigger s[i], s[j]]
        0 <= i < j < s.len() ==> name_before(s[i].0, s[j].0)
}

/// Whether a tree can be written and read back: its numbers are finite, its texts have no
/// lone surrogates, and the names of an object are in order.
pub open spec fn writable(j: Json) -> bool
    decreases j,
{
    match j {
        Json::Number(b) => is_finite(b) && (magnitude(b) == 0 ==> !is_negative(b)),
        Json::Text(t) => no_lone(t),
        Json::Array(s) => forall|i: int| 0 <= i < s.len() ==> writable(#[trigger] s[i]),
        Json::Object(s) => names_in_order(s) && forall|i: int|
            0 <= i < s.len() ==> no_lone((#[trigger] s[i]).0) && writable(s[i].1),
        _ => true,
    }
}

/// Whether a property holds a member of a tree, apart from its value.
pub open spec fn is_member(h: HeapModel, p: Prop, name: Seq<u16>) -> bool {
    &&& p.key matches PropKey::Text(n) && n < h.texts.len() && h.texts[n as int] == name
    &&& p.attrs == all_attrs()
    &&& p.body is Data
}

/// Whether a value is a tree whose objects stand at `lo` or behind it in the heap, each
/// behind the one that holds it.
pub open spec fn holds(h: HeapModel, v: JsValue, j: Json, lo: int) -> bool
    decreases j,
{
    match j {
        Json::Null => v == JsValue::Null,
        Json::Bool(b) => v == JsValue::Bool(b),
        Json::Number(b) => v == number_value(b),
        Json::Text(t) => v matches JsValue::Text(n) && n < h.texts.len() && h.texts[n as int] == t,
        Json::Array(s) => v matches JsValue::Object(o) && lo <= o < h.objects.len() && {
            let m = h.objects[o as int];
            &&& m.kind == Kind::Array
            &&& m.elements.len() == s.len()
            &&& forall|i: int|
                0 <= i < s.len() ==> holds(h, m.elements[i], #[trigger] s[i], o + 1)
        },
        Json::Object(s) => v matches JsValue::Object(o) && lo <= o < h.objects.len() && {
            let m = h.objects[o as int];
            &&& m.kind == Kind::Ordinary
            &&& m.named.list.len() == s.len()
            &&& forall|i: int|
                0 <= i < s.len() ==> is_member(h, m.named.list[i], (#[trigger] s[i]).0) && holds(
                    h,
                    m.named.list[i].body->Data_0,
                    s[i].1,
                    o + 1,
                )
        },
    }
}

/// Whether the objects from `lo` on and the texts of a heap are as they were.
pub open spec fn kept_from(h: HeapModel, later: HeapModel, lo: int) -> bool {
    &&& h.objects.len() <= later.objects.len()
    &&& h.texts.is_prefix_of(later.texts)
    &&& forall|o: int| lo <= o < h.objects.len() ==> #[trigger] later.objects[o] == h.objects[o]
}

/// A tree stays where the objects that it is made of stay.
proof fn lemma_holds_later(h: HeapModel, later: HeapModel, v: JsValue, j: Json, lo: int, low: int)
    requires
        0 <= low <= lo,
        holds(h, v, j, lo),
        kept_from(h, later, lo),
    ensures
        holds(later, v, j, low),
    decreases j,
{
    match j {
        Json::Array(s) => {
            let o = v->Object_0;
            let m = h.objects[o as int];
            assert(later.objects[o as int] == m);
            assert forall|i: int| 0 <= i < s.len() implies holds(
                later,
                m.elements[i],
                #[trigger] s[i],
                o + 1,
            ) by {
                assert(holds(h, m.elements[i], s[i], o + 1));
                lemma_holds_later(h, later, m.elements[i], s[i], o + 1, o + 1);
            }
        },
        Json::Object(s) => {
            let o = v->Object_0;
            let m = h.objects[o as int];
            assert(later.objects[o as int] == m);
            assert forall|i: int| 0 <= i < s.len() implies is_member(
                later,
                m.named.list[i],
                (#[trigger] s[i]).0,
            ) && holds(later, m.named.list[i].body->Data_0, s[i].1, o + 1) by {
                assert(is_member(h, m.named.list[i], s[i].0));
                lemma_holds_later(
                    h,
                    later,
                    m.named.list[i].body->Data_0,
                    s[i].1,
                    o + 1,
                    o + 1,
                );
            }
        },
        _ => {},
    }
}

// ---------------------------------------------------------------------------
// Where the parts of a text stand
// ---------------------------------------------------------------------------

/// Index behind the bracket or the comma before the element `k`, in the text of an array
/// behind its bracket.
spec fn element_start(s: Seq<Json>, k: int, u: Seq<u16>, d: nat) -> int {
    if k <= 0 {
        0
    } else {
        array_text(s, k, u, d).len() as int + 1
    }
}

proof fn lemma_array_prefix(s: Seq<Json>, k: int, n: int, u: Seq<u16>, d: nat)
    requires
        0 < k <= n <= s.len(),
    ensures
        array_text(s, k, u, d).is_prefix_of(array_text(s, n, u, d)),
        k < n ==> array_text(s, k, u, d).len() < array_text(s, n, u, d).len() && array_text(
            s,
            n,
            u,
            d,
        )[array_text(s, k, u, d).len() as int] == 0x2c,
    decreases n - k,
{
    if k < n {
        lemma_array_prefix(s, k, n - 1, u, d);
        let a = array_text(s, n - 1, u, d);
        let b = array_text(s, n, u, d);
        assert(b.take(a.len() as int) =~= a);
        assert(b[a.len() as int] == 0x2c);
        if k < n - 1 {
            assert(b[array_text(s, k, u, d).len() as int] == a[array_text(s, k, u, d).len() as int]);
        }
    }
}

/// Index behind the bracket or the comma before the member `k`, in the text of an object
/// behind its bracket.
spec fn member_start(s: Seq<(Seq<u16>, Json)>, k: int, u: Seq<u16>, d: nat) -> int {
    if k <= 0 {
        0
    } else {
        object_text(s, k, u, d).len() as int + 1
    }
}

proof fn lemma_object_prefix(s: Seq<(Seq<u16>, Json)>, k: int, n: int, u: Seq<u16>, d: nat)
    requires
        0 < k <= n <= s.len(),
    ensures
        object_text(s, k, u, d).is_prefix_of(object_text(s, n, u, d)),
        k < n ==> object_text(s, k, u, d).len() < object_text(s, n, u, d).len() && object_text(
            s,
            n,
            u,
            d,
        )[object_text(s, k, u, d).len() as int] == 0x2c,
    decreases n - k,
{
    if k < n {
        lemma_object_prefix(s, k, n - 1, u, d);
        let a = object_text(s, n - 1, u, d);
        let b = object_text(s, n, u, d);
        assert(b.take(a.len() as int) =~= a);
        assert(b[a.len() as int] == 0x2c);
        if k < n - 1 {
            assert(b[object_text(s, k, u, d).len() as int] == a[object_text(s, k, u, d).len() as int]);
        }
    }
}

/// The text of a tree is not empty and starts with none of white space, a comma, a colon
/// or a closing bracket.
proof fn lemma_first_unit(j: Json, u: Seq<u16>, d: nat)
    requires
        writable(j),
    ensures
        tree_text(j, u, d).len() > 0,
        ({
            let c = tree_text(j, u, d)[0];
            !is_json_space(c) && c != 0x5d && c != 0x7d && c != 0x2c && c != 0x3a
        }),
{
    reveal_strlit("null");
    reveal_strlit("true");
    reveal_strlit("false");
    lemma_ascii_units("null"@);
    lemma_ascii_units("true"@);
    lemma_ascii_units("false"@);
    match j {
        Json::Number(b) => {
            lemma_number_whole(b);
        },
        _ => {},
    }
}

// ---------------------------------------------------------------------------
// Reading
// ---------------------------------------------------------------------------

/// Whether a heap has what another had, but for the object `o`, and at most `n` objects
/// and `n` texts more.
pub open spec fn grown(h: HeapModel, later: HeapModel, o: int, n: int) -> bool {
    &&& later.distinct_texts()
    &&& h.texts.is_prefix_of(later.texts)
    &&& later.texts.len() <= h.texts.len() + n
    &&& h.objects.len() <= later.objects.len()
    &&& later.objects.len() <= h.objects.len() + n
    &&& forall|p: int|
        0 <= p < h.objects.len() && p != o ==> #[trigger] later.objects[p] == h.objects[p]
}

proof fn lemma_grown_trans(a: HeapModel, b: HeapModel, c: HeapModel, o: int, m: int, n: int)
    requires
        grown(a, b, o, m),
        grown(b, c, o, n),
    ensures
        grown(a, c, o, m + n),
{
    assert forall|p: int| 0 <= p < a.objects.len() && p != o implies #[trigger] c.objects[p]
        == a.objects[p] by {
        assert(b.objects[p] == a.objects[p]);
    }
}

/// Whether a text stands at `x` in a longer one.
pub open spec fn stands_at(w: Seq<u16>, x: int, t: Seq<u16>) -> bool {
    0 <= x && x + t.len() <= w.len() && w.subrange(x, x + t.len()) == t
}

proof fn lemma_part_stands(w: Seq<u16>, x: int, t: Seq<u16>, a: int, part: Seq<u16>)
    requires
        stands_at(w, x, t),
        0 <= a,
        a + part.len() <= t.len(),
        t.subrange(a, a + part.len()) == part,
    ensures
        stands_at(w, x + a, part),
{
    assert(w.subrange(x + a, x + a + part.len()) =~= w.subrange(x, x + t.len()).subrange(
        a,
        a + part.len(),
    ));
}

proof fn lemma_writable_element(s: Seq<Json>, k: int)
    requires
        writable(Json::Array(s)),
        0 <= k < s.len(),
    ensures
        writable(s[k]),
{
    let j = Json::Array(s);
    match j {
        Json::Array(t) => {
            assert(t == s);
            assert(forall|i: int| 0 <= i < t.len() ==> writable(#[trigger] t[i]));
            assert(writable(t[k]));
        },
        _ => {},
    }
}

/// The text of a tree is read as the tree, wherever it stands in a text.
proof fn lemma_parse(
    h: HeapModel,
    protos: (Option<usize>, Option<usize>),
    w: Seq<u16>,
    x: int,
    j: Json,
    u: Seq<u16>,
    d: nat,
)
    requires
        writable(j),
        blank(u),
        stands_at(w, x, tree_text(j, u, d)),
        ends_at(w, x + tree_text(j, u, d).len()),
        h.distinct_texts(),
        h.objects.len() + tree_text(j, u, d).len() <= usize::MAX,
        h.texts.len() + tree_text(j, u, d).len() <= usize::MAX,
    ensures
        parsed_value(h, protos, w, x) matches Ok((h1, v, e)) && e == x + tree_text(j, u, d).len()
            && holds(h1, v, j, h.objects.len() as int) && grown(h, h1, -1, tree_text(j, u, d).len() as int),
    decreases j, 0int,
{
    let t = tree_text(j, u, d);
    lemma_first_unit(j, u, d);
    assert(w[x] == t[0]) by {
        assert(w.subrange(x, x + t.len())[0] == w[x]);
    }
    assert(json_space_end(w, x) == x);
    assert(h.texts.is_prefix_of(h.texts));
    assert(grown(h, h, -1, t.len() as int));
    match j {
        Json::Null => {
            lemma_word(w, x, "null"@);
        },
        Json::Bool(b) => {
            if b {
                lemma_word(w, x, "true"@);
            } else {
                lemma_word(w, x, "false"@);
            }
        },
        Json::Number(b) => {
            lemma_number_reads_back(w, x, b);
        },
        Json::Text(s) => {
            law_quote_reads_back(w, x, s);
            lemma_interned_grown(h, s);
        },
        Json::Array(s) => {
            lemma_parse_array(h, protos, w, x, s, u, d);
        },
        Json::Object(s) => {
            lemma_parse_object(h, protos, w, x, s, u, d);
        },
    }
}

/// One of the words of JSON.
proof fn lemma_word(w: Seq<u16>, x: int, word: Seq<char>)
    requires
        word == "null"@ || word == "true"@ || word == "false"@,
        stands_at(w, x, utf16_of(word)),
    ensures
        word_at(w, x, utf16_of(word)),
        word == "null"@ ==> w[x] == 0x6e,
        word == "true"@ ==> w[x] == 0x74,
        word == "false"@ ==> w[x] == 0x66,
{
    reveal_strlit("null");
    reveal_strlit("true");
    reveal_strlit("false");
    lemma_ascii_units("null"@);
    lemma_ascii_units("true"@);
    lemma_ascii_units("false"@);
    assert(w.subrange(x, x + utf16_of(word).len())[0] == w[x]);
}

/// A text in the heap.
proof fn lemma_interned_grown(h: HeapModel, t: Seq<u16>)
    requires
        h.distinct_texts(),
        h.texts.len() < usize::MAX,
    ensures
        grown(h, h.interned(t), -1, 1),
        h.interned(t).objects == h.objects,
        h.text_id(t) < h.interned(t).texts.len(),
        h.interned(t).texts[h.text_id(t) as int] == t,
{
    let h1 = h.interned(t);
    if !h.has_text(t) {
        assert forall|i: int, j: int| 0 <= i < j < h1.texts.len() implies #[trigger] h1.texts[i]
            != #[trigger] h1.texts[j] by {
            if j < h.texts.len() {
                assert(h.texts[i] != h.texts[j]);
            } else {
                assert(h.texts[i] == h1.texts[i]);
            }
        }
    }
}

#[verifier::spinoff_prover]
#[verifier::rlimit(40)]
proof fn lemma_parse_array(
    h: HeapModel,
    protos: (Option<usize>, Option<usize>),
    w: Seq<u16>,
    x: int,
    s: Seq<Json>,
    u: Seq<u16>,
    d: nat,
)
    requires
        writable(Json::Array(s)),
        blank(u),
        stands_at(w, x, tree_text(Json::Array(s), u, d)),
        w[x] == 0x5b,
        json_space_end(w, x) == x,
        h.distinct_texts(),
        h.objects.len() + tree_text(Json::Array(s), u, d).len() <= usize::MAX,
        h.texts.len() + tree_text(Json::Array(s), u, d).len() <= usize::MAX,
    ensures
        parsed_value(h, protos, w, x) matches Ok((h1, v, e)) && e == x + tree_text(
            Json::Array(s),
            u,
            d,
        ).len() && holds(h1, v, Json::Array(s), h.objects.len() as int) && grown(
            h,
            h1,
            -1,
            tree_text(Json::Array(s), u, d).len() as int,
        ),
    decreases s, s.len() + 1,
{
    let t = tree_text(Json::Array(s), u, d);
    let o = h.objects.len() as usize;
    let h1 = h.with_new(ObjModel { prototype: protos.1, ..plain_object(Kind::Array) });
    if s.len() == 0 {
        assert(w.subrange(x, x + t.len())[1] == w[x + 1]);
        assert(json_space_end(w, x + 1) == x + 1);
        assert(holds(h1, JsValue::Object(o), Json::Array(s), h.objects.len() as int));
    } else {
        let a = array_text(s, s.len() as int, u, d + 1);
        let body = a + indent(u, d) + seq![0x5du16];
        assert(t.subrange(1, 1 + body.len() as int) =~= body);
        lemma_part_stands(w, x, t, 1, body);
        lemma_element_parts(w, x + 1, s, 0, u, d);
        lemma_writable_element(s, 0);
        lemma_first_unit(s[0], u, d + 1);
        let first = tree_text(s[0], u, d + 1);
        let y = x + 1 + indent(u, d + 1).len();
        assert(w.subrange(y, y + first.len())[0] == w[y]);
        lemma_parse_elements(h1, protos, o, w, x + 1, s, 0, u, d);
        let h2 = parsed_elements(h1, protos, o, w, x + 1)->Ok_0.0;
        lemma_holds_later(
            h2,
            h2,
            JsValue::Object(o),
            Json::Array(s),
            o as int,
            h.objects.len() as int,
        );
        assert forall|p: int| 0 <= p < h.objects.len() implies #[trigger] h2.objects[p]
            == h.objects[p] by {
            assert(h1.objects[p] == h.objects[p]);
        }
    }
}

/// Where the parts of the element `k` stand: white space, its value, and a comma or the
/// closing bracket behind white space.
proof fn lemma_element_parts(w: Seq<u16>, x: int, s: Seq<Json>, k: int, u: Seq<u16>, d: nat)
    requires
        0 <= k < s.len(),
        writable(Json::Array(s)),
        blank(u),
        stands_at(
            w,
            x,
            array_text(s, s.len() as int, u, d + 1) + indent(u, d) + seq![0x5du16],
        ),
    ensures
        ({
            let i = x + element_start(s, k, u, d + 1);
            let pad = indent(u, d + 1);
            let part = tree_text(s[k], u, d + 1);
            let c = i + pad.len() + part.len();
            &&& 0 <= i
            &&& json_space_end(w, i) == i + pad.len()
            &&& stands_at(w, i + pad.len(), part)
            &&& c == x + array_text(s, k + 1, u, d + 1).len()
            &&& ends_at(w, c)
            &&& k + 1 < s.len() ==> json_space_end(w, c) == c && w[c] == 0x2c && c < w.len()
            &&& k + 1 == s.len() ==> ({
                let e = c + indent(u, d).len();
                json_space_end(w, c) == e && e < w.len() && w[e] == 0x5d
            })
        }),
{
    let n = s.len() as int;
    let a = array_text(s, n, u, d + 1);
    let out = indent(u, d);
    let body = a + out + seq![0x5du16];
    let pad = indent(u, d + 1);
    let part = tree_text(s[k], u, d + 1);
    let st = element_start(s, k, u, d + 1);
    let i = x + st;
    let upto = array_text(s, k + 1, u, d + 1);
    lemma_blank_indent(u, d);
    lemma_blank_indent(u, d + 1);
    lemma_array_prefix(s, k + 1, n, u, d + 1);
    lemma_writable_element(s, k);
    lemma_first_unit(s[k], u, d + 1);
    let head: Seq<u16> = if k == 0 {
        seq![]
    } else {
        array_text(s, k, u, d + 1) + seq![0x2cu16]
    };
    assert(upto == head + pad + part);
    assert(head.len() == st);
    assert(body.take(upto.len() as int) =~= upto) by {
        assert(a.take(upto.len() as int) =~= upto);
    }
    assert(body.subrange(st, st + pad.len()) =~= pad) by {
        assert(body.subrange(st, st + pad.len()) =~= upto.subrange(st, st + pad.len()));
        assert(upto.subrange(st, st + pad.len()) =~= pad);
    }
    lemma_part_stands(w, x, body, st, pad);
    let st2 = st + pad.len() as int;
    assert(body.subrange(st2, st2 + part.len()) =~= part) by {
        assert(body.subrange(st2, st2 + part.len()) =~= upto.subrange(st2, st2 + part.len()));
        assert(upto.subrange(st2, st2 + part.len()) =~= part);
    }
    lemma_part_stands(w, x, body, st2, part);
    assert(w[i + pad.len()] == part[0]) by {
        assert(w.subrange(x + st2, x + st2 + part.len())[0] == w[x + st2]);
    }
    lemma_skipped(w, i, pad);
    let c = x + upto.len();
    if k + 1 < n {
        assert(w.subrange(x, x + body.len())[upto.len() as int] == w[c]);
        assert(body[upto.len() as int] == a[upto.len() as int]);
    } else {
        assert(upto == a);
        lemma_closing(w, x, a, out, 0x5d);
    }
}

proof fn lemma_parse_elements(
    h: HeapModel,
    protos: (Option<usize>, Option<usize>),
    o: usize,
    w: Seq<u16>,
    x: int,
    s: Seq<Json>,
    k: int,
    u: Seq<u16>,
    d: nat,
)
    requires
        writable(Json::Array(s)),
        blank(u),
        0 <= k < s.len(),
        stands_at(
            w,
            x,
            array_text(s, s.len() as int, u, d + 1) + indent(u, d) + seq![0x5du16],
        ),
        h.distinct_texts(),
        o < h.objects.len(),
        h.objects[o as int].kind == Kind::Array,
        h.objects[o as int].elements.len() == k,
        forall|m: int|
            0 <= m < k ==> holds(h, h.objects[o as int].elements[m], #[trigger] s[m], o + 1),
        h.objects.len() + array_text(s, s.len() as int, u, d + 1).len() + 1 - element_start(
            s,
            k,
            u,
            d + 1,
        ) <= usize::MAX,
        h.texts.len() + array_text(s, s.len() as int, u, d + 1).len() + 1 - element_start(
            s,
            k,
            u,
            d + 1,
        ) <= usize::MAX,
    ensures
        parsed_elements(h, protos, o, w, x + element_start(s, k, u, d + 1)) matches Ok((h2, v, e))
            && e == x + array_text(s, s.len() as int, u, d + 1).len() + indent(u, d).len() + 1 && v
            == JsValue::Object(o) && holds(h2, v, Json::Array(s), o as int) && grown(
            h,
            h2,
            o as int,
            array_text(s, s.len() as int, u, d + 1).len() + 1 - element_start(s, k, u, d + 1),
        ),
    decreases s, s.len() - k,
{
    let n = s.len() as int;
    let a = array_text(s, n, u, d + 1);
    let i = x + element_start(s, k, u, d + 1);
    let pad = indent(u, d + 1);
    let part = tree_text(s[k], u, d + 1);
    let upto = array_text(s, k + 1, u, d + 1);
    lemma_array_prefix(s, k + 1, n, u, d + 1);
    lemma_writable_element(s, k);
    lemma_element_parts(w, x, s, k, u, d);
    let c = i + pad.len() + part.len();
    lemma_parse(h, protos, w, i + pad.len(), s[k], u, d + 1);
    lemma_value_skips(h, protos, w, i);
    let (h1, v, e) = parsed_value(h, protos, w, i)->Ok_0;
    assert(e == c);
    let h2 = with_pushed(h1, o, v);
    let m1 = h1.objects[o as int];
    assert(m1 == h.objects[o as int]);
    let m2 = h2.objects[o as int];
    assert(m2.elements.len() == k + 1);
    assert(kept_from(h, h2, o + 1)) by {
        assert forall|p: int| o + 1 <= p < h.objects.len() implies #[trigger] h2.objects[p]
            == h.objects[p] by {
            assert(h1.objects[p] == h.objects[p]);
        }
    }
    assert(kept_from(h1, h2, h.objects.len() as int));
    assert forall|m: int| 0 <= m < k + 1 implies holds(h2, m2.elements[m], #[trigger] s[m], o + 1) by {
        if m < k {
            assert(holds(h, h.objects[o as int].elements[m], s[m], o + 1));
            lemma_holds_later(h, h2, m2.elements[m], s[m], o + 1, o + 1);
        } else {
            lemma_holds_later(h1, h2, v, s[m], h.objects.len() as int, o + 1);
        }
    }
    let size = pad.len() + part.len() as int;
    assert(grown(h, h2, o as int, size)) by {
        assert forall|p: int| 0 <= p < h.objects.len() && p != o implies #[trigger] h2.objects[p]
            == h.objects[p] by {
            assert(h1.objects[p] == h.objects[p]);
        }
    }
    if k + 1 < n {
        assert(element_start(s, k + 1, u, d + 1) == upto.len() + 1);
        lemma_parse_elements(h2, protos, o, w, x, s, k + 1, u, d);
        let h3 = parsed_elements(h2, protos, o, w, c + 1)->Ok_0.0;
        assert(x + element_start(s, k + 1, u, d + 1) == c + 1);
        lemma_grown_trans(
            h,
            h2,
            h3,
            o as int,
            size,
            a.len() + 1 - element_start(s, k + 1, u, d + 1),
        );
    } else {
        assert(upto == a);
        assert(holds(h2, JsValue::Object(o), Json::Array(s), o as int));
    }
}

proof fn lemma_parse_object(
    h: HeapModel,
    protos: (Option<usize>, Option<usize>),
    w: Seq<u16>,
    x: int,
    s: Seq<(Seq<u16>, Json)>,
    u: Seq<u16>,
    d: nat,
)
    requires
        writable(Json::Object(s)),
        blank(u),
        stands_at(w, x, tree_text(Json::Object(s), u, d)),
        w[x] == 0x7b,
        json_space_end(w, x) == x,
        h.distinct_texts(),
        h.objects.len() + tree_text(Json::Object(s), u, d).len() <= usize::MAX,
        h.texts.len() + tree_text(Json::Object(s), u, d).len() <= usize::MAX,
    ensures
        parsed_value(h, protos, w, x) matches Ok((h1, v, e)) && e == x + tree_text(
            Json::Object(s),
            u,
            d,
        ).len() && holds(h1, v, Json::Object(s), h.objects.len() as int) && grown(
            h,
            h1,
            -1,
            tree_text(Json::Object(s), u, d).len() as int,
        ),
    decreases s, s.len() + 1,
{
    let t = tree_text(Json::Object(s), u, d);
    let o = h.objects.len() as usize;
    let h1 = h.with_new(ObjModel { prototype: protos.0, ..plain_object(Kind::Ordinary) });
    if s.len() == 0 {
        assert(w.subrange(x, x + t.len())[1] == w[x + 1]);
        assert(json_space_end(w, x + 1) == x + 1);
        assert(holds(h1, JsValue::Object(o), Json::Object(s), h.objects.len() as int));
    } else {
        let a = object_text(s, s.len() as int, u, d + 1);
        let body = a + indent(u, d) + seq![0x7du16];
        assert(t.subrange(1, 1 + body.len() as int) =~= body);
        lemma_part_stands(w, x, t, 1, body);
        lemma_member_parts(w, x + 1, s, 0, u, d);
        lemma_parse_members(h1, protos, o, w, x + 1, s, 0, u, d);
        let h2 = parsed_members(h1, protos, o, w, x + 1)->Ok_0.0;
        lemma_holds_later(
            h2,
            h2,
            JsValue::Object(o),
            Json::Object(s),
            o as int,
            h.objects.len() as int,
        );
        assert forall|p: int| 0 <= p < h.objects.len() implies #[trigger] h2.objects[p]
            == h.objects[p] by {
            assert(h1.objects[p] == h.objects[p]);
        }
    }
}

/// Where the parts of the member `k` stand: white space, its name, a colon, its value, and
/// a comma or the closing bracket behind white space.
proof fn lemma_member_parts(
    w: Seq<u16>,
    x: int,
    s: Seq<(Seq<u16>, Json)>,
    k: int,
    u: Seq<u16>,
    d: nat,
)
    requires
        0 <= k < s.len(),
        writable(Json::Object(s)),
        blank(u),
        stands_at(
            w,
            x,
            object_text(s, s.len() as int, u, d + 1) + indent(u, d) + seq![0x7du16],
        ),
    ensures
        ({
            let i = x + member_start(s, k, u, d + 1);
            let pad = indent(u, d + 1);
            let q = quoted(s[k].0);
            let part = tree_text(s[k].1, u, d + 1);
            let b = i + pad.len() + q.len();
            let v = b + colon(u).len();
            let c = v + part.len();
            &&& 0 <= i
            &&& json_space_end(w, i) == i + pad.len()
            &&& stands_at(w, i + pad.len(), q)
            &&& w[i + pad.len()] == 0x22
            &&& b < w.len()
            &&& w[b] == 0x3a
            &&& json_space_end(w, b + 1) == v
            &&& stands_at(w, v, part)
            &&& c == x + object_text(s, k + 1, u, d + 1).len()
            &&& ends_at(w, c)
            &&& k + 1 < s.len() ==> json_space_end(w, c) == c && w[c] == 0x2c && c < w.len()
            &&& k + 1 == s.len() ==> ({
                let e = c + indent(u, d).len();
                json_space_end(w, c) == e && e < w.len() && w[e] == 0x7d
            })
        }),
{
    let n = s.len() as int;
    let a = object_text(s, n, u, d + 1);
    let out = indent(u, d);
    let body = a + out + seq![0x7du16];
    let pad = indent(u, d + 1);
    let q = quoted(s[k].0);
    let col = colon(u);
    let part = tree_text(s[k].1, u, d + 1);
    let st = member_start(s, k, u, d + 1);
    let i = x + st;
    let upto = object_text(s, k + 1, u, d + 1);
    lemma_blank_indent(u, d);
    lemma_blank_indent(u, d + 1);
    lemma_object_prefix(s, k + 1, n, u, d + 1);
    assert(no_lone(s[k].0) && writable(s[k].1));
    lemma_first_unit(s[k].1, u, d + 1);
    let head: Seq<u16> = if k == 0 {
        seq![]
    } else {
        object_text(s, k, u, d + 1) + seq![0x2cu16]
    };
    assert(upto == head + pad + q + col + part);
    assert(head.len() == st);
    let st1 = st + pad.len() as int;
    let st2 = st1 + q.len() as int;
    let st3 = st2 + col.len() as int;
    assert(upto.is_prefix_of(body)) by {
        assert(a.take(upto.len() as int) =~= upto);
        assert(body.take(upto.len() as int) =~= upto);
    }
    lemma_five_parts(w, x, body, head, pad, q, col, part);
    assert(w[x + st1] == 0x22) by {
        assert(w.subrange(x + st1, x + st1 + q.len())[0] == w[x + st1]);
        assert(q[0] == 0x22);
    }
    lemma_skipped(w, i, pad);
    assert(w[x + st2] == 0x3a) by {
        assert(w.subrange(x + st2, x + st2 + col.len())[0] == w[x + st2]);
    }
    assert(w[x + st3] == part[0]) by {
        assert(w.subrange(x + st3, x + st3 + part.len())[0] == w[x + st3]);
    }
    let gap = col.skip(1);
    assert(col.subrange(1, 1 + gap.len() as int) =~= gap);
    lemma_part_stands(w, x + st2, col, 1, gap);
    lemma_skipped(w, x + st2 + 1, gap);
    let c = x + upto.len();
    if k + 1 < n {
        assert(w.subrange(x, x + body.len())[upto.len() as int] == w[c]);
        assert(body[upto.len() as int] == a[upto.len() as int]);
    } else {
        assert(upto == a);
        lemma_closing(w, x, a, out, 0x7d);
    }
}

/// Parts of a text, one behind the other.
proof fn lemma_five_parts(
    w: Seq<u16>,
    x: int,
    body: Seq<u16>,
    head: Seq<u16>,
    a: Seq<u16>,
    b: Seq<u16>,
    c: Seq<u16>,
    d: Seq<u16>,
)
    requires
        stands_at(w, x, body),
        (head + a + b + c + d).is_prefix_of(body),
    ensures
        stands_at(w, x + head.len(), a),
        stands_at(w, x + head.len() + a.len(), b),
        stands_at(w, x + head.len() + a.len() + b.len(), c),
        stands_at(w, x + head.len() + a.len() + b.len() + c.len(), d),
{
    let upto = head + a + b + c + d;
    assert(body.take(upto.len() as int) =~= upto);
    let st = head.len() as int;
    let st1 = st + a.len() as int;
    let st2 = st1 + b.len() as int;
    let st3 = st2 + c.len() as int;
    assert(upto.subrange(st, st + a.len()) =~= a);
    assert(upto.subrange(st1, st1 + b.len()) =~= b);
    assert(upto.subrange(st2, st2 + c.len()) =~= c);
    assert(upto.subrange(st3, st3 + d.len()) =~= d);
    lemma_sub(body, upto, st, a);
    lemma_sub(body, upto, st1, b);
    lemma_sub(body, upto, st2, c);
    lemma_sub(body, upto, st3, d);
    lemma_part_stands(w, x, body, st, a);
    lemma_part_stands(w, x, body, st1, b);
    lemma_part_stands(w, x, body, st2, c);
    lemma_part_stands(w, x, body, st3, d);
}

/// White space before a closing bracket.
proof fn lemma_closing(w: Seq<u16>, x: int, a: Seq<u16>, out: Seq<u16>, close: u16)
    requires
        blank(out),
        !is_json_space(close),
        close == 0x5d || close == 0x7d,
        stands_at(w, x, a + out + seq![close]),
    ensures
        ({
            let c = x + a.len();
            let e = c + out.len();
            &&& json_space_end(w, c) == e
            &&& e < w.len()
            &&& w[e] == close
            &&& ends_at(w, c)
        }),
{
    let body = a + out + seq![close];
    let c = x + a.len();
    assert(body.subrange(a.len() as int, a.len() as int + out.len()) =~= out);
    lemma_part_stands(w, x, body, a.len() as int, out);
    let e = c + out.len();
    assert(w.subrange(x, x + body.len())[a.len() as int + out.len()] == w[e]);
    lemma_skipped(w, c, out);
    if out.len() > 0 {
        assert(w.subrange(x + a.len(), x + a.len() + out.len())[0] == w[c]);
    }
}

proof fn lemma_sub(body: Seq<u16>, upto: Seq<u16>, at: int, part: Seq<u16>)
    requires
        upto.len() <= body.len(),
        body.take(upto.len() as int) == upto,
        0 <= at,
        at + part.len() <= upto.len(),
        upto.subrange(at, at + part.len()) == part,
    ensures
        body.subrange(at, at + part.len()) == part,
{
    assert(body.subrange(at, at + part.len()) =~= body.take(upto.len() as int).subrange(
        at,
        at + part.len(),
    ));
}

proof fn lemma_parse_members(
    h: HeapModel,
    protos: (Option<usize>, Option<usize>),
    o: usize,
    w: Seq<u16>,
    x: int,
    s: Seq<(Seq<u16>, Json)>,
    k: int,
    u: Seq<u16>,
    d: nat,
)
    requires
        writable(Json::Object(s)),
        blank(u),
        0 <= k < s.len(),
        stands_at(
            w,
            x,
            object_text(s, s.len() as int, u, d + 1) + indent(u, d) + seq![0x7du16],
        ),
        h.distinct_texts(),
        o < h.objects.len(),
        h.objects[o as int].kind == Kind::Ordinary,
        h.objects[o as int].named.list.len() == k,
        forall|m: int|
            0 <= m < k ==> is_member(h, h.objects[o as int].named.list[m], (#[trigger] s[m]).0)
                && holds(h, h.objects[o as int].named.list[m].body->Data_0, s[m].1, o + 1),
        h.objects.len() + object_text(s, s.len() as int, u, d + 1).len() + 1 - member_start(
            s,
            k,
            u,
            d + 1,
        ) <= usize::MAX,
        h.texts.len() + object_text(s, s.len() as int, u, d + 1).len() + 1 - member_start(
            s,
            k,
            u,
            d + 1,
        ) <= usize::MAX,
    ensures
        parsed_members(h, protos, o, w, x + member_start(s, k, u, d + 1)) matches Ok((h2, v, e))
            && e == x + object_text(s, s.len() as int, u, d + 1).len() + indent(u, d).len() + 1 && v
            == JsValue::Object(o) && holds(h2, v, Json::Object(s), o as int) && grown(
            h,
            h2,
            o as int,
            object_text(s, s.len() as int, u, d + 1).len() + 1 - member_start(s, k, u, d + 1),
        ),
    decreases s, s.len() - k,
{
    let n = s.len() as int;
    let a = object_text(s, n, u, d + 1);
    let i = x + member_start(s, k, u, d + 1);
    let pad = indent(u, d + 1);
    let name = s[k].0;
    let q = quoted(name);
    let part = tree_text(s[k].1, u, d + 1);
    lemma_member_parts(w, x, s, k, u, d);
    lemma_object_prefix(s, k + 1, n, u, d + 1);
    assert(no_lone(s[k].0) && writable(s[k].1));
    law_quote_reads_back(w, i + pad.len(), name);
    let b = i + pad.len() + q.len();
    assert(json_space_end(w, b) == b);
    let vx = b + colon(u).len();
    let c = vx + part.len();
    lemma_parse(h, protos, w, vx, s[k].1, u, d + 1);
    lemma_value_skips(h, protos, w, b + 1);
    let (h1, v, e) = parsed_value(h, protos, w, b + 1)->Ok_0;
    assert(e == c);
    let h2 = with_member(h1, o, name, v);
    let size = part.len() as int;
    lemma_member_added(h, h1, o, s, k, v, size);
    assert(q.len() >= 2);
    let total = pad.len() + q.len() + colon(u).len() + size;
    assert(grown(h, h2, o as int, total));
    if k + 1 < n {
        assert(member_start(s, k + 1, u, d + 1) == object_text(s, k + 1, u, d + 1).len() + 1);
        lemma_parse_members(h2, protos, o, w, x, s, k + 1, u, d);
        let h3 = parsed_members(h2, protos, o, w, c + 1)->Ok_0.0;
        assert(x + member_start(s, k + 1, u, d + 1) == c + 1);
        lemma_grown_trans(
            h,
            h2,
            h3,
            o as int,
            total,
            a.len() + 1 - member_start(s, k + 1, u, d + 1),
        );
    } else {
        assert(object_text(s, k + 1, u, d + 1) == a);
        assert(holds(h2, JsValue::Object(o), Json::Object(s), o as int));
    }
}

/// One more member of an object that is being read.
proof fn lemma_member_added(
    h: HeapModel,
    h1: HeapModel,
    o: usize,
    s: Seq<(Seq<u16>, Json)>,
    k: int,
    v: JsValue,
    n: int,
)
    requires
        writable(Json::Object(s)),
        0 <= k < s.len(),
        o < h.objects.len(),
        h.objects[o as int].kind == Kind::Ordinary,
        h.objects[o as int].named.list.len() == k,
        forall|m: int|
            0 <= m < k ==> is_member(h, h.objects[o as int].named.list[m], (#[trigger] s[m]).0)
                && holds(h, h.objects[o as int].named.list[m].body->Data_0, s[m].1, o + 1),
        grown(h, h1, -1, n),
        holds(h1, v, s[k].1, h.objects.len() as int),
        h1.texts.len() < usize::MAX,
    ensures
        ({
            let h2 = with_member(h1, o, s[k].0, v);
            let m2 = h2.objects[o as int];
            &&& grown(h, h2, o as int, n + 1)
            &&& m2.kind == Kind::Ordinary
            &&& m2.named.list.len() == k + 1
            &&& forall|m: int|
                0 <= m < k + 1 ==> is_member(h2, m2.named.list[m], (#[trigger] s[m]).0) && holds(
                    h2,
                    m2.named.list[m].body->Data_0,
                    s[m].1,
                    o + 1,
                )
        }),
{
    let name = s[k].0;
    let h2 = with_member(h1, o, name, v);
    let m0 = h.objects[o as int];
    assert(h1.objects[o as int] == m0);
    let list = m0.named.list;
    let key = PropKey::Text(h1.text_id(name));
    lemma_interned_grown(h1, name);
    let hi = h1.interned(name);
    assert forall|m: int| 0 <= m < k implies #[trigger] list[m].key != key by {
        assert(is_member(h, list[m], s[m].0));
        assert(name_before(s[m].0, s[k].0));
        let id = list[m].key->Text_0;
        assert(hi.texts[id as int] == h1.texts[id as int]);
        assert(h1.texts[id as int] == h.texts[id as int]);
    }
    assert(!has_key(list, key));
    let m2 = h2.objects[o as int];
    assert(m2.named.list =~= list.push(
        Prop { key, attrs: all_attrs(), body: PropBody::Data(v) },
    ));
    assert(kept_from(h, h2, o + 1)) by {
        assert forall|p: int| o + 1 <= p < h.objects.len() implies #[trigger] h2.objects[p]
            == h.objects[p] by {
            assert(h1.objects[p] == h.objects[p]);
        }
    }
    assert(kept_from(h1, h2, h.objects.len() as int));
    assert forall|m: int| 0 <= m < k + 1 implies is_member(
        h2,
        m2.named.list[m],
        (#[trigger] s[m]).0,
    ) && holds(h2, m2.named.list[m].body->Data_0, s[m].1, o + 1) by {
        if m < k {
            assert(is_member(h, list[m], s[m].0));
            lemma_holds_later(h, h2, list[m].body->Data_0, s[m].1, o + 1, o + 1);
        } else {
            lemma_holds_later(h1, h2, v, s[m].1, h.objects.len() as int, o + 1);
        }
    }
    assert forall|p: int| 0 <= p < h.objects.len() && p != o implies #[trigger] h2.objects[p]
        == h.objects[p] by {
        assert(h1.objects[p] == h.objects[p]);
    }
}

/// A JSON text that is indented by white space, or not at all, is read as the tree that it
/// was written for.
pub proof fn law_tree_reads_back(
    h: HeapModel,
    protos: (Option<usize>, Option<usize>),
    j: Json,
    u: Seq<u16>,
)
    requires
        writable(j),
        blank(u),
        h.distinct_texts(),
        h.objects.len() + tree_text(j, u, 0).len() <= usize::MAX,
        h.texts.len() + tree_text(j, u, 0).len() <= usize::MAX,
    ensures
        parsed_text(h, protos, tree_text(j, u, 0)) matches Ok((h1, v)) && holds(
            h1,
            v,
            j,
            h.objects.len() as int,
        ) && grown(h, h1, -1, tree_text(j, u, 0).len() as int),
{
    let t = tree_text(j, u, 0);
    assert(t.subrange(0, t.len() as int) =~= t);
    lemma_parse(h, protos, t, 0, j, u, 0);
}

// ---------------------------------------------------------------------------
// Writing a tree
// ---------------------------------------------------------------------------

/// Texts that are in order already are listed as they are.
proof fn lemma_listed_in_order(h: HeapModel, ids: Seq<usize>, k: int)
    requires
        0 <= k <= ids.len(),
        forall|i: int, j: int|
            #![trigger ids[i], ids[j]]
            0 <= i < j < ids.len() && id_index(h, ids[j]) is Some ==> id_index(h, ids[i]) is Some
                && id_index(h, ids[i])->0 <= id_index(h, ids[j])->0,
    ensures
        index_ids(h, ids, k) + name_ids(h, ids, k) == ids.take(k),
        k > 0 && id_index(h, ids[k - 1]) is Some ==> index_ids(h, ids, k) == ids.take(k)
            && name_ids(h, ids, k) == Seq::<usize>::empty(),
    decreases k,
{
    if k > 0 {
        lemma_listed_in_order(h, ids, k - 1);
        let a = index_ids(h, ids, k - 1);
        let b = name_ids(h, ids, k - 1);
        let id = ids[k - 1];
        if id_index(h, id) is Some {
            if k > 1 {
                assert(id_index(h, ids[k - 2]) is Some);
                assert(a == ids.take(k - 1));
                assert(a.last() == ids[k - 2]);
            } else {
                assert(ids.take(0) =~= Seq::<usize>::empty());
                assert(a =~= ids.take(0));
            }
            assert(insert_id(h, a, id) == a.push(id));
            assert(a.push(id) =~= ids.take(k));
            assert(ids.take(k) + Seq::<usize>::empty() =~= ids.take(k));
        } else {
            assert(a + b.push(id) =~= (a + b).push(id));
            assert(ids.take(k - 1).push(id) =~= ids.take(k));
        }
    } else {
        assert(ids.take(0) =~= Seq::<usize>::empty());
        assert(index_ids(h, ids, 0) + name_ids(h, ids, 0) =~= ids.take(0));
    }
}

/// A value that is a tree is no hole.
proof fn lemma_no_hole(h: HeapModel, v: JsValue, j: Json, lo: int)
    requires
        holds(h, v, j, lo),
    ensures
        v != JsValue::Hole,
{
    match j {
        Json::Number(b) => {},
        _ => {},
    }
}

/// The texts that are names of an object that is a tree.
proof fn lemma_tree_ids(h: HeapModel, o: usize, s: Seq<(Seq<u16>, Json)>, lo: int, k: int)
    requires
        holds(h, JsValue::Object(o), Json::Object(s), lo),
        0 <= k <= s.len(),
    ensures
        text_ids(h.objects[o as int].named.list, k, true) == Seq::new(
            k as nat,
            |i: int| h.objects[o as int].named.list[i].key->Text_0,
        ),
    decreases k,
{
    let list = h.objects[o as int].named.list;
    let all = Seq::new(k as nat, |i: int| list[i].key->Text_0);
    if k > 0 {
        lemma_tree_ids(h, o, s, lo, k - 1);
        lemma_member_facts(h, o, s, lo, k - 1);
        assert(text_ids(list, k, true) =~= all);
    } else {
        assert(text_ids(list, k, true) =~= all);
    }
}

proof fn lemma_member_facts(h: HeapModel, o: usize, s: Seq<(Seq<u16>, Json)>, lo: int, i: int)
    requires
        holds(h, JsValue::Object(o), Json::Object(s), lo),
        0 <= i < s.len(),
    ensures
        o < h.objects.len(),
        h.objects[o as int].kind == Kind::Ordinary,
        h.objects[o as int].named.list.len() == s.len(),
        is_member(h, h.objects[o as int].named.list[i], s[i].0),
        holds(h, h.objects[o as int].named.list[i].body->Data_0, s[i].1, o + 1),
        is_live(h.objects[o as int].named.list[i]),
{
    let j = Json::Object(s);
    match j {
        Json::Object(t) => {
            assert(t == s);
            let m = h.objects[o as int];
            assert(is_member(h, m.named.list[i], (t[i]).0) && holds(
                h,
                m.named.list[i].body->Data_0,
                t[i].1,
                o + 1,
            ));
            lemma_no_hole(h, m.named.list[i].body->Data_0, s[i].1, o + 1);
        },
        _ => {},
    }
}

proof fn lemma_element_facts(h: HeapModel, o: usize, s: Seq<Json>, lo: int, i: int)
    requires
        holds(h, JsValue::Object(o), Json::Array(s), lo),
        0 <= i < s.len(),
    ensures
        o < h.objects.len(),
        h.objects[o as int].elements.len() == s.len(),
        holds(h, h.objects[o as int].elements[i], s[i], o + 1),
{
    let j = Json::Array(s);
    match j {
        Json::Array(t) => {
            assert(t == s);
            let m = h.objects[o as int];
            assert(holds(h, m.elements[i], t[i], o + 1));
        },
        _ => {},
    }
}

proof fn lemma_writable_member(s: Seq<(Seq<u16>, Json)>, k: int)
    requires
        writable(Json::Object(s)),
        0 <= k < s.len(),
    ensures
        no_lone(s[k].0),
        writable(s[k].1),
        names_in_order(s),
{
    let j = Json::Object(s);
    match j {
        Json::Object(t) => {
            assert(t == s);
            assert(no_lone((t[k]).0) && writable(t[k].1));
        },
        _ => {},
    }
}

/// The names and values of an object that is a tree are listed in the tree's order.
proof fn lemma_tree_members(h: HeapModel, o: usize, s: Seq<(Seq<u16>, Json)>, lo: int)
    requires
        h.distinct_texts(),
        writable(Json::Object(s)),
        holds(h, JsValue::Object(o), Json::Object(s), lo),
    ensures
        ({
            let ms = members(h, o, None);
            let list = h.objects[o as int].named.list;
            &&& ms.len() == s.len()
            &&& forall|i: int|
                #![trigger ms[i]]
                0 <= i < s.len() ==> ms[i].0 == list[i].key->Text_0 && ms[i].1
                    == list[i].body->Data_0
        }),
{
    let m = h.objects[o as int];
    let list = m.named.list;
    let n = s.len() as int;
    lemma_tree_ids(h, o, s, lo, n);
    let ids = text_ids(list, n, true);
    if n > 0 {
        lemma_member_facts(h, o, s, lo, 0);
        lemma_writable_member(s, 0);
    }
    assert forall|i: int, j: int|
        #![trigger ids[i], ids[j]]
        0 <= i < j < ids.len() && id_index(h, ids[j]) is Some implies id_index(h, ids[i]) is Some
        && id_index(h, ids[i])->0 <= id_index(h, ids[j])->0 by {
        lemma_member_facts(h, o, s, lo, i);
        lemma_member_facts(h, o, s, lo, j);
        assert(name_before(s[i].0, s[j].0));
    }
    assert(list.len() == n) by {
        if n == 0 {
            let j = Json::Object(s);
            match j {
                Json::Object(t) => {
                    assert(t == s);
                },
                _ => {},
            }
        }
    }
    lemma_listed_in_order(h, ids, n);
    assert(ids.take(n) =~= ids);
    let ms = members(h, o, None);
    assert(ordered_ids(h, ids) == ids);
    assert forall|a: int, b: int| 0 <= a < b < list.len() implies #[trigger] list[a].key
        != #[trigger] list[b].key by {
        lemma_member_facts(h, o, s, lo, a);
        lemma_member_facts(h, o, s, lo, b);
        assert(name_before(s[a].0, s[b].0));
    }
    assert forall|i: int|
        #![trigger ms[i]]
        0 <= i < s.len() implies ms[i].0 == list[i].key->Text_0 && ms[i].1
        == list[i].body->Data_0 by {
        lemma_member_facts(h, o, s, lo, i);
        assert(ms[i].0 == ids[i]);
        lemma_index_of_key(list, list[i].key, i);
        assert(list[i].key == PropKey::Text(ids[i]));
    }
}

/// Whether objects stand before `lo`, and are no more than there is room for.
spec fn seen_before(seen: Seq<usize>, lo: int) -> bool {
    seen.len() <= lo && forall|i: int| 0 <= i < seen.len() ==> (#[trigger] seen[i]) < lo
}

/// A value that is a tree is written as the tree's text.
proof fn lemma_write(h: HeapModel, v: JsValue, j: Json, lo: int, seen: Seq<usize>, u: Seq<u16>)
    requires
        h.distinct_texts(),
        writable(j),
        holds(h, v, j, lo),
        seen_before(seen, lo),
    ensures
        json_value(h, v, u, seen, None) == Ok::<Option<Seq<u16>>, WriteErr>(
            Some(tree_text(j, u, seen.len())),
        ),
    decreases j, 0int,
{
    match j {
        Json::Number(b) => {
            lemma_number_text(b);
        },
        Json::Array(s) => {
            let o = v->Object_0;
            let inner = seen.push(o);
            assert(seen_before(inner, o + 1));
            assert(!seen.contains(o));
            lemma_write_elements(h, o, s, lo, inner, s.len() as int, u);
            assert(h.objects[o as int].elements.len() == s.len());
        },
        Json::Object(s) => {
            let o = v->Object_0;
            let inner = seen.push(o);
            assert(seen_before(inner, o + 1));
            assert(!seen.contains(o));
            lemma_tree_members(h, o, s, lo);
            lemma_write_members(h, o, s, lo, inner, s.len() as int, u);
        },
        _ => {},
    }
}

/// A number is written in the same way as a small integer or as a double.
proof fn lemma_number_text(b: u64)
    requires
        is_finite(b),
        magnitude(b) == 0 ==> !is_negative(b),
    ensures
        match number_value(b) {
            JsValue::Smi(n) => number_string(int_double(n as int)) == number_string(b),
            JsValue::Double(c) => c == b,
            _ => false,
        },
{
    if magnitude(b) == 0 {
        crate::double::lemma_int_exact(0);
        assert(b == 0);
    } else if is_integral(b) {
        lemma_integral_is_int(b);
    }
}

proof fn lemma_write_elements(
    h: HeapModel,
    o: usize,
    s: Seq<Json>,
    lo: int,
    seen: Seq<usize>,
    k: int,
    u: Seq<u16>,
)
    requires
        h.distinct_texts(),
        writable(Json::Array(s)),
        holds(h, JsValue::Object(o), Json::Array(s), lo),
        seen_before(seen, o + 1),
        0 <= k <= s.len(),
    ensures
        json_elements(h, h.objects[o as int].elements, k, u, seen, None) == Ok::<
            Seq<u16>,
            WriteErr,
        >(array_text(s, k, u, seen.len())),
    decreases s, k,
{
    if k > 0 {
        lemma_write_elements(h, o, s, lo, seen, k - 1, u);
        lemma_element_facts(h, o, s, lo, k - 1);
        lemma_writable_element(s, k - 1);
        let v = h.objects[o as int].elements[k - 1];
        lemma_write(h, v, s[k - 1], o + 1, seen, u);
    }
}

proof fn lemma_write_members(
    h: HeapModel,
    o: usize,
    s: Seq<(Seq<u16>, Json)>,
    lo: int,
    seen: Seq<usize>,
    k: int,
    u: Seq<u16>,
)
    requires
        h.distinct_texts(),
        writable(Json::Object(s)),
        holds(h, JsValue::Object(o), Json::Object(s), lo),
        seen_before(seen, o + 1),
        0 <= k <= s.len(),
    ensures
        json_members(h, members(h, o, None), k, u, seen, None) == Ok::<Seq<u16>, WriteErr>(
            object_text(s, k, u, seen.len()),
        ),
        k > 0 ==> object_text(s, k, u, seen.len()).len() > 0,
    decreases s, k,
{
    if k > 0 {
        lemma_write_members(h, o, s, lo, seen, k - 1, u);
        lemma_member_facts(h, o, s, lo, k - 1);
        lemma_writable_member(s, k - 1);
        lemma_tree_members(h, o, s, lo);
        let ms = members(h, o, None);
        let m = ms[k - 1];
        lemma_write(h, m.1, s[k - 1].1, o + 1, seen, u);
        assert(h.texts[m.0 as int] == s[k - 1].0);
        assert(quoted(s[k - 1].0).len() > 0);
    }
}

/// A JSON text that was written for a tree, indented by white space or not at all, is read
/// as a value that is written in the same way, and with any other indentation as the tree
/// is.
pub proof fn law_text_writes_back(
    h: HeapModel,
    protos: (Option<usize>, Option<usize>),
    j: Json,
    u: Seq<u16>,
    other: Seq<u16>,
)
    requires
        writable(j),
        blank(u),
        h.distinct_texts(),
        h.objects.len() + tree_text(j, u, 0).len() <= usize::MAX,
        h.texts.len() + tree_text(j, u, 0).len() <= usize::MAX,
    ensures
        parsed_text(h, protos, tree_text(j, u, 0)) matches Ok((h1, v)) && json_value(
            h1,
            v,
            other,
            seq![],
            None,
        ) == Ok::<Option<Seq<u16>>, WriteErr>(Some(tree_text(j, other, 0))),
{
    law_tree_reads_back(h, protos, j, u);
    let (h1, v) = parsed_text(h, protos, tree_text(j, u, 0))->Ok_0;
    lemma_write(h1, v, j, h.objects.len() as int, seq![], other);
}

// ---------------------------------------------------------------------------
// The tree of a value
// ---------------------------------------------------------------------------

/// A zero without its sign; any other number.
pub open spec fn unsigned_zero(b: u64) -> u64 {
    if magnitude(b) == 0 {
        0
    } else {
        b
    }
}

/// The tree that is written of a value inside the objects `seen`; `None` where nothing is
/// written.
pub open spec fn tree_of(h: HeapModel, v: JsValue, seen: Seq<usize>) -> Option<Json>
    decreases h.objects.len() - seen.len(), 0int,
{
    match v {
        JsValue::Text(n) => Some(Json::Text(h.texts[n as int])),
        JsValue::Smi(n) => Some(Json::Number(unsigned_zero(int_double(n as int)))),
        JsValue::Double(b) => Some(
            if is_finite(b) {
                Json::Number(unsigned_zero(b))
            } else {
                Json::Null
            },
        ),
        JsValue::Bool(b) => Some(Json::Bool(b)),
        JsValue::Null => Some(Json::Null),
        JsValue::Object(o) => {
            let m = h.objects[o as int];
            if m.kind == Kind::Function || seen.contains(o) || seen.len() >= h.objects.len() {
                None
            } else if m.kind == Kind::Array {
                Some(
                    Json::Array(
                        trees_of(h, m.elements, m.elements.len() as int, seen.push(o)),
                    ),
                )
            } else {
                let ms = members(h, o, None);
                Some(Json::Object(named_trees_of(h, ms, ms.len() as int, seen.push(o))))
            }
        },
        _ => None,
    }
}

/// The trees of the first `k` elements; `null` where nothing is written.
pub open spec fn trees_of(h: HeapModel, s: Seq<JsValue>, k: int, seen: Seq<usize>) -> Seq<Json>
    decreases h.objects.len() - seen.len(), k,
{
    if k <= 0 {
        seq![]
    } else {
        trees_of(h, s, k - 1, seen).push(
            match tree_of(h, s[k - 1], seen) {
                Some(j) => j,
                None => Json::Null,
            },
        )
    }
}

/// The names and trees of the first `k` members of which something is written.
pub open spec fn named_trees_of(
    h: HeapModel,
    ms: Seq<(usize, JsValue)>,
    k: int,
    seen: Seq<usize>,
) -> Seq<(Seq<u16>, Json)>
    decreases h.objects.len() - seen.len(), k,
{
    if k <= 0 {
        seq![]
    } else {
        let head = named_trees_of(h, ms, k - 1, seen);
        match tree_of(h, ms[k - 1].1, seen) {
            Some(j) => head.push((h.texts[ms[k - 1].0 as int], j)),
            None => head,
        }
    }
}

proof fn lemma_array_text_same(a: Seq<Json>, b: Seq<Json>, k: int, u: Seq<u16>, d: nat)
    requires
        0 <= k <= a.len(),
        k <= b.len(),
        forall|i: int| 0 <= i < k ==> a[i] == b[i],
    ensures
        array_text(a, k, u, d) == array_text(b, k, u, d),
    decreases k,
{
    if k > 0 {
        lemma_array_text_same(a, b, k - 1, u, d);
        assert(a[k - 1] == b[k - 1]);
    }
}

proof fn lemma_object_text_same(
    a: Seq<(Seq<u16>, Json)>,
    b: Seq<(Seq<u16>, Json)>,
    k: int,
    u: Seq<u16>,
    d: nat,
)
    requires
        0 <= k <= a.len(),
        k <= b.len(),
        forall|i: int| 0 <= i < k ==> a[i] == b[i],
    ensures
        object_text(a, k, u, d) == object_text(b, k, u, d),
    decreases k,
{
    if k > 0 {
        lemma_object_text_same(a, b, k - 1, u, d);
        assert(a[k - 1] == b[k - 1]);
    }
}

/// What is written of a value is the text of its tree.
proof fn lemma_text_of_tree(h: HeapModel, v: JsValue, seen: Seq<usize>, u: Seq<u16>)
    requires
        json_value(h, v, u, seen, None) is Ok,
    ensures
        json_value(h, v, u, seen, None)->Ok_0 == match tree_of(h, v, seen) {
            Some(j) => Some(tree_text(j, u, seen.len())),
            None => None,
        },
    decreases h.objects.len() - seen.len(), 0int,
{
    match v {
        JsValue::Smi(n) => {
            lemma_zero_text(int_double(n as int));
        },
        JsValue::Double(b) => {
            lemma_zero_text(b);
        },
        JsValue::Object(o) => {
            let m = h.objects[o as int];
            if m.kind != Kind::Function && !(seen.contains(o) || seen.len() >= h.objects.len()) {
                let inner = seen.push(o);
                if m.kind == Kind::Array {
                    let n = m.elements.len() as int;
                    lemma_text_of_trees(h, m.elements, n, inner, u);
                } else {
                    let ms = members(h, o, None);
                    let n = ms.len() as int;
                    lemma_text_of_members(h, ms, n, inner, u);
                }
            }
        },
        _ => {},
    }
}

/// Both zeros have one text.
proof fn lemma_zero_text(b: u64)
    ensures
        is_finite(b) ==> number_string(unsigned_zero(b)) == number_string(b),
{
}

proof fn lemma_text_of_trees(
    h: HeapModel,
    s: Seq<JsValue>,
    k: int,
    seen: Seq<usize>,
    u: Seq<u16>,
)
    requires
        0 <= k <= s.len(),
        json_elements(h, s, k, u, seen, None) is Ok,
    ensures
        trees_of(h, s, k, seen).len() == k,
        json_elements(h, s, k, u, seen, None)->Ok_0 == array_text(
            trees_of(h, s, k, seen),
            k,
            u,
            seen.len(),
        ),
    decreases h.objects.len() - seen.len(), k,
{
    if k > 0 {
        lemma_text_of_trees(h, s, k - 1, seen, u);
        lemma_text_of_tree(h, s[k - 1], seen, u);
        let a = trees_of(h, s, k - 1, seen);
        let b = trees_of(h, s, k, seen);
        lemma_array_text_same(a, b, k - 1, u, seen.len());
        let text = json_value(h, s[k - 1], u, seen, None)->Ok_0;
        assert(tree_text(b[k - 1], u, seen.len()) == match text {
            Some(x) => x,
            None => utf16_of("null"@),
        });
        assert(array_text(a, 0, u, seen.len()) =~= seq![]);
    }
}

proof fn lemma_text_of_members(
    h: HeapModel,
    ms: Seq<(usize, JsValue)>,
    k: int,
    seen: Seq<usize>,
    u: Seq<u16>,
)
    requires
        0 <= k <= ms.len(),
        json_members(h, ms, k, u, seen, None) is Ok,
    ensures
        json_members(h, ms, k, u, seen, None)->Ok_0 == object_text(
            named_trees_of(h, ms, k, seen),
            named_trees_of(h, ms, k, seen).len() as int,
            u,
            seen.len(),
        ),
        named_trees_of(h, ms, k, seen).len() > 0 ==> object_text(
            named_trees_of(h, ms, k, seen),
            named_trees_of(h, ms, k, seen).len() as int,
            u,
            seen.len(),
        ).len() > 0,
    decreases h.objects.len() - seen.len(), k,
{
    if k > 0 {
        lemma_text_of_members(h, ms, k - 1, seen, u);
        lemma_text_of_tree(h, ms[k - 1].1, seen, u);
        let a = named_trees_of(h, ms, k - 1, seen);
        let b = named_trees_of(h, ms, k, seen);
        if tree_of(h, ms[k - 1].1, seen) is Some {
            let n = a.len() as int;
            lemma_object_text_same(a, b, n, u, seen.len());
            assert(quoted(b[n].0).len() > 0);
        }
    }
}

// ---------------------------------------------------------------------------
// Trees of values can be written
// ---------------------------------------------------------------------------

/// Whether a heap is sound and its texts have no lone surrogates.
pub open spec fn clean(h: HeapModel) -> bool {
    &&& h.closed()
    &&& h.distinct_texts()
    &&& forall|i: int| 0 <= i < h.texts.len() ==> no_lone(#[trigger] h.texts[i])
    &&& forall|o: int|
        0 <= o < h.objects.len() ==> distinct_keys((#[trigger] h.objects[o]).named.list)
}

/// The texts of distinct keys are distinct.
proof fn lemma_text_ids_distinct(list: Seq<Prop>, k: int)
    requires
        0 <= k <= list.len(),
        distinct_keys(list),
    ensures
        text_ids(list, k, true).no_duplicates(),
        forall|i: int|
            #![trigger text_ids(list, k, true)[i]]
            0 <= i < text_ids(list, k, true).len() ==> exists|j: int|
                0 <= j < k && #[trigger] list[j].key == PropKey::Text(text_ids(list, k, true)[i]),
    decreases k,
{
    if k > 0 {
        lemma_text_ids_distinct(list, k - 1);
        let a = text_ids(list, k - 1, true);
        let b = text_ids(list, k, true);
        assert forall|i: int|
            #![trigger b[i]]
            0 <= i < b.len() implies exists|j: int|
            0 <= j < k && #[trigger] list[j].key == PropKey::Text(b[i]) by {
            if i < a.len() {
                assert(a[i] == b[i]);
                let j = choose|j: int|
                    0 <= j < k - 1 && #[trigger] list[j].key == PropKey::Text(a[i]);
                assert(list[j].key == PropKey::Text(b[i]));
            } else {
                assert(list[k - 1].key == PropKey::Text(b[i]));
            }
        }
        if b.len() > a.len() {
            let last = b[a.len() as int];
            assert forall|i: int| 0 <= i < a.len() implies a[i] != last by {
                let j = choose|j: int|
                    0 <= j < k - 1 && #[trigger] list[j].key == PropKey::Text(a[i]);
                assert(list[j].key != list[k - 1].key);
            }
            assert(b =~= a.push(last));
            assert forall|i: int, j: int| 0 <= i < b.len() && 0 <= j < b.len() && i != j implies b[i]
                != b[j] by {
                if i < a.len() && j < a.len() {
                    assert(a[i] != a[j]);
                }
            }
        }
    }
}

/// The names of the members of an object are in order, in range, and differ.
proof fn lemma_member_order(h: HeapModel, o: usize)
    requires
        clean(h),
        o < h.objects.len(),
    ensures
        ({
            let ms = members(h, o, None);
            &&& forall|i: int| 0 <= i < ms.len() ==> (#[trigger] ms[i]).0 < h.texts.len() && h.valid(
                ms[i].1,
            )
            &&& forall|i: int, j: int|
                #![trigger ms[i], ms[j]]
                0 <= i < j < ms.len() ==> name_before(
                    h.texts[ms[i].0 as int],
                    h.texts[ms[j].0 as int],
                )
        }),
{
    broadcast use vstd::seq_lib::group_to_multiset_ensures;

    let m = h.objects[o as int];
    let list = m.named.list;
    let n = list.len() as int;
    assert(distinct_keys(list));
    assert(h.valid_refs(m));
    lemma_text_ids_distinct(list, n);
    let ids = text_ids(list, n, true);
    let ord = ordered_ids(h, ids);
    law_key_order(h, ids);
    ids.lemma_multiset_has_no_duplicates();
    assert(ord.to_multiset() == ids.to_multiset());
    ord.lemma_multiset_has_no_duplicates_conv();
    let ms = members(h, o, None);
    assert(ms.len() == ord.len());
    assert forall|i: int| 0 <= i < ms.len() implies (#[trigger] ms[i]).0 < h.texts.len() && h.valid(
        ms[i].1,
    ) by {
        let id = ord[i];
        assert(ord.contains(id));
        assert(ord.to_multiset().count(id) > 0);
        assert(ids.contains(id));
        let q = choose|q: int| 0 <= q < ids.len() && ids[q] == id;
        assert(ids[q] == id);
        let j = choose|j: int| 0 <= j < n && #[trigger] list[j].key == PropKey::Text(ids[q]);
        assert(h.valid_prop(list[j]));
        if has_key(list, PropKey::Text(id)) {
            lemma_lookup_key(list, PropKey::Text(id));
            assert(h.valid_prop(list[index_of_key(list, PropKey::Text(id))]));
        }
    }
    let cut = choose|cut: int|
        0 <= cut <= ids.len() && ord.len() == ids.len() && #[trigger] ascending(
            h,
            ord.take(cut),
        ) && forall|i: int| cut <= i < ids.len() ==> id_index(h, #[trigger] ord[i]) is None;
    assert forall|i: int, j: int|
        #![trigger ms[i], ms[j]]
        0 <= i < j < ms.len() implies name_before(
        h.texts[ms[i].0 as int],
        h.texts[ms[j].0 as int],
    ) by {
        assert(ms[i].0 == ord[i] && ms[j].0 == ord[j]);
        assert(ord[i] != ord[j]);
        assert(ms[i].0 < h.texts.len() && ms[j].0 < h.texts.len());
        let a = h.texts[ord[i] as int];
        let b = h.texts[ord[j] as int];
        assert(a != b) by {
            if ord[i] < ord[j] {
                assert(h.texts[ord[i] as int] != h.texts[ord[j] as int]);
            } else {
                assert(h.texts[ord[j] as int] != h.texts[ord[i] as int]);
            }
        }
        if array_index_of(b) is Some {
            assert(id_index(h, ord[j]) is Some);
            assert(j < cut);
            let t = ord.take(cut);
            assert(t[i] == ord[i] && t[j] == ord[j]);
            assert(id_index(h, t[i]) is Some);
            assert(id_index(h, t[i])->0 <= id_index(h, t[j])->0);
            if array_index_of(a) == array_index_of(b) {
                law_index_text_unique(a);
                law_index_text_unique(b);
            }
        }
    }
}

proof fn lemma_array_writable(s: Seq<Json>)
    requires
        forall|i: int| 0 <= i < s.len() ==> writable(#[trigger] s[i]),
    ensures
        writable(Json::Array(s)),
{
    let j = Json::Array(s);
    match j {
        Json::Array(t) => {
            assert(t == s);
            assert(forall|i: int| 0 <= i < t.len() ==> writable(#[trigger] t[i]));
            assert(writable(j));
        },
        _ => {},
    }
}

proof fn lemma_object_writable(s: Seq<(Seq<u16>, Json)>)
    requires
        names_in_order(s),
        forall|i: int| 0 <= i < s.len() ==> no_lone((#[trigger] s[i]).0) && writable(s[i].1),
    ensures
        writable(Json::Object(s)),
{
    let j = Json::Object(s);
    match j {
        Json::Object(t) => {
            assert(t == s);
            assert(forall|i: int|
                0 <= i < t.len() ==> no_lone((#[trigger] t[i]).0) && writable(t[i].1));
            assert(writable(j));
        },
        _ => {},
    }
}

/// The tree of a value in a clean heap can be written.
proof fn lemma_tree_writable(h: HeapModel, v: JsValue, seen: Seq<usize>)
    requires
        clean(h),
        h.valid(v),
    ensures
        tree_of(h, v, seen) matches Some(j) ==> writable(j),
    decreases h.objects.len() - seen.len(), 0int,
{
    match v {
        JsValue::Text(n) => {
            assert(no_lone(h.texts[n as int]));
        },
        JsValue::Smi(n) => {
            crate::double::lemma_int_exact(n as int);
        },
        JsValue::Object(o) => {
            let m = h.objects[o as int];
            if m.kind != Kind::Function && !(seen.contains(o) || seen.len() >= h.objects.len()) {
                let inner = seen.push(o);
                if m.kind == Kind::Array {
                    assert(h.valid_refs(m));
                    lemma_trees_writable(h, m.elements, m.elements.len() as int, inner);
                    lemma_array_writable(trees_of(h, m.elements, m.elements.len() as int, inner));
                } else {
                    let ms = members(h, o, None);
                    lemma_member_order(h, o);
                    lemma_named_trees_writable(h, ms, ms.len() as int, inner);
                    lemma_object_writable(named_trees_of(h, ms, ms.len() as int, inner));
                }
            }
        },
        _ => {},
    }
}

proof fn lemma_trees_writable(h: HeapModel, s: Seq<JsValue>, k: int, seen: Seq<usize>)
    requires
        clean(h),
        0 <= k <= s.len(),
        forall|i: int| 0 <= i < s.len() ==> h.valid(#[trigger] s[i]),
    ensures
        forall|i: int|
            0 <= i < trees_of(h, s, k, seen).len() ==> writable(
                #[trigger] trees_of(h, s, k, seen)[i],
            ),
    decreases h.objects.len() - seen.len(), k,
{
    if k > 0 {
        lemma_trees_writable(h, s, k - 1, seen);
        lemma_tree_writable(h, s[k - 1], seen);
        let a = trees_of(h, s, k - 1, seen);
        let b = trees_of(h, s, k, seen);
        assert forall|i: int| 0 <= i < b.len() implies writable(#[trigger] b[i]) by {
            if i < a.len() {
                assert(a[i] == b[i]);
            }
        }
    }
}

proof fn lemma_named_trees_writable(
    h: HeapModel,
    ms: Seq<(usize, JsValue)>,
    k: int,
    seen: Seq<usize>,
)
    requires
        clean(h),
        0 <= k <= ms.len(),
        forall|i: int| 0 <= i < ms.len() ==> (#[trigger] ms[i]).0 < h.texts.len() && h.valid(
            ms[i].1,
        ),
        forall|i: int, j: int|
            #![trigger ms[i], ms[j]]
            0 <= i < j < ms.len() ==> name_before(
                h.texts[ms[i].0 as int],
                h.texts[ms[j].0 as int],
            ),
    ensures
        ({
            let t = named_trees_of(h, ms, k, seen);
            &&& names_in_order(t)
            &&& forall|i: int|
                0 <= i < t.len() ==> no_lone((#[trigger] t[i]).0) && writable(t[i].1)
            &&& forall|i: int|
                #![trigger t[i]]
                0 <= i < t.len() ==> exists|q: int|
                    0 <= q < k && t[i].0 == h.texts[(#[trigger] ms[q]).0 as int]
        }),
    decreases h.objects.len() - seen.len(), k,
{
    if k > 0 {
        lemma_named_trees_writable(h, ms, k - 1, seen);
        lemma_tree_writable(h, ms[k - 1].1, seen);
        let a = named_trees_of(h, ms, k - 1, seen);
        let b = named_trees_of(h, ms, k, seen);
        assert forall|i: int|
            #![trigger b[i]]
            0 <= i < b.len() implies no_lone(b[i].0) && writable(b[i].1) && exists|q: int|
            0 <= q < k && b[i].0 == h.texts[(#[trigger] ms[q]).0 as int] by {
            if i < a.len() {
                assert(a[i] == b[i]);
                let q = choose|q: int|
                    0 <= q < k - 1 && a[i].0 == h.texts[(#[trigger] ms[q]).0 as int];
                assert(b[i].0 == h.texts[ms[q].0 as int]);
            } else {
                assert(b[i].0 == h.texts[ms[k - 1].0 as int]);
                assert(no_lone(h.texts[ms[k - 1].0 as int]));
            }
        }
        assert forall|i: int, j: int|
            #![trigger b[i], b[j]]
            0 <= i < j < b.len() implies name_before(b[i].0, b[j].0) by {
            assert(a[i] == b[i]);
            if j < a.len() {
                assert(a[j] == b[j]);
            } else {
                let q = choose|q: int|
                    0 <= q < k - 1 && a[i].0 == h.texts[(#[trigger] ms[q]).0 as int];
                assert(name_before(h.texts[ms[q].0 as int], h.texts[ms[k - 1].0 as int]));
            }
        }
    }
}

/// Whether a value can be written does not depend on the indentation.
proof fn lemma_same_outcome(h: HeapModel, v: JsValue, seen: Seq<usize>, a: Seq<u16>, b: Seq<u16>)
    ensures
        match json_value(h, v, a, seen, None) {
            Ok(x) => json_value(h, v, b, seen, None) matches Ok(y) && (x is Some) == (y is Some),
            Err(e) => json_value(h, v, b, seen, None) == Err::<Option<Seq<u16>>, WriteErr>(e),
        },
    decreases h.objects.len() - seen.len(), 0int,
{
    match v {
        JsValue::Object(o) => {
            let m = h.objects[o as int];
            if m.kind != Kind::Function && !(seen.contains(o) || seen.len() >= h.objects.len()) {
                let inner = seen.push(o);
                if m.kind == Kind::Array {
                    lemma_same_elements(h, m.elements, m.elements.len() as int, inner, a, b);
                } else {
                    let ms = members(h, o, None);
                    lemma_same_members(h, ms, ms.len() as int, inner, a, b);
                }
            }
        },
        _ => {},
    }
}

proof fn lemma_same_elements(
    h: HeapModel,
    s: Seq<JsValue>,
    k: int,
    seen: Seq<usize>,
    a: Seq<u16>,
    b: Seq<u16>,
)
    ensures
        match json_elements(h, s, k, a, seen, None) {
            Ok(_) => json_elements(h, s, k, b, seen, None) is Ok,
            Err(e) => json_elements(h, s, k, b, seen, None) == Err::<Seq<u16>, WriteErr>(e),
        },
    decreases h.objects.len() - seen.len(), k,
{
    if k > 0 {
        lemma_same_elements(h, s, k - 1, seen, a, b);
        lemma_same_outcome(h, s[k - 1], seen, a, b);
    }
}

proof fn lemma_same_members(
    h: HeapModel,
    ms: Seq<(usize, JsValue)>,
    k: int,
    seen: Seq<usize>,
    a: Seq<u16>,
    b: Seq<u16>,
)
    ensures
        match json_members(h, ms, k, a, seen, None) {
            Ok(_) => json_members(h, ms, k, b, seen, None) is Ok,
            Err(e) => json_members(h, ms, k, b, seen, None) == Err::<Seq<u16>, WriteErr>(e),
        },
    decreases h.objects.len() - seen.len(), k,
{
    if k > 0 {
        lemma_same_members(h, ms, k - 1, seen, a, b);
        lemma_same_outcome(h, ms[k - 1].1, seen, a, b);
    }
}

/// What `JSON.stringify` writes with a gap of white space, or with none, `JSON.parse`
/// reads, and what it reads is written with every gap as the value was.
pub proof fn law_json_round_trip(
    h: HeapModel,
    protos: (Option<usize>, Option<usize>),
    v: JsValue,
    u: Seq<u16>,
    t: Seq<u16>,
    other: Seq<u16>,
)
    requires
        clean(h),
        h.valid(v),
        blank(u),
        json_value(h, v, u, seq![], None) == Ok::<Option<Seq<u16>>, WriteErr>(Some(t)),
        h.objects.len() + t.len() <= usize::MAX,
        h.texts.len() + t.len() <= usize::MAX,
    ensures
        parsed_text(h, protos, t) matches Ok((h1, v1)) && json_value(h1, v1, other, seq![], None)
            == json_value(h, v, other, seq![], None),
        json_value(h, v, other, seq![], None) matches Ok(Some(_)),
{
    lemma_text_of_tree(h, v, seq![], u);
    lemma_same_outcome(h, v, seq![], u, seq![]);
    lemma_same_outcome(h, v, seq![], u, other);
    lemma_text_of_tree(h, v, seq![], other);
    lemma_tree_writable(h, v, seq![]);
    law_text_writes_back(h, protos, tree_of(h, v, seq![]).unwrap(), u, other);
}

proof fn lemma_no_gap_depth(j: Json, a: nat, b: nat)
    ensures
        tree_text(j, seq![], a) == tree_text(j, seq![], b),
    decreases j, 0int,
{
    let u: Seq<u16> = seq![];
    match j {
        Json::Array(s) => {
            lemma_no_gap_array(s, s.len() as int, a + 1, b + 1);
            assert(indent(u, a) == indent(u, b));
        },
        Json::Object(s) => {
            lemma_no_gap_object(s, s.len() as int, a + 1, b + 1);
            assert(indent(u, a) == indent(u, b));
        },
        _ => {},
    }
}

proof fn lemma_no_gap_array(s: Seq<Json>, k: int, a: nat, b: nat)
    ensures
        array_text(s, k, seq![], a) == array_text(s, k, seq![], b),
    decreases s, k,
{
    if 0 < k <= s.len() {
        let u: Seq<u16> = seq![];
        lemma_no_gap_array(s, k - 1, a, b);
        lemma_no_gap_depth(s[k - 1], a, b);
        assert(indent(u, a) == indent(u, b));
    }
}

proof fn lemma_no_gap_object(s: Seq<(Seq<u16>, Json)>, k: int, a: nat, b: nat)
    ensures
        object_text(s, k, seq![], a) == object_text(s, k, seq![], b),
    decreases s, k,
{
    if 0 < k <= s.len() {
        let u: Seq<u16> = seq![];
        lemma_no_gap_object(s, k - 1, a, b);
        lemma_no_gap_depth(s[k - 1].1, a, b);
        assert(indent(u, a) == indent(u, b));
    }
}

proof fn lemma_tree_at(h: HeapModel, s: Seq<JsValue>, k: int, seen: Seq<usize>, i: int)
    requires
        0 <= i < k <= s.len(),
    ensures
        trees_of(h, s, k, seen).len() == k,
        trees_of(h, s, k, seen)[i] == match tree_of(h, s[i], seen) {
            Some(j) => j,
            None => Json::Null,
        },
    decreases k,
{
    if i < k - 1 {
        lemma_tree_at(h, s, k - 1, seen, i);
    } else {
        lemma_trees_len(h, s, k - 1, seen);
    }
}

proof fn lemma_trees_len(h: HeapModel, s: Seq<JsValue>, k: int, seen: Seq<usize>)
    requires
        0 <= k,
    ensures
        trees_of(h, s, k, seen).len() == k,
    decreases k,
{
    if k > 0 {
        lemma_trees_len(h, s, k - 1, seen);
    }
}

proof fn lemma_elements_ok(
    h: HeapModel,
    s: Seq<JsValue>,
    k: int,
    u: Seq<u16>,
    seen: Seq<usize>,
    i: int,
)
    requires
        0 <= i < k,
        json_elements(h, s, k, u, seen, None) is Ok,
    ensures
        json_value(h, s[i], u, seen, None) is Ok,
    decreases k,
{
    if i < k - 1 {
        lemma_elements_ok(h, s, k - 1, u, seen, i);
    }
}

/// An array that is written and read again is an array of as many elements, each of which
/// is written as the element at its place was, and as `null` where nothing was written.
pub proof fn law_json_array(
    h: HeapModel,
    protos: (Option<usize>, Option<usize>),
    o: usize,
    u: Seq<u16>,
    t: Seq<u16>,
)
    requires
        clean(h),
        o < h.objects.len(),
        h.objects[o as int].kind == Kind::Array,
        blank(u),
        json_value(h, JsValue::Object(o), u, seq![], None) == Ok::<Option<Seq<u16>>, WriteErr>(
            Some(t),
        ),
        h.objects.len() + t.len() <= usize::MAX,
        h.texts.len() + t.len() <= usize::MAX,
    ensures
        parsed_text(h, protos, t) matches Ok((h1, JsValue::Object(a))) && h1.objects[a as int].kind
            == Kind::Array && h1.objects[a as int].elements.len()
            == h.objects[o as int].elements.len() && forall|i: int|
            0 <= i < h.objects[o as int].elements.len() ==> json_value(
                h1,
                #[trigger] h1.objects[a as int].elements[i],
                seq![],
                seq![],
                None,
            ) == match json_value(h, h.objects[o as int].elements[i], seq![], seq![o], None) {
                Ok(None) => Ok::<Option<Seq<u16>>, WriteErr>(Some(utf16_of("null"@))),
                x => x,
            },
{
    let v = JsValue::Object(o);
    let none: Seq<u16> = seq![];
    let top: Seq<usize> = seq![];
    let s = h.objects[o as int].elements;
    let n = s.len() as int;
    lemma_text_of_tree(h, v, top, u);
    lemma_same_outcome(h, v, top, u, none);
    lemma_tree_writable(h, v, top);
    let j = tree_of(h, v, top).unwrap();
    let inner = top.push(o);
    assert(inner =~= seq![o]);
    let ts = trees_of(h, s, n, inner);
    assert(j == Json::Array(ts));
    lemma_trees_len(h, s, n, inner);
    law_tree_reads_back(h, protos, j, u);
    let (h1, v1) = parsed_text(h, protos, t)->Ok_0;
    let a = v1->Object_0;
    let lo = h.objects.len() as int;
    assert forall|i: int| 0 <= i < n implies json_value(
        h1,
        #[trigger] h1.objects[a as int].elements[i],
        seq![],
        seq![],
        None,
    ) == match json_value(h, s[i], seq![], seq![o], None) {
        Ok(None) => Ok::<Option<Seq<u16>>, WriteErr>(Some(utf16_of("null"@))),
        x => x,
    } by {
        lemma_tree_at(h, s, n, inner, i);
        lemma_elements_ok(h, s, n, none, inner, i);
        lemma_text_of_tree(h, s[i], inner, none);
        lemma_element_facts(h1, a, ts, lo, i);
        lemma_writable_element(ts, i);
        lemma_write(h1, h1.objects[a as int].elements[i], ts[i], a + 1, top, none);
        lemma_no_gap_depth(ts[i], 0, 1);
    }
}

proof fn lemma_named_tree_at(
    h: HeapModel,
    ms: Seq<(usize, JsValue)>,
    k: int,
    seen: Seq<usize>,
)
    requires
        0 <= k <= ms.len(),
        forall|i: int| 0 <= i < k ==> tree_of(h, (#[trigger] ms[i]).1, seen) is Some,
    ensures
        named_trees_of(h, ms, k, seen).len() == k,
        forall|i: int|
            0 <= i < k ==> #[trigger] named_trees_of(h, ms, k, seen)[i] == (
                h.texts[ms[i].0 as int],
                tree_of(h, ms[i].1, seen).unwrap(),
            ),
    decreases k,
{
    if k > 0 {
        lemma_named_tree_at(h, ms, k - 1, seen);
        assert(tree_of(h, ms[k - 1].1, seen) is Some);
    }
}

proof fn lemma_members_ok(
    h: HeapModel,
    ms: Seq<(usize, JsValue)>,
    k: int,
    u: Seq<u16>,
    seen: Seq<usize>,
    i: int,
)
    requires
        0 <= i < k,
        json_members(h, ms, k, u, seen, None) is Ok,
    ensures
        json_value(h, ms[i].1, u, seen, None) is Ok,
    decreases k,
{
    if i < k - 1 {
        lemma_members_ok(h, ms, k - 1, u, seen, i);
    }
}

/// An object of which every member is written is read again as an object with the same
/// names in the same order, and each value is written as it was.
pub proof fn law_json_object(
    h: HeapModel,
    protos: (Option<usize>, Option<usize>),
    o: usize,
    u: Seq<u16>,
    t: Seq<u16>,
)
    requires
        clean(h),
        o < h.objects.len(),
        h.objects[o as int].kind == Kind::Ordinary,
        blank(u),
        json_value(h, JsValue::Object(o), u, seq![], None) == Ok::<Option<Seq<u16>>, WriteErr>(
            Some(t),
        ),
        forall|i: int|
            0 <= i < members(h, o, None).len() ==> json_value(
                h,
                (#[trigger] members(h, o, None)[i]).1,
                seq![],
                seq![o],
                None,
            ) matches Ok(Some(_)),
        h.objects.len() + t.len() <= usize::MAX,
        h.texts.len() + t.len() <= usize::MAX,
    ensures
        ({
            let ms = members(h, o, None);
            parsed_text(h, protos, t) matches Ok((h1, JsValue::Object(a)))
                && h1.objects[a as int].kind == Kind::Ordinary && h1.objects[a as int].named.list.len()
                == ms.len() && forall|i: int|
                0 <= i < ms.len() ==> is_member(
                    h1,
                    #[trigger] h1.objects[a as int].named.list[i],
                    h.texts[ms[i].0 as int],
                ) && json_value(
                    h1,
                    h1.objects[a as int].named.list[i].body->Data_0,
                    seq![],
                    seq![],
                    None,
                ) == json_value(h, ms[i].1, seq![], seq![o], None)
        }),
{
    let v = JsValue::Object(o);
    let none: Seq<u16> = seq![];
    let top: Seq<usize> = seq![];
    let ms = members(h, o, None);
    let n = ms.len() as int;
    lemma_text_of_tree(h, v, top, u);
    lemma_same_outcome(h, v, top, u, none);
    lemma_tree_writable(h, v, top);
    let j = tree_of(h, v, top).unwrap();
    let inner = top.push(o);
    assert(inner =~= seq![o]);
    let ts = named_trees_of(h, ms, n, inner);
    assert(j == Json::Object(ts));
    assert forall|i: int| 0 <= i < n implies tree_of(h, (#[trigger] ms[i]).1, inner) is Some by {
        lemma_text_of_tree(h, ms[i].1, inner, none);
    }
    lemma_named_tree_at(h, ms, n, inner);
    law_tree_reads_back(h, protos, j, u);
    let (h1, v1) = parsed_text(h, protos, t)->Ok_0;
    let a = v1->Object_0;
    let lo = h.objects.len() as int;
    assert forall|i: int| 0 <= i < n implies is_member(
        h1,
        #[trigger] h1.objects[a as int].named.list[i],
        h.texts[ms[i].0 as int],
    ) && json_value(
        h1,
        h1.objects[a as int].named.list[i].body->Data_0,
        seq![],
        seq![],
        None,
    ) == json_value(h, ms[i].1, seq![], seq![o], None) by {
        lemma_text_of_tree(h, ms[i].1, inner, none);
        lemma_member_facts(h1, a, ts, lo, i);
        lemma_writable_member(ts, i);
        assert(ts[i] == (h.texts[ms[i].0 as int], tree_of(h, ms[i].1, inner).unwrap()));
        lemma_write(
            h1,
            h1.objects[a as int].named.list[i].body->Data_0,
            ts[i].1,
            a + 1,
            top,
            none,
        );
        lemma_no_gap_depth(ts[i].1, 0, 1);
    }
}

/// A value that is written and read again is the same value where it is no object: texts
/// without lone surrogates, finite numbers but for the sign of a zero, booleans and `null`.
pub proof fn law_json_value(
    h: HeapModel,
    protos: (Option<usize>, Option<usize>),
    v: JsValue,
    t: Seq<u16>,
)
    requires
        clean(h),
        h.valid(v),
        !(v is Object),
        json_value(h, v, seq![], seq![], None) == Ok::<Option<Seq<u16>>, WriteErr>(Some(t)),
        h.objects.len() + t.len() <= usize::MAX,
        h.texts.len() + t.len() <= usize::MAX,
    ensures
        parsed_text(h, protos, t) matches Ok((h1, v1)) && match v {
            JsValue::Text(n) => v1 matches JsValue::Text(m) && h1.texts[m as int]
                == h.texts[n as int],
            JsValue::Smi(n) => v1 == number_value(int_double(n as int)),
            JsValue::Double(b) => if is_finite(b) {
                v1 == number_value(unsigned_zero(b))
            } else {
                v1 == JsValue::Null
            },
            _ => v1 == v,
        },
{
    lemma_text_of_tree(h, v, seq![], seq![]);
    lemma_tree_writable(h, v, seq![]);
    law_tree_reads_back(h, protos, tree_of(h, v, seq![]).unwrap(), seq![]);
    if v is Smi {
        crate::double::lemma_int_exact(v->Smi_0 as int);
        if v->Smi_0 == 0 {
            assert(int_double(0) == 0);
        }
    }
}

/// A comma before the closing bracket of an array is refused.
pub proof fn law_array_comma(h: HeapModel, protos: (Option<usize>, Option<usize>), j: Json)
    requires
        writable(j),
        h.distinct_texts(),
        h.objects.len() + tree_text(j, seq![], 0).len() + 1 <= usize::MAX,
        h.texts.len() + tree_text(j, seq![], 0).len() <= usize::MAX,
    ensures
        parsed_text(
            h,
            protos,
            seq![0x5bu16] + tree_text(j, seq![], 0) + seq![0x2cu16, 0x5d],
        ) is Err,
{
    let t = tree_text(j, seq![], 0);
    lemma_first_unit(j, seq![], 0);
    let w = seq![0x5bu16] + t + seq![0x2cu16, 0x5d];
    assert(w.subrange(1, 1 + t.len() as int) =~= t);
    assert(w[0] == 0x5b && w[1] == t[0]);
    let c = 1 + t.len() as int;
    assert(w[c] == 0x2c && w[c + 1] == 0x5d);
    assert(json_space_end(w, 0) == 0 && json_space_end(w, 1) == 1);
    assert(json_space_end(w, c) == c && json_space_end(w, c + 1) == c + 1);
    let o = h.objects.len() as usize;
    let h1 = h.with_new(ObjModel { prototype: protos.1, ..plain_object(Kind::Array) });
    lemma_parse(h1, protos, w, 1, j, seq![], 0);
    let (h2, v, e) = parsed_value(h1, protos, w, 1)->Ok_0;
    let h3 = with_pushed(h2, o, v);
    assert(parsed_value(h3, protos, w, c + 1) is Err);
    assert(parsed_elements(h3, protos, o, w, c + 1) is Err);
    assert(parsed_elements(h1, protos, o, w, 1) is Err);
    assert(parsed_value(h, protos, w, 0) is Err);
}

/// A comma before the closing bracket of an object is refused.
pub proof fn law_object_comma(
    h: HeapModel,
    protos: (Option<usize>, Option<usize>),
    j: Json,
    name: Seq<u16>,
)
    requires
        writable(j),
        no_lone(name),
        h.distinct_texts(),
        h.objects.len() + tree_text(j, seq![], 0).len() + 1 <= usize::MAX,
        h.texts.len() + tree_text(j, seq![], 0).len() <= usize::MAX,
    ensures
        parsed_text(
            h,
            protos,
            seq![0x7bu16] + quoted(name) + seq![0x3au16] + tree_text(j, seq![], 0) + seq![
                0x2cu16,
                0x7d,
            ],
        ) is Err,
{
    let t = tree_text(j, seq![], 0);
    lemma_first_unit(j, seq![], 0);
    let q = quoted(name);
    let x = seq![0x7bu16] + q + seq![0x3au16] + t + seq![0x2cu16, 0x7d];
    let b = 1 + q.len() as int;
    let d = b + 1 + t.len() as int;
    let o = h.objects.len() as usize;
    assert(x.subrange(1, 1 + q.len() as int) =~= q);
    assert(x.subrange(b + 1, b + 1 + t.len() as int) =~= t);
    assert(x[0] == 0x7b && x[1] == q[0] && q[0] == 0x22);
    assert(x[b] == 0x3a && x[b + 1] == t[0] && x[d] == 0x2c && x[d + 1] == 0x7d);
    assert(json_space_end(x, 0) == 0 && json_space_end(x, 1) == 1);
    assert(json_space_end(x, b) == b);
    assert(json_space_end(x, d) == d && json_space_end(x, d + 1) == d + 1);
    let g1 = h.with_new(ObjModel { prototype: protos.0, ..plain_object(Kind::Ordinary) });
    law_quote_reads_back(x, 1, name);
    lemma_parse(g1, protos, x, b + 1, j, seq![], 0);
    let (g2, y, f) = parsed_value(g1, protos, x, b + 1)->Ok_0;
    let g3 = with_member(g2, o, name, y);
    assert(parsed_members(g3, protos, o, x, d + 1) is Err);
    assert(parsed_members(g1, protos, o, x, 1) is Err);
    assert(parsed_value(h, protos, x, 0) is Err);
}

/// A text that starts with what starts no value is refused, and so is one of white space
/// alone; and whatever follows a value must be white space.
pub proof fn law_json_refuses(
    h: HeapModel,
    protos: (Option<usize>, Option<usize>),
    s: Seq<u16>,
    j: Json,
    c: u16,
)
    requires
        writable(j),
        h.distinct_texts(),
        h.objects.len() + tree_text(j, seq![], 0).len() <= usize::MAX,
        h.texts.len() + tree_text(j, seq![], 0).len() <= usize::MAX,
        c == 0x2c || c == 0x5d || c == 0x7d,
    ensures
        blank(s) ==> parsed_text(h, protos, s) is Err,
        s.len() > 0 && !is_json_space(s[0]) && !is_digit(s[0]) && s[0] != 0x2d && s[0] != 0x22 && s[0]
            != 0x5b && s[0] != 0x7b && s[0] != 0x74 && s[0] != 0x66 && s[0] != 0x6e ==> parsed_text(
            h,
            protos,
            s,
        ) is Err,
        parsed_text(h, protos, tree_text(j, seq![], 0).push(c)) is Err,
{
    if blank(s) {
        assert(s.subrange(0, s.len() as int) =~= s);
        lemma_skipped(s, 0, s);
    }
    let t = tree_text(j, seq![], 0);
    let w = t.push(c);
    assert(w.subrange(0, t.len() as int) =~= t);
    assert(w[t.len() as int] == c);
    lemma_parse(h, protos, w, 0, j, seq![], 0);
    assert(json_space_end(w, t.len() as int) == t.len());
}

} // verus!

//! How values are shown to a reader, and what the length of an array does.
use vstd::prelude::*;

use crate::builtin_laws::law_nat_text;
use crate::convert::display;
use crate::descriptor::{FullDescriptor, no_fields};
use crate::display::{MAX_DEPTH, headed, shown, shown_list, shown_regexp};
use crate::double::lemma_int_exact;
use crate::heap::{HeapModel, ObjModel};
use crate::internal_methods::{element_index, is_proxy};
use crate::object_define::{define_in, length_state};
use crate::radix_laws::spelled;
use crate::string::locale_order_result;
use crate::string_laws::law_text_order;
use crate::text::{utf16_of, well_formed};
use crate::value::{JsValue, Kind, PropKey};

verus! {

// ---------------------------------------------------------------------------
// Showing
// ---------------------------------------------------------------------------

/// A text is shown as it is, and an integer by its digits.
pub proof fn law_shown_values(h: HeapModel, t: usize, n: i32, depth: nat)
    requires
        n >= 0,
    ensures
        shown(h, JsValue::Text(t), depth) == well_formed(h.texts[t as int]),
        spelled(shown(h, JsValue::Smi(n), depth), 10) == n,
        shown(h, JsValue::Null, depth) == display(JsValue::Null),
{
    law_nat_text(n as nat);
}

/// A list of one value is shown as the value; one more comes behind a separator.
pub proof fn law_shown_list(
    h: HeapModel,
    items: Seq<JsValue>,
    v: JsValue,
    depth: nat,
    array: bool,
    between: Seq<u16>,
)
    requires
        depth <= MAX_DEPTH + 1,
        !(v is Undefined) && !(v is Null) && !(v is Hole),
    ensures
        shown_list(h, items, 0, depth, array, between).len() == 0,
        shown_list(h, seq![v], 1, depth, array, between) == shown(h, v, depth),
        items.len() > 0 ==> shown_list(
            h,
            items.push(v),
            items.len() + 1,
            depth,
            array,
            between,
        ) == shown_list(h, items, items.len(), depth, array, between) + between + shown(h, v, depth),
{
    if items.len() > 0 {
        lemma_list_prefix(h, items, v, items.len(), depth, array, between);
        assert(items.push(v)[items.len() as int] == v);
    }
}

proof fn lemma_list_prefix(
    h: HeapModel,
    items: Seq<JsValue>,
    v: JsValue,
    k: nat,
    depth: nat,
    array: bool,
    between: Seq<u16>,
)
    requires
        k <= items.len(),
    ensures
        shown_list(h, items.push(v), k, depth, array, between) == shown_list(
            h,
            items,
            k,
            depth,
            array,
            between,
        ),
    decreases k,
{
    if k > 0 {
        lemma_list_prefix(h, items, v, (k - 1) as nat, depth, array, between);
        assert(items.push(v)[k - 1] == items[k - 1]);
    }
}

/// An error is shown as its name, a colon, a space and its message, and as its name alone
/// without one.
pub proof fn law_headed(name: Seq<u16>, message: Seq<u16>)
    ensures
        message.len() == 0 ==> headed(name, message) == name,
        message.len() > 0 ==> headed(name, message) == name + seq![0x3au16, 0x20] + message,
{
    reveal_strlit(": ");
    crate::object_describe::lemma_ascii_units(": "@);
    assert(utf16_of(": "@) =~= seq![0x3au16, 0x20]);
}

/// A regular expression is shown as its source between slashes, and its flags behind them.
pub proof fn law_shown_regexp(h: HeapModel, m: ObjModel, s: usize, f: usize)
    requires
        m.inner.len() >= 2,
        m.inner[0] == JsValue::Text(s),
        m.inner[1] == JsValue::Text(f),
    ensures
        ({
            let t = shown_regexp(h, m);
            let source = well_formed(h.texts[s as int]);
            let flags = well_formed(h.texts[f as int]);
            &&& t.len() == source.len() + flags.len() + 2
            &&& t[0] == 0x2f
            &&& t[source.len() as int + 1] == 0x2f
            &&& t.subrange(1, source.len() as int + 1) == source
            &&& t.skip(source.len() as int + 2) == flags
        }),
{
    let t = shown_regexp(h, m);
    let source = well_formed(h.texts[s as int]);
    let flags = well_formed(h.texts[f as int]);
    assert(t.subrange(1, source.len() as int + 1) =~= source);
    assert(t.skip(source.len() as int + 2) =~= flags);
}

// ---------------------------------------------------------------------------
// Comparing texts
// ---------------------------------------------------------------------------

/// `localeCompare` is negative, zero or positive as the first differing unit is lower,
/// none differs, or it is higher; a beginning comes before the whole.
pub proof fn law_locale_compare(h: HeapModel, a: usize, b: usize, k: int)
    requires
        ({
            let s = well_formed(h.texts[a as int]);
            let t = well_formed(h.texts[b as int]);
            0 <= k <= s.len() && k <= t.len() && forall|i: int| 0 <= i < k ==> s[i] == t[i]
        }),
    ensures
        ({
            let s = well_formed(h.texts[a as int]);
            let t = well_formed(h.texts[b as int]);
            let r = locale_order_result(h, JsValue::Text(a), seq![JsValue::Text(b)]);
            &&& r.0 == h
            &&& k < s.len() && k < t.len() && s[k] < t[k] ==> r.1->Ok_0 == JsValue::Smi((-1) as i32)
            &&& k < s.len() && k < t.len() && s[k] > t[k] ==> r.1->Ok_0 == JsValue::Smi(1)
            &&& k == s.len() && k == t.len() ==> r.1->Ok_0 == JsValue::Smi(0)
            &&& k == s.len() && k < t.len() ==> r.1->Ok_0 == JsValue::Smi((-1) as i32)
            &&& k == t.len() && k < s.len() ==> r.1->Ok_0 == JsValue::Smi(1)
        }),
{
    law_text_order(well_formed(h.texts[a as int]), well_formed(h.texts[b as int]), k);
}

// ---------------------------------------------------------------------------
// The length of an array
// ---------------------------------------------------------------------------

/// Setting the length of an array below what it is cuts what lies past it, and nothing
/// else; one below zero is refused, and one that may not shrink stays.
pub proof fn law_array_length(h: HeapModel, o: usize, n: i32, old_len: int, writable: bool)
    requires
        o < h.objects.len(),
        h.objects[o as int].kind == Kind::Array,
        !is_proxy(h, o),
        element_index(h, o, PropKey::Text(h.text_id(utf16_of("length"@)))) is None,
        length_state(h, o) == Some((old_len, writable)),
    ensures
        ({
            let key = PropKey::Text(h.text_id(utf16_of("length"@)));
            let s = h.objects[o as int].elements;
            let r = define_in(
                h,
                o,
                key,
                FullDescriptor { value: Some(JsValue::Smi(n)), ..no_fields() },
            );
            &&& n < 0 ==> r is Err
            &&& n >= 0 && n < old_len && !writable ==> r == Ok::<
                (HeapModel, bool),
                crate::descriptor::Fault,
            >((h, false))
            &&& n >= 0 && n < old_len && writable ==> r is Ok
                && r->Ok_0.0.objects[o as int].elements == if n < s.len() {
                s.take(n as int)
            } else {
                s
            }
            &&& n >= old_len && n >= 0 ==> r is Ok && r->Ok_0.0.objects[o as int].elements
                == s
        }),
{
    lemma_int_exact(n as int);
    if n < 0 {
        lemma_int_exact(n + 0x1_0000_0000);
        assert((n as int) % 0x1_0000_0000 == n + 0x1_0000_0000);
    } else {
        let m = h.objects[o as int];
        let h1 = h.with_object(o, crate::object_define::cut_elements(m, n as int));
        let key = PropKey::Text(h.text_id(utf16_of("length"@)));
        assert(element_index(h1, o, key) == element_index(h, o, key));
    }
}

} // verus!

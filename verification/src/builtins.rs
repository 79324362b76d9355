//! Which function each built-in is.
use vstd::prelude::*;

use crate::array::{
    array_at, array_concat, array_construct, array_copy_within, array_fill, array_flat,
    array_from, array_includes, array_index_of, array_is_array, array_join, array_last_index_of,
    array_of, array_pop, array_push, array_reverse, array_shift, array_slice, array_splice,
    array_to_string, array_unshift,
};
use crate::array_sort::array_sort;
use crate::boolean::{boolean_construct, boolean_proto_to_string, boolean_proto_value_of};
use crate::convert::{number_of, number_value};
use crate::ctx::{
    Ctx, arg, arg_of, callback_stub, gives_error, gives_text, gives_value, only_heap, valid_args,
};
use crate::descriptor::Fault;
use crate::error_object::{
    error_create, eval_error_create, range_error_create, reference_error_create,
    syntax_error_create, type_error_create, uri_error_create,
};
use crate::global::{
    global_decode_uri, global_decode_uri_component, global_encode_uri,
    global_encode_uri_component,
};
use crate::heap::{Heap, HeapModel};
use crate::iterator::{
    array_iterator, array_iterator_entries, array_iterator_keys, iterator_drop, iterator_from,
    iterator_next, iterator_self, iterator_take, iterator_to_array, map_iterator, set_iterator,
};
use crate::json::{json_parse, json_stringify};
use crate::map::{
    map_clear, map_construct, map_delete, map_entries, map_get, map_has, map_keys, map_set,
    map_size, map_values, set_add, set_clear, set_construct, set_delete, set_entries, set_has,
    set_keys, set_size, set_values,
};
use crate::math::{
    math_abs, math_ceil, math_clz32, math_const_e, math_const_ln10, math_const_ln2,
    math_const_log10e, math_const_log2e, math_const_pi, math_const_sqrt1_2, math_const_sqrt2,
    math_floor, math_fround, math_hypot, math_imul, math_max, math_min, math_round, math_sign,
    math_sqrt, math_trunc,
};
use crate::native::NativeId;
use crate::number::{
    global_is_finite, global_is_nan, global_parse_float, global_parse_int, number_const_epsilon,
    number_const_max_safe_integer, number_const_max_value, number_const_min_safe_integer,
    number_const_min_value, number_const_nan, number_const_negative_infinity,
    number_const_positive_infinity, number_construct, number_is_finite, number_is_integer,
    number_is_nan, number_is_safe_integer, number_proto_to_string, number_proto_value_of,
    number_to_exponential, number_to_fixed, number_to_precision,
};
use crate::object::{
    function_proto_to_string, object_assign, object_construct, object_from_entries,
    object_get_prototype_of, object_is, object_is_extensible, object_is_frozen,
    object_is_sealed, object_prevent_extensions, object_proto_to_string, object_proto_value_of,
    object_set_prototype_of,
};
use crate::object_define::{
    ends_in, object_create, object_define_property, object_freeze, object_seal,
};
use crate::object_describe::object_get_own_property_descriptor;
use crate::object_list::{
    object_entries, object_enumerable_own_keys, object_get_own_property_names,
    object_get_own_property_symbols, object_has_own, object_has_own_property, object_keys,
    object_proto_property_is_enumerable, object_values,
};
use crate::promise::{
    ends_with_jobs, promise_catch, promise_construct, promise_reject, promise_resolve,
    promise_then, queue_microtask,
};
use crate::proxy::{proxy_construct, proxy_revocable};
use crate::regexp::{regexp_construct, regexp_to_string};
use crate::string::{
    heap_ends_in, string_at, string_char_at, string_char_code_at, string_code_point_at,
    string_concat, string_construct, string_ends_with, string_from_char_code,
    string_from_code_point, string_includes, string_index_of, string_last_index_of,
    string_locale_compare, string_pad_end, string_pad_start, string_repeat, string_replace_all,
    string_slice, string_starts_with, string_substr, string_substring, string_to_lower_case,
    string_to_string, string_to_upper_case, string_trim, string_trim_end, string_trim_start,
    string_value_of,
};
use crate::symbol::{
    symbol_construct, symbol_for, symbol_key_for, symbol_proto_description,
    symbol_proto_to_string, symbol_proto_value_of, symbol_well_known,
};
use crate::text::utf16_of;
use crate::value::{JsValue, Kind, Throw};
use crate::{
    array, array_sort, convert, ctx, descriptor, double, error_object, global, heap, iterator,
    job_queue, json, math, number, number_format, object, object_define, object_describe,
    object_list, promise, proxy, regexp, string, symbol, text, value,
};

verus! {

/// Whether the sizes that a call meets stay below what indices can count: no machine holds
/// more.
pub open spec fn within_limits(h: HeapModel, this: JsValue, args: Seq<JsValue>) -> bool {
    &&& string::short_text(h, this)
    &&& object_describe::countable(h, arg_of(args, 0))
    &&& this matches JsValue::Object(o) ==> h.objects[o as int].elements.len()
        < 0x4000_0000_0000_0000
    &&& h.symbols < usize::MAX
}

/// Whether the sizes that a call meets stay below what indices can count.
pub fn fits(heap: &Heap, this: JsValue, args: &[JsValue]) -> (r: bool)
    requires
        heap.wf(),
        heap@.valid(this),
        valid_args(heap@, args@),
    ensures
        r == within_limits(heap@, this, args@),
{
    let largest: usize = usize::MAX;
    let small: bool = match this {
        JsValue::Text(n) => {
            let len: usize = heap.text(n).len();
            len < largest && len as u64 <= 0x7fff_ffff_ffff_ffff
        },
        JsValue::Object(o) => (heap.object(o).elements.len() as u64) < 0x4000_0000_0000_0000,
        _ => true,
    };
    let first: bool = match arg(args, 0) {
        JsValue::Text(n) => heap.text(n).len() as u64 <= 0x7fff_ffff_ffff_ffff,
        _ => true,
    };
    small && first && heap.symbol_count() < largest
}

/// Whether a call left the context as it should be, but for its heap.
pub open spec fn same_but_heap(before: Ctx, after: Ctx) -> bool {
    after.wf() && after.global == before.global && after.pending == before.pending
}

// ---------------------------------------------------------------------------
// Built-ins of arrays
// ---------------------------------------------------------------------------

/// Whether a built-in is one of arrays.
pub open spec fn is_array_builtin(id: NativeId) -> bool {
    match id {
        NativeId::ArrayAt | NativeId::ArrayConcat | NativeId::ArrayConstruct
        | NativeId::ArrayCopyWithin | NativeId::ArrayFill | NativeId::ArrayFlat
        | NativeId::ArrayFrom | NativeId::ArrayIncludes | NativeId::ArrayIndexOf
        | NativeId::ArrayIsArray | NativeId::ArrayJoin | NativeId::ArrayLastIndexOf
        | NativeId::ArrayOf | NativeId::ArrayPop | NativeId::ArrayPush | NativeId::ArrayReverse
        | NativeId::ArrayShift | NativeId::ArraySlice | NativeId::ArraySort
        | NativeId::ArraySplice | NativeId::ArrayToString | NativeId::ArrayUnshift => true,
        _ => false,
    }
}

/// What a built-in of arrays does.
pub open spec fn array_ends(
    id: NativeId,
    before: Ctx,
    after: Ctx,
    this: JsValue,
    args: Seq<JsValue>,
    r: Result<JsValue, Throw>,
) -> bool {
    match id {
        NativeId::ArrayAt => ends_in(before, after, r, array::at_result(before.heap@, this, args)),
        NativeId::ArrayConcat => ends_in(
            before,
            after,
            r,
            array::new_array_result(
                before.heap@,
                array::concatenated(
                    before.heap@,
                    match this {
                        JsValue::Object(o) => before.heap@.objects[o as int].elements,
                        _ => seq![],
                    },
                    args,
                    args.len() as int,
                ),
            ),
        ),
        NativeId::ArrayConstruct => {
            ends_in(before, after, r, array::construct_result(before.heap@, args))
        },
        NativeId::ArrayCopyWithin => {
            ends_in(before, after, r, array::copy_within_result(before.heap@, this, args))
        },
        NativeId::ArrayFill => {
            ends_in(before, after, r, array::fill_result(before.heap@, this, args))
        },
        NativeId::ArrayFlat => {
            ends_in(before, after, r, array::flat_result(before.heap@, this, args))
        },
        NativeId::ArrayFrom => {
            ends_in(before, after, r, array::from_result(before.heap@, arg_of(args, 0)))
        },
        NativeId::ArrayIncludes => {
            ends_in(before, after, r, array::includes_result(before.heap@, this, args))
        },
        NativeId::ArrayIndexOf => {
            ends_in(before, after, r, array::index_of_result(before.heap@, this, args))
        },
        NativeId::ArrayIsArray => gives_value(
            before,
            after,
            r,
            JsValue::Bool(ctx::is_kind(before.heap@, arg_of(args, 0), Kind::Array)),
        ),
        NativeId::ArrayJoin => {
            ends_in(before, after, r, array::join_result(before.heap@, this, args))
        },
        NativeId::ArrayLastIndexOf => {
            ends_in(before, after, r, array::last_index_of_result(before.heap@, this, args))
        },
        NativeId::ArrayOf => ends_in(before, after, r, array::new_array_result(before.heap@, args)),
        NativeId::ArrayPop => ends_in(before, after, r, array::pop_result(before.heap@, this)),
        NativeId::ArrayPush => {
            ends_in(before, after, r, array::push_result(before.heap@, this, args))
        },
        NativeId::ArrayReverse => {
            ends_in(before, after, r, array::reverse_result(before.heap@, this))
        },
        NativeId::ArrayShift => ends_in(before, after, r, array::shift_result(before.heap@, this)),
        NativeId::ArraySlice => {
            ends_in(before, after, r, array::slice_result(before.heap@, this, args))
        },
        NativeId::ArraySort => {
            ends_in(before, after, r, array_sort::sort_result(before.heap@, this))
        },
        NativeId::ArraySplice => {
            ends_in(before, after, r, array::splice_result(before.heap@, this, args))
        },
        NativeId::ArrayToString => {
            ends_in(before, after, r, array::join_result(before.heap@, this, seq![]))
        },
        NativeId::ArrayUnshift => {
            ends_in(before, after, r, array::unshift_result(before.heap@, this, args))
        },
        _ => false,
    }
}

/// Calls a built-in of arrays; `None` where it is another one.
#[verifier::spinoff_prover]
fn call_array(ctx: &mut Ctx, id: NativeId, this: JsValue, args: &[JsValue]) -> (r: Option<
    Result<JsValue, Throw>,
>)
    requires
        old(ctx).wf(),
        old(ctx).heap@.valid(this),
        valid_args(old(ctx).heap@, args@),
        within_limits(old(ctx).heap@, this, args@),
    ensures
        match r {
            Some(x) => {
                &&& is_array_builtin(id)
                &&& array_ends(id, *old(ctx), *final(ctx), this, args@, x)
            },
            None => !is_array_builtin(id) && *final(ctx) == *old(ctx),
        },
{
    Some(
        match id {
            NativeId::ArrayAt => array_at(ctx, this, args),
            NativeId::ArrayConcat => array_concat(ctx, this, args),
            NativeId::ArrayConstruct => array_construct(ctx, this, args),
            NativeId::ArrayCopyWithin => array_copy_within(ctx, this, args),
            NativeId::ArrayFill => array_fill(ctx, this, args),
            NativeId::ArrayFlat => array_flat(ctx, this, args),
            NativeId::ArrayFrom => array_from(ctx, this, args),
            NativeId::ArrayIncludes => array_includes(ctx, this, args),
            NativeId::ArrayIndexOf => array_index_of(ctx, this, args),
            NativeId::ArrayIsArray => array_is_array(ctx, this, args),
            NativeId::ArrayJoin => array_join(ctx, this, args),
            NativeId::ArrayLastIndexOf => array_last_index_of(ctx, this, args),
            NativeId::ArrayOf => array_of(ctx, this, args),
            NativeId::ArrayPop => array_pop(ctx, this, args),
            NativeId::ArrayPush => array_push(ctx, this, args),
            NativeId::ArrayReverse => array_reverse(ctx, this, args),
            NativeId::ArrayShift => array_shift(ctx, this, args),
            NativeId::ArraySlice => array_slice(ctx, this, args),
            NativeId::ArraySort => array_sort(ctx, this, args),
            NativeId::ArraySplice => array_splice(ctx, this, args),
            NativeId::ArrayToString => array_to_string(ctx, this, args),
            NativeId::ArrayUnshift => array_unshift(ctx, this, args),
            _ => {
                return None;
            },
        },
    )
}

// ---------------------------------------------------------------------------
// Built-ins of maps, sets and iterators
// ---------------------------------------------------------------------------

/// Whether a built-in is one of maps, sets and iterators.
pub open spec fn is_collection_builtin(id: NativeId) -> bool {
    match id {
        NativeId::ArrayIterator | NativeId::ArrayIteratorEntries | NativeId::ArrayIteratorKeys
        | NativeId::IteratorDrop | NativeId::IteratorFrom | NativeId::IteratorNext
        | NativeId::IteratorSelf | NativeId::IteratorTake | NativeId::IteratorToArray
        | NativeId::MapClear | NativeId::MapConstruct | NativeId::MapDelete | NativeId::MapEntries
        | NativeId::MapGet | NativeId::MapHas | NativeId::MapIterator | NativeId::MapKeys
        | NativeId::MapSet | NativeId::MapSize | NativeId::MapValues | NativeId::SetAdd
        | NativeId::SetClear | NativeId::SetConstruct | NativeId::SetDelete | NativeId::SetEntries
        | NativeId::SetHas | NativeId::SetIterator | NativeId::SetKeys | NativeId::SetSize
        | NativeId::SetValues => true,
        _ => false,
    }
}

/// What a built-in of maps, sets and iterators does.
pub open spec fn collection_ends(
    id: NativeId,
    before: Ctx,
    after: Ctx,
    this: JsValue,
    args: Seq<JsValue>,
    r: Result<JsValue, Throw>,
) -> bool {
    match id {
        NativeId::ArrayIterator => ends_in(
            before,
            after,
            r,
            iterator::iterator_over(before.heap@, this, iterator::ITER_KIND_ARRAY_VALUES),
        ),
        NativeId::ArrayIteratorEntries => ends_in(
            before,
            after,
            r,
            iterator::iterator_over(before.heap@, this, iterator::ITER_KIND_ARRAY_ENTRIES),
        ),
        NativeId::ArrayIteratorKeys => ends_in(
            before,
            after,
            r,
            iterator::iterator_over(before.heap@, this, iterator::ITER_KIND_ARRAY_KEYS),
        ),
        NativeId::IteratorDrop => ends_in(
            before,
            after,
            r,
            iterator::part_of_rest(before.heap@, this, "Iterator.prototype.drop"@, args, false),
        ),
        NativeId::IteratorFrom => {
            ({
                let v = arg_of(args, 0);
                ends_in(
                    before,
                    after,
                    r,
                    if ctx::is_kind(before.heap@, v, Kind::Iterator) {
                        (before.heap@, Ok(v))
                    } else {
                        iterator::iterator_over(before.heap@, v, iterator::ITER_KIND_ARRAY_VALUES)
                    },
                )
            })
        },
        NativeId::IteratorNext => {
            ends_in(before, after, r, iterator::next_result(before.heap@, this))
        },
        NativeId::IteratorSelf => {
            &&& after == before
            &&& r == Ok::<JsValue, Throw>(this)
        },
        NativeId::IteratorTake => ends_in(
            before,
            after,
            r,
            iterator::part_of_rest(before.heap@, this, "Iterator.prototype.take"@, args, true),
        ),
        NativeId::IteratorToArray => {
            ends_in(before, after, r, iterator::array_of_rest(before.heap@, this))
        },
        NativeId::MapClear => ends_in(
            before,
            after,
            r,
            crate::map::clear_result(before.heap@, this, "Map.prototype.clear"@, Kind::MapObject),
        ),
        NativeId::MapConstruct => ends_in(
            before,
            after,
            r,
            (
                before.heap@.with_new(heap::plain_object(Kind::MapObject)),
                Ok(JsValue::Object(before.heap@.objects.len() as usize)),
            ),
        ),
        NativeId::MapDelete => ends_in(
            before,
            after,
            r,
            crate::map::delete_result(
                before.heap@,
                this,
                "Map.prototype.delete"@,
                Kind::MapObject,
                arg_of(args, 0),
            ),
        ),
        NativeId::MapEntries => ends_in(
            before,
            after,
            r,
            iterator::iterator_over(before.heap@, this, iterator::ITER_KIND_MAP_ENTRIES),
        ),
        NativeId::MapGet => {
            ends_in(before, after, r, crate::map::get_result(before.heap@, this, arg_of(args, 0)))
        },
        NativeId::MapHas => ends_in(
            before,
            after,
            r,
            crate::map::has_result(
                before.heap@,
                this,
                "Map.prototype.has"@,
                Kind::MapObject,
                arg_of(args, 0),
            ),
        ),
        NativeId::MapIterator => ends_in(
            before,
            after,
            r,
            iterator::iterator_over(before.heap@, this, iterator::ITER_KIND_MAP_ENTRIES),
        ),
        NativeId::MapKeys => ends_in(
            before,
            after,
            r,
            iterator::iterator_over(before.heap@, this, iterator::ITER_KIND_MAP_KEYS),
        ),
        NativeId::MapSet => ends_in(
            before,
            after,
            r,
            crate::map::set_result(before.heap@, this, arg_of(args, 0), arg_of(args, 1)),
        ),
        NativeId::MapSize => ends_in(
            before,
            after,
            r,
            crate::map::size_result(before.heap@, this, "Map.prototype.size"@, Kind::MapObject),
        ),
        NativeId::MapValues => ends_in(
            before,
            after,
            r,
            iterator::iterator_over(before.heap@, this, iterator::ITER_KIND_MAP_VALUES),
        ),
        NativeId::SetAdd => {
            ends_in(before, after, r, crate::map::add_result(before.heap@, this, arg_of(args, 0)))
        },
        NativeId::SetClear => ends_in(
            before,
            after,
            r,
            crate::map::clear_result(before.heap@, this, "Set.prototype.clear"@, Kind::SetObject),
        ),
        NativeId::SetConstruct => ends_in(
            before,
            after,
            r,
            (
                before.heap@.with_new(heap::plain_object(Kind::SetObject)),
                Ok(JsValue::Object(before.heap@.objects.len() as usize)),
            ),
        ),
        NativeId::SetDelete => ends_in(
            before,
            after,
            r,
            crate::map::delete_result(
                before.heap@,
                this,
                "Set.prototype.delete"@,
                Kind::SetObject,
                arg_of(args, 0),
            ),
        ),
        NativeId::SetEntries => ends_in(
            before,
            after,
            r,
            iterator::iterator_over(before.heap@, this, iterator::ITER_KIND_SET_VALUES),
        ),
        NativeId::SetHas => ends_in(
            before,
            after,
            r,
            crate::map::has_result(
                before.heap@,
                this,
                "Set.prototype.has"@,
                Kind::SetObject,
                arg_of(args, 0),
            ),
        ),
        NativeId::SetIterator => ends_in(
            before,
            after,
            r,
            iterator::iterator_over(before.heap@, this, iterator::ITER_KIND_SET_VALUES),
        ),
        NativeId::SetKeys => ends_in(
            before,
            after,
            r,
            iterator::iterator_over(before.heap@, this, iterator::ITER_KIND_SET_VALUES),
        ),
        NativeId::SetSize => ends_in(
            before,
            after,
            r,
            crate::map::size_result(before.heap@, this, "Set.prototype.size"@, Kind::SetObject),
        ),
        NativeId::SetValues => ends_in(
            before,
            after,
            r,
            iterator::iterator_over(before.heap@, this, iterator::ITER_KIND_SET_VALUES),
        ),
        _ => false,
    }
}

/// Calls a built-in of maps, sets and iterators; `None` where it is another one.
#[verifier::spinoff_prover]
fn call_collection(ctx: &mut Ctx, id: NativeId, this: JsValue, args: &[JsValue]) -> (r: Option<
    Result<JsValue, Throw>,
>)
    requires
        old(ctx).wf(),
        old(ctx).heap@.valid(this),
        valid_args(old(ctx).heap@, args@),
        within_limits(old(ctx).heap@, this, args@),
    ensures
        match r {
            Some(x) => {
                &&& is_collection_builtin(id)
                &&& collection_ends(id, *old(ctx), *final(ctx), this, args@, x)
            },
            None => !is_collection_builtin(id) && *final(ctx) == *old(ctx),
        },
{
    Some(
        match id {
            NativeId::ArrayIterator => array_iterator(ctx, this, args),
            NativeId::ArrayIteratorEntries => array_iterator_entries(ctx, this, args),
            NativeId::ArrayIteratorKeys => array_iterator_keys(ctx, this, args),
            NativeId::IteratorDrop => iterator_drop(ctx, this, args),
            NativeId::IteratorFrom => iterator_from(ctx, this, args),
            NativeId::IteratorNext => iterator_next(ctx, this, args),
            NativeId::IteratorSelf => iterator_self(ctx, this, args),
            NativeId::IteratorTake => iterator_take(ctx, this, args),
            NativeId::IteratorToArray => iterator_to_array(ctx, this, args),
            NativeId::MapClear => map_clear(ctx, this, args),
            NativeId::MapConstruct => map_construct(ctx, this, args),
            NativeId::MapDelete => map_delete(ctx, this, args),
            NativeId::MapEntries => map_entries(ctx, this, args),
            NativeId::MapGet => map_get(ctx, this, args),
            NativeId::MapHas => map_has(ctx, this, args),
            NativeId::MapIterator => map_iterator(ctx, this, args),
            NativeId::MapKeys => map_keys(ctx, this, args),
            NativeId::MapSet => map_set(ctx, this, args),
            NativeId::MapSize => map_size(ctx, this, args),
            NativeId::MapValues => map_values(ctx, this, args),
            NativeId::SetAdd => set_add(ctx, this, args),
            NativeId::SetClear => set_clear(ctx, this, args),
            NativeId::SetConstruct => set_construct(ctx, this, args),
            NativeId::SetDelete => set_delete(ctx, this, args),
            NativeId::SetEntries => set_entries(ctx, this, args),
            NativeId::SetHas => set_has(ctx, this, args),
            NativeId::SetIterator => set_iterator(ctx, this, args),
            NativeId::SetKeys => set_keys(ctx, this, args),
            NativeId::SetSize => set_size(ctx, this, args),
            NativeId::SetValues => set_values(ctx, this, args),
            _ => {
                return None;
            },
        },
    )
}

// ---------------------------------------------------------------------------
// Built-ins of numbers and booleans
// ---------------------------------------------------------------------------

/// Whether a built-in is one of numbers and booleans.
pub open spec fn is_number_builtin(id: NativeId) -> bool {
    match id {
        NativeId::BooleanConstruct | NativeId::BooleanProtoToString
        | NativeId::BooleanProtoValueOf | NativeId::GlobalIsFinite | NativeId::GlobalIsNaN
        | NativeId::GlobalParseFloat | NativeId::GlobalParseInt | NativeId::NumberConstEpsilon
        | NativeId::NumberConstMaxSafeInteger | NativeId::NumberConstMaxValue
        | NativeId::NumberConstMinSafeInteger | NativeId::NumberConstMinValue
        | NativeId::NumberConstNaN | NativeId::NumberConstNegativeInfinity
        | NativeId::NumberConstPositiveInfinity | NativeId::NumberConstruct
        | NativeId::NumberIsFinite | NativeId::NumberIsInteger | NativeId::NumberIsNan
        | NativeId::NumberIsSafeInteger | NativeId::NumberParseFloat | NativeId::NumberParseInt
        | NativeId::NumberProtoToString | NativeId::NumberProtoValueOf
        | NativeId::NumberToExponential | NativeId::NumberToFixed
        | NativeId::NumberToPrecision => true,
        _ => false,
    }
}

/// What a built-in of numbers and booleans does.
pub open spec fn number_ends(
    id: NativeId,
    before: Ctx,
    after: Ctx,
    this: JsValue,
    args: Seq<JsValue>,
    r: Result<JsValue, Throw>,
) -> bool {
    match id {
        NativeId::BooleanConstruct => gives_value(
            before,
            after,
            r,
            JsValue::Bool(convert::truthy(before.heap@, arg_of(args, 0))),
        ),
        NativeId::BooleanProtoToString => {
            match this {
                JsValue::Bool(true) => gives_text(before, after, r, utf16_of("true"@)),
                JsValue::Bool(false) => gives_text(before, after, r, utf16_of("false"@)),
                _ => gives_error(
                    before,
                    after,
                    r,
                    "TypeError: Boolean.prototype.toString requires that 'this' be a Boolean"@,
                ),
            }
        },
        NativeId::BooleanProtoValueOf => {
            match this {
                JsValue::Bool(_) => gives_value(before, after, r, this),
                _ => gives_error(
                    before,
                    after,
                    r,
                    "TypeError: Boolean.prototype.valueOf requires that 'this' be a Boolean"@,
                ),
            }
        },
        NativeId::GlobalIsFinite => gives_value(
            before,
            after,
            r,
            JsValue::Bool(double::is_finite(number_of(before.heap@, arg_of(args, 0)))),
        ),
        NativeId::GlobalIsNaN => gives_value(
            before,
            after,
            r,
            JsValue::Bool(double::is_nan(number_of(before.heap@, arg_of(args, 0)))),
        ),
        NativeId::GlobalParseFloat => gives_value(
            before,
            after,
            r,
            JsValue::Double(number::parsed_float(number::first_text(before.heap@, args))),
        ),
        NativeId::GlobalParseInt => gives_value(
            before,
            after,
            r,
            number_value(
                number::parsed_int(
                    number::first_text(before.heap@, args),
                    if args.len() < 2 {
                        0
                    } else {
                        number::clamped_i32(number_of(before.heap@, args[1]))
                    },
                ),
            ),
        ),
        NativeId::NumberConstEpsilon => {
            gives_value(before, after, r, JsValue::Double(0x3cb0_0000_0000_0000))
        },
        NativeId::NumberConstMaxSafeInteger => {
            gives_value(before, after, r, JsValue::Double(0x433f_ffff_ffff_ffff))
        },
        NativeId::NumberConstMaxValue => {
            gives_value(before, after, r, JsValue::Double(0x7fef_ffff_ffff_ffff))
        },
        NativeId::NumberConstMinSafeInteger => {
            gives_value(before, after, r, JsValue::Double(0xc33f_ffff_ffff_ffff))
        },
        NativeId::NumberConstMinValue => gives_value(before, after, r, JsValue::Double(1)),
        NativeId::NumberConstNaN => gives_value(before, after, r, JsValue::Double(double::NAN)),
        NativeId::NumberConstNegativeInfinity => {
            gives_value(before, after, r, JsValue::Double(0xfff0_0000_0000_0000))
        },
        NativeId::NumberConstPositiveInfinity => {
            gives_value(before, after, r, JsValue::Double(double::INFINITY))
        },
        NativeId::NumberConstruct => gives_value(
            before,
            after,
            r,
            if args.len() == 0 {
                number_value(double::int_double(0))
            } else {
                number_value(number_of(before.heap@, args[0]))
            },
        ),
        NativeId::NumberIsFinite => {
            gives_value(before, after, r, JsValue::Bool(number::finite_number(arg_of(args, 0))))
        },
        NativeId::NumberIsInteger => gives_value(
            before,
            after,
            r,
            JsValue::Bool(
                match convert::as_number(arg_of(args, 0)) {
                    Some(b) => double::is_integral(b),
                    None => false,
                },
            ),
        ),
        NativeId::NumberIsNan => gives_value(
            before,
            after,
            r,
            JsValue::Bool(arg_of(args, 0) is Double && double::is_nan(arg_of(args, 0)->Double_0)),
        ),
        NativeId::NumberIsSafeInteger => {
            gives_value(
                before,
                after,
                r,
                JsValue::Bool(
                    match convert::as_number(arg_of(args, 0)) {
                        Some(b) => double::is_integral(b) && !double::below(
                            double::int_double(0x1f_ffff_ffff_ffff),
                            double::absolute(b),
                        ),
                        None => false,
                    },
                ),
            )
        },
        NativeId::NumberParseFloat => gives_value(
            before,
            after,
            r,
            JsValue::Double(number::parsed_float(number::first_text(before.heap@, args))),
        ),
        NativeId::NumberParseInt => gives_value(
            before,
            after,
            r,
            number_value(
                number::parsed_int(
                    number::first_text(before.heap@, args),
                    if args.len() < 2 {
                        0
                    } else {
                        number::clamped_i32(number_of(before.heap@, args[1]))
                    },
                ),
            ),
        ),
        NativeId::NumberProtoToString => {
            match convert::as_number(this) {
                None => gives_error(before, after, r, number::not_a_number_error("toString"@)),
                Some(b) => if arg_of(args, 0) == JsValue::Undefined {
                    gives_text(before, after, r, number_format::number_string(b))
                } else {
                    let radix = number_of(before.heap@, arg_of(args, 0));
                    if number::between(radix, 2, 36) && double::is_integral(radix) {
                        gives_text(
                            before,
                            after,
                            r,
                            number::to_radix_text(b, double::trunc_int(radix)),
                        )
                    } else {
                        gives_error(
                            before,
                            after,
                            r,
                            "RangeError: toString() radix must be between 2 and 36"@,
                        )
                    }
                },
            }
        },
        NativeId::NumberProtoValueOf => {
            match convert::as_number(this) {
                None => gives_error(before, after, r, number::not_a_number_error("valueOf"@)),
                Some(_) => gives_value(before, after, r, this),
            }
        },
        NativeId::NumberToExponential => {
            match convert::as_number(this) {
                None => gives_error(before, after, r, number::not_a_number_error("toExponential"@)),
                Some(b) => if !double::is_finite(b) {
                    gives_text(before, after, r, number_format::special_text(b))
                } else if arg_of(args, 0) == JsValue::Undefined {
                    gives_text(before, after, r, number_format::shortest_exponential(b))
                } else {
                    let d = number_of(before.heap@, arg_of(args, 0));
                    if number::between(d, 0, 100) {
                        gives_text(
                            before,
                            after,
                            r,
                            number_format::exponential_text(b, double::trunc_int(d) as nat),
                        )
                    } else {
                        gives_error(
                            before,
                            after,
                            r,
                            "RangeError: toExponential() argument must be between 0 and 100"@,
                        )
                    }
                },
            }
        },
        NativeId::NumberToFixed => {
            match convert::as_number(this) {
                None => gives_error(before, after, r, number::not_a_number_error("toFixed"@)),
                Some(b) => if args.len() == 0 {
                    gives_text(before, after, r, number::to_fixed_text(b, 0))
                } else {
                    let d = number_of(before.heap@, args[0]);
                    if number::between(d, 0, 100) {
                        gives_text(
                            before,
                            after,
                            r,
                            number::to_fixed_text(b, double::trunc_int(d) as nat),
                        )
                    } else {
                        gives_error(
                            before,
                            after,
                            r,
                            "RangeError: toFixed() digits argument must be between 0 and 100"@,
                        )
                    }
                },
            }
        },
        NativeId::NumberToPrecision => {
            match convert::as_number(this) {
                None => gives_error(before, after, r, number::not_a_number_error("toPrecision"@)),
                Some(b) => if arg_of(args, 0) == JsValue::Undefined {
                    gives_text(before, after, r, number_format::number_string(b))
                } else {
                    let p = number_of(before.heap@, arg_of(args, 0));
                    if !number::between(p, 1, 100) {
                        gives_error(
                            before,
                            after,
                            r,
                            "RangeError: toPrecision() argument must be between 1 and 100"@,
                        )
                    } else if !double::is_finite(b) {
                        gives_text(before, after, r, number_format::special_text(b))
                    } else {
                        gives_text(
                            before,
                            after,
                            r,
                            number_format::precision_text(b, double::trunc_int(p) as nat),
                        )
                    }
                },
            }
        },
        _ => false,
    }
}

/// Calls a built-in of numbers and booleans; `None` where it is another one.
#[verifier::spinoff_prover]
fn call_number(ctx: &mut Ctx, id: NativeId, this: JsValue, args: &[JsValue]) -> (r: Option<
    Result<JsValue, Throw>,
>)
    requires
        old(ctx).wf(),
        old(ctx).heap@.valid(this),
        valid_args(old(ctx).heap@, args@),
        within_limits(old(ctx).heap@, this, args@),
    ensures
        match r {
            Some(x) => {
                &&& is_number_builtin(id)
                &&& number_ends(id, *old(ctx), *final(ctx), this, args@, x)
            },
            None => !is_number_builtin(id) && *final(ctx) == *old(ctx),
        },
{
    Some(
        match id {
            NativeId::BooleanConstruct => boolean_construct(ctx, this, args),
            NativeId::BooleanProtoToString => boolean_proto_to_string(ctx, this, args),
            NativeId::BooleanProtoValueOf => boolean_proto_value_of(ctx, this, args),
            NativeId::GlobalIsFinite => global_is_finite(ctx, this, args),
            NativeId::GlobalIsNaN => global_is_nan(ctx, this, args),
            NativeId::GlobalParseFloat => global_parse_float(ctx, this, args),
            NativeId::GlobalParseInt => global_parse_int(ctx, this, args),
            NativeId::NumberConstEpsilon => number_const_epsilon(ctx, this, args),
            NativeId::NumberConstMaxSafeInteger => number_const_max_safe_integer(ctx, this, args),
            NativeId::NumberConstMaxValue => number_const_max_value(ctx, this, args),
            NativeId::NumberConstMinSafeInteger => number_const_min_safe_integer(ctx, this, args),
            NativeId::NumberConstMinValue => number_const_min_value(ctx, this, args),
            NativeId::NumberConstNaN => number_const_nan(ctx, this, args),
            NativeId::NumberConstNegativeInfinity => {
                number_const_negative_infinity(ctx, this, args)
            },
            NativeId::NumberConstPositiveInfinity => {
                number_const_positive_infinity(ctx, this, args)
            },
            NativeId::NumberConstruct => number_construct(ctx, this, args),
            NativeId::NumberIsFinite => number_is_finite(ctx, this, args),
            NativeId::NumberIsInteger => number_is_integer(ctx, this, args),
            NativeId::NumberIsNan => number_is_nan(ctx, this, args),
            NativeId::NumberIsSafeInteger => number_is_safe_integer(ctx, this, args),
            NativeId::NumberParseFloat => global_parse_float(ctx, this, args),
            NativeId::NumberParseInt => global_parse_int(ctx, this, args),
            NativeId::NumberProtoToString => number_proto_to_string(ctx, this, args),
            NativeId::NumberProtoValueOf => number_proto_value_of(ctx, this, args),
            NativeId::NumberToExponential => number_to_exponential(ctx, this, args),
            NativeId::NumberToFixed => number_to_fixed(ctx, this, args),
            NativeId::NumberToPrecision => number_to_precision(ctx, this, args),
            _ => {
                return None;
            },
        },
    )
}

// ---------------------------------------------------------------------------
// Built-ins of Math
// ---------------------------------------------------------------------------

/// Whether a built-in is one of `Math`.
pub open spec fn is_math_builtin(id: NativeId) -> bool {
    match id {
        NativeId::MathAbs | NativeId::MathCeil | NativeId::MathClz32 | NativeId::MathConstE
        | NativeId::MathConstLn10 | NativeId::MathConstLn2 | NativeId::MathConstLog10e
        | NativeId::MathConstLog2e | NativeId::MathConstPi | NativeId::MathConstSqrt1_2
        | NativeId::MathConstSqrt2 | NativeId::MathFloor | NativeId::MathFround
        | NativeId::MathHypot | NativeId::MathImul | NativeId::MathMax | NativeId::MathMin
        | NativeId::MathRound | NativeId::MathSign | NativeId::MathSqrt
        | NativeId::MathTrunc => true,
        _ => false,
    }
}

/// What a built-in of `Math` does.
pub open spec fn math_ends(
    id: NativeId,
    before: Ctx,
    after: Ctx,
    this: JsValue,
    args: Seq<JsValue>,
    r: Result<JsValue, Throw>,
) -> bool {
    match id {
        NativeId::MathAbs => gives_value(
            before,
            after,
            r,
            number_value(double::absolute(math::first_number(before.heap@, args))),
        ),
        NativeId::MathCeil => gives_value(
            before,
            after,
            r,
            number_value(double::ceiling(math::first_number(before.heap@, args))),
        ),
        NativeId::MathClz32 => {
            gives_value(
                before,
                after,
                r,
                JsValue::Smi(
                    (
                        32 - math::bit_length(
                            object_define::uint32_of(math::first_number(before.heap@, args)) as nat,
                        )
                    ) as i32,
                ),
            )
        },
        NativeId::MathConstE => {
            gives_value(before, after, r, JsValue::Double(0x4005_bf0a_8b14_5769))
        },
        NativeId::MathConstLn10 => {
            gives_value(before, after, r, JsValue::Double(0x4002_6bb1_bbb5_5516))
        },
        NativeId::MathConstLn2 => {
            gives_value(before, after, r, JsValue::Double(0x3fe6_2e42_fefa_39ef))
        },
        NativeId::MathConstLog10e => {
            gives_value(before, after, r, JsValue::Double(0x3fdb_cb7b_1526_e50e))
        },
        NativeId::MathConstLog2e => {
            gives_value(before, after, r, JsValue::Double(0x3ff7_1547_652b_82fe))
        },
        NativeId::MathConstPi => {
            gives_value(before, after, r, JsValue::Double(0x4009_21fb_5444_2d18))
        },
        NativeId::MathConstSqrt1_2 => {
            gives_value(before, after, r, JsValue::Double(0x3fe6_a09e_667f_3bcd))
        },
        NativeId::MathConstSqrt2 => {
            gives_value(before, after, r, JsValue::Double(0x3ff6_a09e_667f_3bcd))
        },
        NativeId::MathFloor => gives_value(
            before,
            after,
            r,
            number_value(double::floor(math::first_number(before.heap@, args))),
        ),
        NativeId::MathFround => gives_value(
            before,
            after,
            r,
            number_value(math::single(math::first_number(before.heap@, args))),
        ),
        NativeId::MathHypot => gives_value(
            before,
            after,
            r,
            if math::has_infinite(before.heap@, args, args.len() as int) {
                JsValue::Double(double::INFINITY)
            } else {
                number_value(math::root(math::square_sum(before.heap@, args, args.len() as int)))
            },
        ),
        NativeId::MathImul => gives_value(
            before,
            after,
            r,
            JsValue::Smi(
                math::wrapped_i32(
                    math::int32_of(math::first_number(before.heap@, args)) * math::int32_of(
                        number_of(before.heap@, arg_of(args, 1)),
                    ),
                ) as i32,
            ),
        ),
        NativeId::MathMax => gives_value(
            before,
            after,
            r,
            number_value(math::extreme(before.heap@, args, args.len() as int, true)),
        ),
        NativeId::MathMin => gives_value(
            before,
            after,
            r,
            number_value(math::extreme(before.heap@, args, args.len() as int, false)),
        ),
        NativeId::MathRound => gives_value(
            before,
            after,
            r,
            math::rounded_value(math::first_number(before.heap@, args)),
        ),
        NativeId::MathSign => gives_value(
            before,
            after,
            r,
            number_value(math::sign_of(math::first_number(before.heap@, args))),
        ),
        NativeId::MathSqrt => gives_value(
            before,
            after,
            r,
            number_value(math::root(math::first_number(before.heap@, args))),
        ),
        NativeId::MathTrunc => gives_value(
            before,
            after,
            r,
            number_value(double::truncation(math::first_number(before.heap@, args))),
        ),
        _ => false,
    }
}

/// Calls a built-in of `Math`; `None` where it is another one.
#[verifier::spinoff_prover]
fn call_math(ctx: &mut Ctx, id: NativeId, this: JsValue, args: &[JsValue]) -> (r: Option<
    Result<JsValue, Throw>,
>)
    requires
        old(ctx).wf(),
        old(ctx).heap@.valid(this),
        valid_args(old(ctx).heap@, args@),
        within_limits(old(ctx).heap@, this, args@),
    ensures
        match r {
            Some(x) => {
                &&& is_math_builtin(id)
                &&& math_ends(id, *old(ctx), *final(ctx), this, args@, x)
            },
            None => !is_math_builtin(id) && *final(ctx) == *old(ctx),
        },
{
    Some(
        match id {
            NativeId::MathAbs => math_abs(ctx, this, args),
            NativeId::MathCeil => math_ceil(ctx, this, args),
            NativeId::MathClz32 => math_clz32(ctx, this, args),
            NativeId::MathConstE => math_const_e(ctx, this, args),
            NativeId::MathConstLn10 => math_const_ln10(ctx, this, args),
            NativeId::MathConstLn2 => math_const_ln2(ctx, this, args),
            NativeId::MathConstLog10e => math_const_log10e(ctx, this, args),
            NativeId::MathConstLog2e => math_const_log2e(ctx, this, args),
            NativeId::MathConstPi => math_const_pi(ctx, this, args),
            NativeId::MathConstSqrt1_2 => math_const_sqrt1_2(ctx, this, args),
            NativeId::MathConstSqrt2 => math_const_sqrt2(ctx, this, args),
            NativeId::MathFloor => math_floor(ctx, this, args),
            NativeId::MathFround => math_fround(ctx, this, args),
            NativeId::MathHypot => math_hypot(ctx, this, args),
            NativeId::MathImul => math_imul(ctx, this, args),
            NativeId::MathMax => math_max(ctx, this, args),
            NativeId::MathMin => math_min(ctx, this, args),
            NativeId::MathRound => math_round(ctx, this, args),
            NativeId::MathSign => math_sign(ctx, this, args),
            NativeId::MathSqrt => math_sqrt(ctx, this, args),
            NativeId::MathTrunc => math_trunc(ctx, this, args),
            _ => {
                return None;
            },
        },
    )
}

// ---------------------------------------------------------------------------
// Built-ins of objects and proxies
// ---------------------------------------------------------------------------

/// Whether a built-in is one of objects and proxies.
pub open spec fn is_object_builtin(id: NativeId) -> bool {
    match id {
        NativeId::FunctionProtoToString | NativeId::ObjectAssign | NativeId::ObjectConstruct
        | NativeId::ObjectCreate | NativeId::ObjectDefineProperty | NativeId::ObjectEntries
        | NativeId::ObjectEnumerableOwnKeys | NativeId::ObjectFreeze | NativeId::ObjectFromEntries
        | NativeId::ObjectGetOwnPropertyDescriptor | NativeId::ObjectGetOwnPropertyNames
        | NativeId::ObjectGetOwnPropertySymbols | NativeId::ObjectGetPrototypeOf
        | NativeId::ObjectHasOwn | NativeId::ObjectHasOwnProperty | NativeId::ObjectIs
        | NativeId::ObjectIsExtensible | NativeId::ObjectIsFrozen | NativeId::ObjectIsSealed
        | NativeId::ObjectKeys | NativeId::ObjectPreventExtensions
        | NativeId::ObjectProtoPropertyIsEnumerable | NativeId::ObjectProtoToString
        | NativeId::ObjectProtoValueOf | NativeId::ObjectSeal | NativeId::ObjectSetPrototypeOf
        | NativeId::ObjectValues | NativeId::ProxyConstruct | NativeId::ProxyRevocable => true,
        _ => false,
    }
}

/// What a built-in of objects and proxies does.
pub open spec fn object_ends(
    id: NativeId,
    before: Ctx,
    after: Ctx,
    this: JsValue,
    args: Seq<JsValue>,
    r: Result<JsValue, Throw>,
) -> bool {
    match id {
        NativeId::FunctionProtoToString => gives_text(before, after, r, utf16_of("function() {}"@)),
        NativeId::ObjectAssign => {
            ends_in(before, after, r, object::assign_result(before.heap@, args))
        },
        NativeId::ObjectConstruct => {
            ends_in(before, after, r, object::construct_result(before.heap@, arg_of(args, 0)))
        },
        NativeId::ObjectCreate => {
            ends_in(before, after, r, object_define::create_result(before.heap@, args))
        },
        NativeId::ObjectDefineProperty => {
            ends_in(before, after, r, object_define::define_property_result(before.heap@, args))
        },
        NativeId::ObjectEntries => ends_in(
            before,
            after,
            r,
            object_list::entries_result(before.heap@, before.global, arg_of(args, 0)),
        ),
        NativeId::ObjectEnumerableOwnKeys => ends_in(
            before,
            after,
            r,
            object_list::enumerated_result(before.heap@, before.global, arg_of(args, 0)),
        ),
        NativeId::ObjectFreeze => ends_in(
            before,
            after,
            r,
            object_define::integrity_result(before.heap@, arg_of(args, 0), true),
        ),
        NativeId::ObjectFromEntries => {
            ends_in(before, after, r, object::from_entries_result(before.heap@, arg_of(args, 0)))
        },
        NativeId::ObjectGetOwnPropertyDescriptor => ends_in(
            before,
            after,
            r,
            object_describe::descriptor_result(before.heap@, arg_of(args, 0), arg_of(args, 1)),
        ),
        NativeId::ObjectGetOwnPropertyNames => ends_in(
            before,
            after,
            r,
            object_list::names_result(before.heap@, before.global, arg_of(args, 0)),
        ),
        NativeId::ObjectGetOwnPropertySymbols => ends_in(
            before,
            after,
            r,
            object_list::symbols_result(before.heap@, before.global, arg_of(args, 0)),
        ),
        NativeId::ObjectGetPrototypeOf => {
            match arg_of(args, 0) {
                JsValue::Object(o) => gives_value(
                    before,
                    after,
                    r,
                    object::proto_value(before.heap@.objects[o as int].prototype),
                ),
                _ => gives_error(
                    before,
                    after,
                    r,
                    "TypeError: Object.getPrototypeOf called on non-object"@,
                ),
            }
        },
        NativeId::ObjectHasOwn => ends_in(
            before,
            after,
            r,
            object_list::own_test(
                before.heap@,
                arg_of(args, 0),
                arg_of(args, 1),
                "TypeError: Object.hasOwn called on non-object"@,
                false,
            ),
        ),
        NativeId::ObjectHasOwnProperty => ends_in(
            before,
            after,
            r,
            object_list::own_test(
                before.heap@,
                this,
                arg_of(args, 0),
                "TypeError: Object.prototype.hasOwnProperty called on non-object"@,
                false,
            ),
        ),
        NativeId::ObjectIs => gives_value(
            before,
            after,
            r,
            JsValue::Bool(descriptor::same_value_of(arg_of(args, 0), arg_of(args, 1))),
        ),
        NativeId::ObjectIsExtensible => gives_value(
            before,
            after,
            r,
            JsValue::Bool(
                match arg_of(args, 0) {
                    JsValue::Object(o) => before.heap@.objects[o as int].extensible,
                    _ => false,
                },
            ),
        ),
        NativeId::ObjectIsFrozen => gives_value(
            before,
            after,
            r,
            JsValue::Bool(
                match arg_of(args, 0) {
                    JsValue::Object(o) => before.heap@.objects[o as int].integrity
                        == value::Integrity::Frozen,
                    _ => true,
                },
            ),
        ),
        NativeId::ObjectIsSealed => gives_value(
            before,
            after,
            r,
            JsValue::Bool(
                match arg_of(args, 0) {
                    JsValue::Object(o) => before.heap@.objects[o as int].integrity
                        != value::Integrity::Open,
                    _ => true,
                },
            ),
        ),
        NativeId::ObjectKeys => {
            ends_in(before, after, r, object_list::keys_result(before.heap@, arg_of(args, 0)))
        },
        NativeId::ObjectPreventExtensions => ends_in(
            before,
            after,
            r,
            (
                match arg_of(args, 0) {
                    JsValue::Object(o) => object::without_extension(before.heap@, o),
                    _ => before.heap@,
                },
                Ok(arg_of(args, 0)),
            ),
        ),
        NativeId::ObjectProtoPropertyIsEnumerable => ends_in(
            before,
            after,
            r,
            object_list::own_test(
                before.heap@,
                this,
                arg_of(args, 0),
                "TypeError: Object.prototype.propertyIsEnumerable called on non-object"@,
                true,
            ),
        ),
        NativeId::ObjectProtoToString => gives_text(
            before,
            after,
            r,
            if ctx::is_kind(before.heap@, this, Kind::Array) {
                utf16_of("[object Array]"@)
            } else {
                utf16_of("[object Object]"@)
            },
        ),
        NativeId::ObjectProtoValueOf => gives_value(before, after, r, this),
        NativeId::ObjectSeal => ends_in(
            before,
            after,
            r,
            object_define::integrity_result(before.heap@, arg_of(args, 0), false),
        ),
        NativeId::ObjectSetPrototypeOf => {
            ends_in(before, after, r, object::set_prototype_result(before.heap@, args))
        },
        NativeId::ObjectValues => ends_in(
            before,
            after,
            r,
            object_list::values_result(before.heap@, before.global, arg_of(args, 0)),
        ),
        NativeId::ProxyConstruct => ends_in(
            before,
            after,
            r,
            if ctx::is_kind(before.heap@, this, Kind::Function) {
                proxy::created_proxy(before.heap@, args)
            } else {
                (
                    before.heap@,
                    Err(Fault::Text("TypeError: Constructor Proxy requires 'new'"@)),
                )
            },
        ),
        NativeId::ProxyRevocable => ends_in(before, after, r, proxy::revocable(before.heap@, args)),
        _ => false,
    }
}

/// Calls a built-in of objects and proxies; `None` where it is another one.
#[verifier::spinoff_prover]
fn call_object(ctx: &mut Ctx, id: NativeId, this: JsValue, args: &[JsValue]) -> (r: Option<
    Result<JsValue, Throw>,
>)
    requires
        old(ctx).wf(),
        old(ctx).heap@.valid(this),
        valid_args(old(ctx).heap@, args@),
        within_limits(old(ctx).heap@, this, args@),
    ensures
        match r {
            Some(x) => {
                &&& is_object_builtin(id)
                &&& object_ends(id, *old(ctx), *final(ctx), this, args@, x)
            },
            None => !is_object_builtin(id) && *final(ctx) == *old(ctx),
        },
{
    Some(
        match id {
            NativeId::FunctionProtoToString => function_proto_to_string(ctx, this, args),
            NativeId::ObjectAssign => object_assign(ctx, this, args),
            NativeId::ObjectConstruct => object_construct(ctx, this, args),
            NativeId::ObjectCreate => object_create(ctx, this, args),
            NativeId::ObjectDefineProperty => object_define_property(ctx, this, args),
            NativeId::ObjectEntries => object_entries(ctx, this, args),
            NativeId::ObjectEnumerableOwnKeys => object_enumerable_own_keys(ctx, this, args),
            NativeId::ObjectFreeze => object_freeze(ctx, this, args),
            NativeId::ObjectFromEntries => object_from_entries(ctx, this, args),
            NativeId::ObjectGetOwnPropertyDescriptor => {
                object_get_own_property_descriptor(ctx, this, args)
            },
            NativeId::ObjectGetOwnPropertyNames => object_get_own_property_names(ctx, this, args),
            NativeId::ObjectGetOwnPropertySymbols => {
                object_get_own_property_symbols(ctx, this, args)
            },
            NativeId::ObjectGetPrototypeOf => object_get_prototype_of(ctx, this, args),
            NativeId::ObjectHasOwn => object_has_own(ctx, this, args),
            NativeId::ObjectHasOwnProperty => object_has_own_property(ctx, this, args),
            NativeId::ObjectIs => object_is(ctx, this, args),
            NativeId::ObjectIsExtensible => object_is_extensible(ctx, this, args),
            NativeId::ObjectIsFrozen => object_is_frozen(ctx, this, args),
            NativeId::ObjectIsSealed => object_is_sealed(ctx, this, args),
            NativeId::ObjectKeys => object_keys(ctx, this, args),
            NativeId::ObjectPreventExtensions => object_prevent_extensions(ctx, this, args),
            NativeId::ObjectProtoPropertyIsEnumerable => {
                object_proto_property_is_enumerable(ctx, this, args)
            },
            NativeId::ObjectProtoToString => object_proto_to_string(ctx, this, args),
            NativeId::ObjectProtoValueOf => object_proto_value_of(ctx, this, args),
            NativeId::ObjectSeal => object_seal(ctx, this, args),
            NativeId::ObjectSetPrototypeOf => object_set_prototype_of(ctx, this, args),
            NativeId::ObjectValues => object_values(ctx, this, args),
            NativeId::ProxyConstruct => proxy_construct(ctx, this, args),
            NativeId::ProxyRevocable => proxy_revocable(ctx, this, args),
            _ => {
                return None;
            },
        },
    )
}

// ---------------------------------------------------------------------------
// Built-ins of texts, URIs and regular expressions
// ---------------------------------------------------------------------------

/// Whether a built-in is one of texts, URIs and regular expressions.
pub open spec fn is_text_builtin(id: NativeId) -> bool {
    match id {
        NativeId::GlobalDecodeUri | NativeId::GlobalDecodeUriComponent | NativeId::GlobalEncodeUri
        | NativeId::GlobalEncodeUriComponent | NativeId::RegExpConstruct
        | NativeId::RegExpToString | NativeId::StringAt | NativeId::StringCharAt
        | NativeId::StringCharCodeAt | NativeId::StringCodePointAt | NativeId::StringConcat
        | NativeId::StringConstruct | NativeId::StringEndsWith | NativeId::StringFromCharCode
        | NativeId::StringFromCodePoint | NativeId::StringIncludes | NativeId::StringIndexOf
        | NativeId::StringLastIndexOf | NativeId::StringLocaleCompare | NativeId::StringPadEnd
        | NativeId::StringPadStart | NativeId::StringRepeat | NativeId::StringReplaceAll
        | NativeId::StringSlice | NativeId::StringStartsWith | NativeId::StringSubstr
        | NativeId::StringSubstring | NativeId::StringToLowerCase | NativeId::StringToString
        | NativeId::StringToUpperCase | NativeId::StringTrim | NativeId::StringTrimEnd
        | NativeId::StringTrimStart | NativeId::StringValueOf => true,
        _ => false,
    }
}

/// What a built-in of texts, URIs and regular expressions does.
pub open spec fn text_ends(
    id: NativeId,
    before: Ctx,
    after: Ctx,
    this: JsValue,
    args: Seq<JsValue>,
    r: Result<JsValue, Throw>,
) -> bool {
    match id {
        NativeId::GlobalDecodeUri => {
            &&& same_but_heap(before, after)
            &&& heap_ends_in(
                after.heap,
                r,
                global::decode_result(before.heap@, args, "decodeURI"@, false),
            )
        },
        NativeId::GlobalDecodeUriComponent => {
            &&& same_but_heap(before, after)
            &&& heap_ends_in(
                after.heap,
                r,
                global::decode_result(before.heap@, args, "decodeURIComponent"@, true),
            )
        },
        NativeId::GlobalEncodeUri => {
            &&& same_but_heap(before, after)
            &&& heap_ends_in(
                after.heap,
                r,
                global::encode_result(before.heap@, args, "encodeURI"@, true),
            )
        },
        NativeId::GlobalEncodeUriComponent => {
            &&& same_but_heap(before, after)
            &&& heap_ends_in(
                after.heap,
                r,
                global::encode_result(before.heap@, args, "encodeURIComponent"@, false),
            )
        },
        NativeId::RegExpConstruct => {
            &&& same_but_heap(before, after)
            &&& heap_ends_in(after.heap, r, regexp::made_regexp(before.heap@, args, None))
        },
        NativeId::RegExpToString => {
            &&& same_but_heap(before, after)
            &&& heap_ends_in(after.heap, r, regexp::to_string_result(before.heap@, this))
        },
        NativeId::StringAt => {
            &&& same_but_heap(before, after)
            &&& heap_ends_in(after.heap, r, string::at_result(before.heap@, this, args))
        },
        NativeId::StringCharAt => {
            &&& same_but_heap(before, after)
            &&& heap_ends_in(after.heap, r, string::char_at_result(before.heap@, this, args))
        },
        NativeId::StringCharCodeAt => {
            &&& same_but_heap(before, after)
            &&& heap_ends_in(after.heap, r, string::char_code_at_result(before.heap@, this, args))
        },
        NativeId::StringCodePointAt => {
            &&& same_but_heap(before, after)
            &&& heap_ends_in(after.heap, r, string::code_point_at_result(before.heap@, this, args))
        },
        NativeId::StringConcat => {
            &&& same_but_heap(before, after)
            &&& heap_ends_in(after.heap, r, string::concat_result(before.heap@, this, args))
        },
        NativeId::StringConstruct => {
            &&& same_but_heap(before, after)
            &&& heap_ends_in(
                after.heap,
                r,
                string::text_result(before.heap@, string::arg_text_of(before.heap@, args, 0)),
            )
        },
        NativeId::StringEndsWith => {
            &&& same_but_heap(before, after)
            &&& heap_ends_in(after.heap, r, string::ends_with_result(before.heap@, this, args))
        },
        NativeId::StringFromCharCode => {
            &&& same_but_heap(before, after)
            &&& heap_ends_in(
                after.heap,
                r,
                string::text_result(
                    before.heap@,
                    text::well_formed(
                        args.map_values(|v: JsValue| string::as_unit(before.heap@, v)),
                    ),
                ),
            )
        },
        NativeId::StringFromCodePoint => {
            &&& same_but_heap(before, after)
            &&& heap_ends_in(
                after.heap,
                r,
                match string::points_text(before.heap@, args, args.len() as int) {
                    Some(t) => string::text_result(before.heap@, t),
                    None => (before.heap@, Err(Fault::Text("RangeError: Invalid code point"@))),
                },
            )
        },
        NativeId::StringIncludes => {
            &&& same_but_heap(before, after)
            &&& heap_ends_in(after.heap, r, string::includes_result(before.heap@, this, args))
        },
        NativeId::StringIndexOf => {
            &&& same_but_heap(before, after)
            &&& heap_ends_in(after.heap, r, string::index_of_result(before.heap@, this, args))
        },
        NativeId::StringLastIndexOf => {
            &&& same_but_heap(before, after)
            &&& heap_ends_in(after.heap, r, string::last_index_of_result(before.heap@, this, args))
        },
        NativeId::StringLocaleCompare => {
            &&& same_but_heap(before, after)
            &&& heap_ends_in(after.heap, r, string::locale_order_result(before.heap@, this, args))
        },
        NativeId::StringPadEnd => {
            &&& same_but_heap(before, after)
            &&& heap_ends_in(after.heap, r, string::pad_result(before.heap@, this, args, false))
        },
        NativeId::StringPadStart => {
            &&& same_but_heap(before, after)
            &&& heap_ends_in(after.heap, r, string::pad_result(before.heap@, this, args, true))
        },
        NativeId::StringRepeat => {
            &&& same_but_heap(before, after)
            &&& heap_ends_in(after.heap, r, string::repeat_result(before.heap@, this, args))
        },
        NativeId::StringReplaceAll => {
            &&& same_but_heap(before, after)
            &&& heap_ends_in(after.heap, r, string::replace_all_result(before.heap@, this, args))
        },
        NativeId::StringSlice => {
            &&& same_but_heap(before, after)
            &&& heap_ends_in(after.heap, r, string::slice_result(before.heap@, this, args))
        },
        NativeId::StringStartsWith => {
            &&& same_but_heap(before, after)
            &&& heap_ends_in(after.heap, r, string::starts_with_result(before.heap@, this, args))
        },
        NativeId::StringSubstr => {
            &&& same_but_heap(before, after)
            &&& heap_ends_in(after.heap, r, string::substr_result(before.heap@, this, args))
        },
        NativeId::StringSubstring => {
            &&& same_but_heap(before, after)
            &&& heap_ends_in(after.heap, r, string::substring_result(before.heap@, this, args))
        },
        NativeId::StringToLowerCase => {
            &&& same_but_heap(before, after)
            &&& heap_ends_in(
                after.heap,
                r,
                match string::receiver_text(before.heap@, this, "toLowerCase"@) {
                    Err(f) => (before.heap@, Err(f)),
                    Ok(t) => string::text_result(
                        before.heap@,
                        utf16_of(string::lowercase_of(text::chars_of(t))),
                    ),
                },
            )
        },
        NativeId::StringToString => {
            &&& same_but_heap(before, after)
            &&& after.heap == before.heap
            &&& r == Ok::<JsValue, Throw>(this)
        },
        NativeId::StringToUpperCase => {
            &&& same_but_heap(before, after)
            &&& heap_ends_in(
                after.heap,
                r,
                match string::receiver_text(before.heap@, this, "toUpperCase"@) {
                    Err(f) => (before.heap@, Err(f)),
                    Ok(t) => string::text_result(
                        before.heap@,
                        utf16_of(string::uppercase_of(text::chars_of(t))),
                    ),
                },
            )
        },
        NativeId::StringTrim => {
            &&& same_but_heap(before, after)
            &&& heap_ends_in(
                after.heap,
                r,
                string::trim_result(before.heap@, this, "trim"@, true, true),
            )
        },
        NativeId::StringTrimEnd => {
            &&& same_but_heap(before, after)
            &&& heap_ends_in(
                after.heap,
                r,
                string::trim_result(before.heap@, this, "trimEnd"@, false, true),
            )
        },
        NativeId::StringTrimStart => {
            &&& same_but_heap(before, after)
            &&& heap_ends_in(
                after.heap,
                r,
                string::trim_result(before.heap@, this, "trimStart"@, true, false),
            )
        },
        NativeId::StringValueOf => {
            &&& same_but_heap(before, after)
            &&& after.heap == before.heap
            &&& r == Ok::<JsValue, Throw>(this)
        },
        _ => false,
    }
}

/// Calls a built-in of texts, URIs and regular expressions; `None` where it is another one.
#[verifier::spinoff_prover]
fn call_text(ctx: &mut Ctx, id: NativeId, this: JsValue, args: &[JsValue]) -> (r: Option<
    Result<JsValue, Throw>,
>)
    requires
        old(ctx).wf(),
        old(ctx).heap@.valid(this),
        valid_args(old(ctx).heap@, args@),
        within_limits(old(ctx).heap@, this, args@),
    ensures
        match r {
            Some(x) => {
                &&& is_text_builtin(id)
                &&& text_ends(id, *old(ctx), *final(ctx), this, args@, x)
            },
            None => !is_text_builtin(id) && *final(ctx) == *old(ctx),
        },
{
    Some(
        match id {
            NativeId::GlobalDecodeUri => global_decode_uri(&mut ctx.heap, this, args),
            NativeId::GlobalDecodeUriComponent => {
                global_decode_uri_component(&mut ctx.heap, this, args)
            },
            NativeId::GlobalEncodeUri => global_encode_uri(&mut ctx.heap, this, args),
            NativeId::GlobalEncodeUriComponent => {
                global_encode_uri_component(&mut ctx.heap, this, args)
            },
            NativeId::RegExpConstruct => regexp_construct(&mut ctx.heap, this, args),
            NativeId::RegExpToString => regexp_to_string(&mut ctx.heap, this, args),
            NativeId::StringAt => string_at(&mut ctx.heap, this, args),
            NativeId::StringCharAt => string_char_at(&mut ctx.heap, this, args),
            NativeId::StringCharCodeAt => string_char_code_at(&mut ctx.heap, this, args),
            NativeId::StringCodePointAt => string_code_point_at(&mut ctx.heap, this, args),
            NativeId::StringConcat => string_concat(&mut ctx.heap, this, args),
            NativeId::StringConstruct => string_construct(&mut ctx.heap, this, args),
            NativeId::StringEndsWith => string_ends_with(&mut ctx.heap, this, args),
            NativeId::StringFromCharCode => string_from_char_code(&mut ctx.heap, this, args),
            NativeId::StringFromCodePoint => string_from_code_point(&mut ctx.heap, this, args),
            NativeId::StringIncludes => string_includes(&mut ctx.heap, this, args),
            NativeId::StringIndexOf => string_index_of(&mut ctx.heap, this, args),
            NativeId::StringLastIndexOf => string_last_index_of(&mut ctx.heap, this, args),
            NativeId::StringLocaleCompare => string_locale_compare(&mut ctx.heap, this, args),
            NativeId::StringPadEnd => string_pad_end(&mut ctx.heap, this, args),
            NativeId::StringPadStart => string_pad_start(&mut ctx.heap, this, args),
            NativeId::StringRepeat => string_repeat(&mut ctx.heap, this, args),
            NativeId::StringReplaceAll => string_replace_all(&mut ctx.heap, this, args),
            NativeId::StringSlice => string_slice(&mut ctx.heap, this, args),
            NativeId::StringStartsWith => string_starts_with(&mut ctx.heap, this, args),
            NativeId::StringSubstr => string_substr(&mut ctx.heap, this, args),
            NativeId::StringSubstring => string_substring(&mut ctx.heap, this, args),
            NativeId::StringToLowerCase => string_to_lower_case(&mut ctx.heap, this, args),
            NativeId::StringToString => string_to_string(&mut ctx.heap, this, args),
            NativeId::StringToUpperCase => string_to_upper_case(&mut ctx.heap, this, args),
            NativeId::StringTrim => string_trim(&mut ctx.heap, this, args),
            NativeId::StringTrimEnd => string_trim_end(&mut ctx.heap, this, args),
            NativeId::StringTrimStart => string_trim_start(&mut ctx.heap, this, args),
            NativeId::StringValueOf => string_value_of(&mut ctx.heap, this, args),
            _ => {
                return None;
            },
        },
    )
}

// ---------------------------------------------------------------------------
// Built-ins of errors, JSON, promises and symbols
// ---------------------------------------------------------------------------

/// Whether a built-in is one of errors, JSON, promises and symbols.
pub open spec fn is_other_builtin(id: NativeId) -> bool {
    match id {
        NativeId::ErrorCreate | NativeId::EvalErrorCreate | NativeId::JsonParse
        | NativeId::JsonStringify | NativeId::PromiseCatch | NativeId::PromiseConstruct
        | NativeId::PromiseReject | NativeId::PromiseResolve | NativeId::PromiseThen
        | NativeId::QueueMicrotask | NativeId::RangeErrorCreate | NativeId::ReferenceErrorCreate
        | NativeId::SymbolConstruct | NativeId::SymbolFor | NativeId::SymbolKeyFor
        | NativeId::SymbolProtoDescription | NativeId::SymbolProtoToString
        | NativeId::SymbolProtoValueOf | NativeId::SyntaxErrorCreate | NativeId::TypeErrorCreate
        | NativeId::UriErrorCreate | NativeId::SymbolWellKnownAsyncIterator
        | NativeId::SymbolWellKnownHasInstance | NativeId::SymbolWellKnownIsConcatSpreadable
        | NativeId::SymbolWellKnownIterator | NativeId::SymbolWellKnownMatch
        | NativeId::SymbolWellKnownReplace | NativeId::SymbolWellKnownSearch
        | NativeId::SymbolWellKnownSpecies | NativeId::SymbolWellKnownSplit
        | NativeId::SymbolWellKnownToPrimitive | NativeId::SymbolWellKnownToStringTag
        | NativeId::SymbolWellKnownUnscopables | NativeId::ArrayEvery | NativeId::ArrayFilter
        | NativeId::ArrayFind | NativeId::ArrayFindIndex | NativeId::ArrayFindLast
        | NativeId::ArrayFindLastIndex | NativeId::ArrayFlatMap | NativeId::ArrayForEach
        | NativeId::ArrayMap | NativeId::ArrayReduce | NativeId::ArrayReduceRight
        | NativeId::ArraySome | NativeId::IteratorEvery | NativeId::IteratorFilter
        | NativeId::IteratorFind | NativeId::IteratorFlatMap | NativeId::IteratorForEach
        | NativeId::IteratorMap | NativeId::IteratorReduce | NativeId::IteratorSome
        | NativeId::MapForEach | NativeId::SetForEach => true,
        _ => false,
    }
}

/// What a built-in of errors, JSON, promises and symbols does.
pub open spec fn other_ends(
    id: NativeId,
    before: Ctx,
    after: Ctx,
    this: JsValue,
    args: Seq<JsValue>,
    r: Result<JsValue, Throw>,
) -> bool {
    match id {
        NativeId::ErrorCreate => ends_in(
            before,
            after,
            r,
            error_object::created_error(before.heap@, before.global, "Error"@, args),
        ),
        NativeId::EvalErrorCreate => ends_in(
            before,
            after,
            r,
            error_object::created_error(before.heap@, before.global, "EvalError"@, args),
        ),
        NativeId::JsonParse => {
            match json::source_text(before.heap@, args) {
                None => gives_error(
                    before,
                    after,
                    r,
                    "TypeError: Cannot convert a Symbol value to a string"@,
                ),
                Some(s) => match json::parsed_text(
                    before.heap@,
                    json::realm_protos(before.heap@, before.global),
                    s,
                ) {
                    Ok((h, v)) => only_heap(before, after, h) && r == Ok::<JsValue, Throw>(v)
                        && h.valid(v),
                    Err(e) => {
                        &&& r is Err
                        &&& convert::is_error(r->Err_0, "SyntaxError: "@ + e)
                        &&& only_heap(before, after, after.heap@)
                        &&& before.heap@.extends_to(
                            after.heap@,
                            before.heap@.objects.len() as int,
                        )
                    },
                },
            }
        },
        NativeId::JsonStringify => {
            match json::json_value(
                before.heap@,
                arg_of(args, 0),
                json::gap_of(before.heap@, arg_of(args, 2)),
                seq![],
                json::allowed_names(before.heap@, arg_of(args, 1)),
            ) {
                Ok(Some(t)) => gives_text(before, after, r, t),
                Ok(None) => gives_value(before, after, r, JsValue::Undefined),
                Err(json::WriteErr::Cyclic) => gives_error(
                    before,
                    after,
                    r,
                    "TypeError: Converting circular structure to JSON"@,
                ),
                Err(json::WriteErr::BigInt) => gives_error(
                    before,
                    after,
                    r,
                    "TypeError: Do not know how to serialize a BigInt"@,
                ),
            }
        },
        NativeId::PromiseCatch => ends_with_jobs(
            before,
            after,
            r,
            promise::chained(before.heap@, this, JsValue::Undefined, arg_of(args, 0)),
        ),
        NativeId::PromiseConstruct => ends_with_jobs(
            before,
            after,
            r,
            promise::constructed(before.heap@, this, arg_of(args, 0)),
        ),
        NativeId::PromiseReject => {
            ({
                let h = before.heap@;
                ends_with_jobs(
                    before,
                    after,
                    r,
                    (
                        promise::with_promise(
                            h,
                            promise::promise_prototype(h, this),
                            promise::STATE_REJECTED,
                            arg_of(args, 0),
                        ),
                        seq![],
                        Ok(JsValue::Object((h.objects.len() + 1) as usize)),
                    ),
                )
            })
        },
        NativeId::PromiseResolve => ends_with_jobs(
            before,
            after,
            r,
            promise::resolved(before.heap@, this, arg_of(args, 0)),
        ),
        NativeId::PromiseThen => ends_with_jobs(
            before,
            after,
            r,
            promise::chained(before.heap@, this, arg_of(args, 0), arg_of(args, 1)),
        ),
        NativeId::QueueMicrotask => ends_with_jobs(
            before,
            after,
            r,
            match arg_of(args, 0) {
                JsValue::Object(f) => (
                    before.heap@,
                    seq![job_queue::Job::Call(f)],
                    Ok(JsValue::Undefined),
                ),
                _ => (
                    before.heap@,
                    seq![],
                    Err(Fault::Text("TypeError: queueMicrotask requires a function"@)),
                ),
            },
        ),
        NativeId::RangeErrorCreate => ends_in(
            before,
            after,
            r,
            error_object::created_error(before.heap@, before.global, "RangeError"@, args),
        ),
        NativeId::ReferenceErrorCreate => ends_in(
            before,
            after,
            r,
            error_object::created_error(before.heap@, before.global, "ReferenceError"@, args),
        ),
        NativeId::SymbolConstruct => if ctx::is_kind(before.heap@, this, Kind::Function) {
            gives_error(before, after, r, "TypeError: Symbol is not a constructor"@)
        } else {
            ends_in(before, after, r, symbol::fresh_result(before.heap@))
        },
        NativeId::SymbolFor => ends_in(
            before,
            after,
            r,
            symbol::shared_result(before.heap@, convert::text_of(before.heap@, arg_of(args, 0))),
        ),
        NativeId::SymbolKeyFor => {
            match arg_of(args, 0) {
                JsValue::Symbol(s) => match before.heap@.key_of(s) {
                    Some(t) => gives_text(before, after, r, t),
                    None => gives_value(before, after, r, JsValue::Undefined),
                },
                _ => gives_error(
                    before,
                    after,
                    r,
                    "TypeError: Symbol.keyFor requires a symbol"@,
                ),
            }
        },
        NativeId::SymbolProtoDescription => {
            match this {
                JsValue::Symbol(_) => gives_value(before, after, r, JsValue::Undefined),
                _ => gives_error(
                    before,
                    after,
                    r,
                    "TypeError: Symbol.prototype.description requires a Symbol"@,
                ),
            }
        },
        NativeId::SymbolProtoToString => {
            match this {
                JsValue::Symbol(_) => gives_text(before, after, r, utf16_of("Symbol()"@)),
                _ => gives_error(
                    before,
                    after,
                    r,
                    "TypeError: Symbol.prototype.toString requires a Symbol"@,
                ),
            }
        },
        NativeId::SymbolProtoValueOf => {
            match this {
                JsValue::Symbol(_) => gives_value(before, after, r, this),
                _ => gives_error(
                    before,
                    after,
                    r,
                    "TypeError: Symbol.prototype.valueOf requires a Symbol"@,
                ),
            }
        },
        NativeId::SyntaxErrorCreate => ends_in(
            before,
            after,
            r,
            error_object::created_error(before.heap@, before.global, "SyntaxError"@, args),
        ),
        NativeId::TypeErrorCreate => ends_in(
            before,
            after,
            r,
            error_object::created_error(before.heap@, before.global, "TypeError"@, args),
        ),
        NativeId::UriErrorCreate => ends_in(
            before,
            after,
            r,
            error_object::created_error(before.heap@, before.global, "URIError"@, args),
        ),
        NativeId::SymbolWellKnownAsyncIterator | NativeId::SymbolWellKnownHasInstance
        | NativeId::SymbolWellKnownIsConcatSpreadable | NativeId::SymbolWellKnownIterator
        | NativeId::SymbolWellKnownMatch | NativeId::SymbolWellKnownReplace
        | NativeId::SymbolWellKnownSearch | NativeId::SymbolWellKnownSpecies
        | NativeId::SymbolWellKnownSplit | NativeId::SymbolWellKnownToPrimitive
        | NativeId::SymbolWellKnownToStringTag | NativeId::SymbolWellKnownUnscopables => {
            ends_in(before, after, r, symbol::fresh_result(before.heap@))
        },
        NativeId::ArrayEvery | NativeId::ArrayFilter | NativeId::ArrayFind
        | NativeId::ArrayFindIndex | NativeId::ArrayFindLast | NativeId::ArrayFindLastIndex
        | NativeId::ArrayFlatMap | NativeId::ArrayForEach | NativeId::ArrayMap
        | NativeId::ArrayReduce | NativeId::ArrayReduceRight | NativeId::ArraySome
        | NativeId::IteratorEvery | NativeId::IteratorFilter | NativeId::IteratorFind
        | NativeId::IteratorFlatMap | NativeId::IteratorForEach | NativeId::IteratorMap
        | NativeId::IteratorReduce | NativeId::IteratorSome | NativeId::MapForEach
        | NativeId::SetForEach => gives_error(
            before,
            after,
            r,
            "TypeError: built-in method must be invoked through the interpreter"@,
        ),
        _ => false,
    }
}

/// Calls a built-in of errors, JSON, promises and symbols; `None` where it is another one.
#[verifier::spinoff_prover]
fn call_other(ctx: &mut Ctx, id: NativeId, this: JsValue, args: &[JsValue]) -> (r: Option<
    Result<JsValue, Throw>,
>)
    requires
        old(ctx).wf(),
        old(ctx).heap@.valid(this),
        valid_args(old(ctx).heap@, args@),
        within_limits(old(ctx).heap@, this, args@),
    ensures
        match r {
            Some(x) => {
                &&& is_other_builtin(id)
                &&& other_ends(id, *old(ctx), *final(ctx), this, args@, x)
            },
            None => !is_other_builtin(id) && *final(ctx) == *old(ctx),
        },
{
    Some(
        match id {
            NativeId::ErrorCreate => error_create(ctx, this, args),
            NativeId::EvalErrorCreate => eval_error_create(ctx, this, args),
            NativeId::JsonParse => json_parse(ctx, this, args),
            NativeId::JsonStringify => json_stringify(ctx, this, args),
            NativeId::PromiseCatch => promise_catch(ctx, this, args),
            NativeId::PromiseConstruct => promise_construct(ctx, this, args),
            NativeId::PromiseReject => promise_reject(ctx, this, args),
            NativeId::PromiseResolve => promise_resolve(ctx, this, args),
            NativeId::PromiseThen => promise_then(ctx, this, args),
            NativeId::QueueMicrotask => queue_microtask(ctx, this, args),
            NativeId::RangeErrorCreate => range_error_create(ctx, this, args),
            NativeId::ReferenceErrorCreate => reference_error_create(ctx, this, args),
            NativeId::SymbolConstruct => symbol_construct(ctx, this, args),
            NativeId::SymbolFor => symbol_for(ctx, this, args),
            NativeId::SymbolKeyFor => symbol_key_for(ctx, this, args),
            NativeId::SymbolProtoDescription => symbol_proto_description(ctx, this, args),
            NativeId::SymbolProtoToString => symbol_proto_to_string(ctx, this, args),
            NativeId::SymbolProtoValueOf => symbol_proto_value_of(ctx, this, args),
            NativeId::SyntaxErrorCreate => syntax_error_create(ctx, this, args),
            NativeId::TypeErrorCreate => type_error_create(ctx, this, args),
            NativeId::UriErrorCreate => uri_error_create(ctx, this, args),
            NativeId::SymbolWellKnownAsyncIterator | NativeId::SymbolWellKnownHasInstance
            | NativeId::SymbolWellKnownIsConcatSpreadable | NativeId::SymbolWellKnownIterator
            | NativeId::SymbolWellKnownMatch | NativeId::SymbolWellKnownReplace
            | NativeId::SymbolWellKnownSearch | NativeId::SymbolWellKnownSpecies
            | NativeId::SymbolWellKnownSplit | NativeId::SymbolWellKnownToPrimitive
            | NativeId::SymbolWellKnownToStringTag | NativeId::SymbolWellKnownUnscopables => {
                symbol_well_known(ctx, this, args)
            },
            NativeId::ArrayEvery | NativeId::ArrayFilter | NativeId::ArrayFind
            | NativeId::ArrayFindIndex | NativeId::ArrayFindLast | NativeId::ArrayFindLastIndex
            | NativeId::ArrayFlatMap | NativeId::ArrayForEach | NativeId::ArrayMap
            | NativeId::ArrayReduce | NativeId::ArrayReduceRight | NativeId::ArraySome
            | NativeId::IteratorEvery | NativeId::IteratorFilter | NativeId::IteratorFind
            | NativeId::IteratorFlatMap | NativeId::IteratorForEach | NativeId::IteratorMap
            | NativeId::IteratorReduce | NativeId::IteratorSome | NativeId::MapForEach
            | NativeId::SetForEach => callback_stub(ctx, this, args),
            _ => {
                return None;
            },
        },
    )
}

// ---------------------------------------------------------------------------
// All built-ins
// ---------------------------------------------------------------------------

/// Whether a built-in needs nothing but the context: no matcher, module loader, clock,
/// state of random numbers or floating-point function.
pub open spec fn is_builtin(id: NativeId) -> bool {
    ||| is_array_builtin(id)
    ||| is_collection_builtin(id)
    ||| is_number_builtin(id)
    ||| is_math_builtin(id)
    ||| is_object_builtin(id)
    ||| is_text_builtin(id)
    ||| is_other_builtin(id)
}

/// What a built-in does.
pub open spec fn builtin_ends(
    id: NativeId,
    before: Ctx,
    after: Ctx,
    this: JsValue,
    args: Seq<JsValue>,
    r: Result<JsValue, Throw>,
) -> bool {
    if is_array_builtin(id) {
        array_ends(id, before, after, this, args, r)
    } else if is_collection_builtin(id) {
        collection_ends(id, before, after, this, args, r)
    } else if is_number_builtin(id) {
        number_ends(id, before, after, this, args, r)
    } else if is_math_builtin(id) {
        math_ends(id, before, after, this, args, r)
    } else if is_object_builtin(id) {
        object_ends(id, before, after, this, args, r)
    } else if is_text_builtin(id) {
        text_ends(id, before, after, this, args, r)
    } else {
        other_ends(id, before, after, this, args, r)
    }
}

/// Calls a built-in that needs nothing but the context; `None` where it is another one.
#[verifier::spinoff_prover]
pub fn call_builtin(ctx: &mut Ctx, id: NativeId, this: JsValue, args: &[JsValue]) -> (r: Option<
    Result<JsValue, Throw>,
>)
    requires
        old(ctx).wf(),
        old(ctx).heap@.valid(this),
        valid_args(old(ctx).heap@, args@),
        within_limits(old(ctx).heap@, this, args@),
    ensures
        match r {
            Some(x) => is_builtin(id) && builtin_ends(id, *old(ctx), *final(ctx), this, args@, x),
            None => !is_builtin(id) && *final(ctx) == *old(ctx),
        },
{
    match call_array(ctx, id, this, args) {
        Some(r) => {
            return Some(r);
        },
        None => {},
    }
    match call_collection(ctx, id, this, args) {
        Some(r) => {
            return Some(r);
        },
        None => {},
    }
    match call_number(ctx, id, this, args) {
        Some(r) => {
            return Some(r);
        },
        None => {},
    }
    match call_math(ctx, id, this, args) {
        Some(r) => {
            return Some(r);
        },
        None => {},
    }
    match call_object(ctx, id, this, args) {
        Some(r) => {
            return Some(r);
        },
        None => {},
    }
    match call_text(ctx, id, this, args) {
        Some(r) => {
            return Some(r);
        },
        None => {},
    }
    match call_other(ctx, id, this, args) {
        Some(r) => {
            return Some(r);
        },
        None => {},
    }
    None
}

} // verus!

//! Date built-ins.
//!
//! A date object keeps its time value in its only internal slot, as a number of
//! milliseconds since the epoch or not-a-number. Local time is UTC.
use vstd::prelude::*;

use crate::calendar::{
    MAX_TIME_VALUE, date_from_time, date_of, day, day_of, hour_from_time, hour_of, is_time,
    min_from_time, minute_of, month_from_time, month_of, ms_from_time, ms_of, sec_from_time,
    second_of, time_within_day, week_day, weekday_of, within_day, year_from_time, year_of,
};
use crate::convert::{as_number, error, js_number, number_of, number_value, text_of, value_number};
use crate::ctx::{Ctx, arg, arg_of, gives_error, gives_text, gives_value, only_heap, valid_args};
use crate::date_arith::{
    clip, full_year, made_date, made_day, made_time, make_date, make_day, make_time,
    normalize_year, time_clip,
};
use crate::date_fallback::{date_value, parse_date};
use crate::date_text::{
    date_part, date_string, date_time_text, format_date_time, iso_text, iso_units, time_part,
    time_string, utc_string, utc_text,
};
use crate::double::{
    NAN, from_i64, int_double, integral, is_integral, is_nan, nan, to_i64, trunc_int,
};
use crate::heap::{HeapModel, JsObject, ObjModel, plain_object};
use crate::native::NativeId;
use crate::text::{same_units, utf16, utf16_of, well_formed};
use crate::value::{FunctionTarget, JsValue, Kind, Throw};

verus! {

/// The time value that a slot holds, `None` where it is not-a-number.
pub open spec fn time_int(v: JsValue) -> Option<i64> {
    match as_number(v) {
        Some(b) => if is_integral(b) && is_time(trunc_int(b)) {
            Some(trunc_int(b) as i64)
        } else {
            None
        },
        None => None,
    }
}

/// The time value of a date object, `None` where the value is no date.
pub open spec fn date_time(h: HeapModel, v: JsValue) -> Option<Option<i64>> {
    match v {
        JsValue::Object(o) => if h.objects[o as int].kind == Kind::Date {
            Some(time_int(h.objects[o as int].inner[0]))
        } else {
            None
        },
        _ => None,
    }
}

/// A time value as a number.
pub open spec fn time_double(t: Option<i64>) -> u64 {
    match t {
        Some(n) => int_double(n as int),
        None => NAN,
    }
}

/// A time value as a number.
fn time_bits(t: Option<i64>) -> (r: u64)
    ensures
        r == time_double(t),
{
    match t {
        Some(n) => from_i64(n),
        None => NAN,
    }
}

/// Text of the error on a receiver that is no date.
pub open spec fn not_a_date() -> Seq<char> {
    "TypeError: this is not a Date object"@
}

/// The time value of a date object, `None` where the value is no date.
pub fn this_time_value(ctx: &Ctx, this: JsValue) -> (r: Option<Option<i64>>)
    requires
        ctx.wf(),
        ctx.heap@.valid(this),
    ensures
        r == date_time(ctx.heap@, this),
        r matches Some(Some(t)) ==> is_time(t as int),
{
    match this {
        JsValue::Object(o) => {
            let obj: &JsObject = ctx.heap.object(o);
            if obj.kind != Kind::Date {
                return None;
            }
            match value_number(obj.inner.get(0)) {
                None => Some(None),
                Some(b) => {
                    if integral(b) {
                        let t: i64 = to_i64(b);
                        if -MAX_TIME_VALUE <= t && t <= MAX_TIME_VALUE {
                            return Some(Some(t));
                        }
                    }
                    Some(None)
                },
            }
        },
        _ => None,
    }
}

/// A date object with a time value.
pub open spec fn date_object(t: u64, proto: Option<usize>) -> ObjModel {
    ObjModel { inner: seq![number_value(t)], prototype: proto, ..plain_object(Kind::Date) }
}

/// Allocates a date object with a time value.
fn alloc_date(ctx: &mut Ctx, t: u64, proto: Option<usize>) -> (r: usize)
    requires
        old(ctx).wf(),
        old(ctx).heap@.valid_object(proto),
    ensures
        only_heap(*old(ctx), *final(ctx), old(ctx).heap@.with_new(date_object(t, proto))),
        r == old(ctx).heap@.objects.len(),
{
    let mut obj: JsObject = JsObject::plain(Kind::Date);
    let v: JsValue = js_number(t);
    obj.inner.push(v);
    obj.prototype = proto;
    proof {
        assert(obj@.inner =~= seq![v]);
        assert(obj@ == date_object(t, proto));
    }
    ctx.alloc_obj(obj)
}

/// Whether a function is called by `new`: the receiver is the constructor itself.
pub open spec fn is_constructor_call(h: HeapModel, this: JsValue, id: NativeId) -> bool {
    this matches JsValue::Object(o) && h.objects[o as int].kind == Kind::Function
        && h.objects[o as int].callable == FunctionTarget::Native(id)
}

/// Whether the receiver is the `Date` constructor.
fn is_date_construct(ctx: &Ctx, this: JsValue) -> (r: bool)
    requires
        ctx.wf(),
        ctx.heap@.valid(this),
    ensures
        r == is_constructor_call(ctx.heap@, this, NativeId::DateConstruct),
{
    match this {
        JsValue::Object(o) => {
            let obj: &JsObject = ctx.heap.object(o);
            obj.kind == Kind::Function && obj.callable == FunctionTarget::Native(
                NativeId::DateConstruct,
            )
        },
        _ => false,
    }
}

/// The argument at `i` as a number, `default` where it is missing.
pub open spec fn number_arg(h: HeapModel, args: Seq<JsValue>, i: int, default: u64) -> u64 {
    if 0 <= i < args.len() {
        number_of(h, args[i])
    } else {
        default
    }
}

/// The argument at `i` as a number, `default` where it is missing.
pub fn number_argument(ctx: &Ctx, args: &[JsValue], i: usize, default: u64) -> (r: u64)
    requires
        valid_args(ctx.heap@, args@),
    ensures
        r == number_arg(ctx.heap@, args@, i as int, default),
{
    if i < args.len() {
        ctx.to_number(args[i])
    } else {
        default
    }
}

/// The time value of year, month, day and clock time given as arguments.
pub open spec fn time_of_args(h: HeapModel, args: Seq<JsValue>) -> u64 {
    clip(
        made_date(
            made_day(
                full_year(number_arg(h, args, 0, NAN)),
                number_arg(h, args, 1, int_double(0)),
                number_arg(h, args, 2, int_double(1)),
            ),
            made_time(
                number_arg(h, args, 3, int_double(0)),
                number_arg(h, args, 4, int_double(0)),
                number_arg(h, args, 5, int_double(0)),
                number_arg(h, args, 6, int_double(0)),
            ),
        ),
    )
}

/// The time value of year, month, day and clock time given as arguments.
fn make_date_from_args(ctx: &Ctx, args: &[JsValue]) -> (r: u64)
    requires
        valid_args(ctx.heap@, args@),
    ensures
        r == time_of_args(ctx.heap@, args@),
{
    let zero: u64 = from_i64(0);
    let year: u64 = normalize_year(number_argument(ctx, args, 0, NAN));
    let month: u64 = number_argument(ctx, args, 1, zero);
    let date: u64 = number_argument(ctx, args, 2, from_i64(1));
    let hour: u64 = number_argument(ctx, args, 3, zero);
    let min: u64 = number_argument(ctx, args, 4, zero);
    let sec: u64 = number_argument(ctx, args, 5, zero);
    let ms: u64 = number_argument(ctx, args, 6, zero);
    time_clip(make_date(make_day(year, month, date), make_time(hour, min, sec, ms)))
}

/// The time value of `new Date(args)`: now without arguments; with one the time of a
/// date, the reading of a text, or any other value as a number; with more the parts
/// of a date.
pub open spec fn constructed_time(h: HeapModel, args: Seq<JsValue>, now: i64) -> u64 {
    if args.len() == 0 {
        int_double(now as int)
    } else if args.len() == 1 {
        match date_time(h, args[0]) {
            Some(t) => time_double(t),
            None => match args[0] {
                JsValue::Text(n) => date_value(well_formed(h.texts[n as int])),
                v => clip(number_of(h, v)),
            },
        }
    } else {
        time_of_args(h, args)
    }
}

/// The prototype that a constructor's instances get.
pub open spec fn instance_prototype(h: HeapModel, this: JsValue) -> Option<usize> {
    match this {
        JsValue::Object(o) => h.objects[o as int].prototype,
        _ => None,
    }
}

/// `Date(...)` and `new Date(...)`, at the time `now`: called as a function the text of
/// the current time, called with `new` a date object.
pub fn date_construct(ctx: &mut Ctx, this: JsValue, args: &[JsValue], now: i64) -> (r: Result<
    JsValue,
    Throw,
>)
    requires
        old(ctx).wf(),
        old(ctx).heap@.valid(this),
        valid_args(old(ctx).heap@, args@),
        is_time(now as int),
    ensures
        !is_constructor_call(old(ctx).heap@, this, NativeId::DateConstruct) ==> gives_text(
            *old(ctx),
            *final(ctx),
            r,
            date_time_text(now as int),
        ),
        is_constructor_call(old(ctx).heap@, this, NativeId::DateConstruct) ==> {
            let h = old(ctx).heap@;
            &&& only_heap(
                *old(ctx),
                *final(ctx),
                h.with_new(
                    date_object(constructed_time(h, args@, now), instance_prototype(h, this)),
                ),
            )
            &&& r == Ok::<JsValue, Throw>(JsValue::Object(h.objects.len() as usize))
        },
{
    if !is_date_construct(ctx, this) {
        let text: Vec<u16> = format_date_time(Some(now));
        return ctx.text_value(text.as_slice());
    }
    let proto: Option<usize> = match this {
        JsValue::Object(o) => ctx.heap.object(o).prototype,
        _ => None,
    };
    let t: u64 = if args.len() == 0 {
        from_i64(now)
    } else if args.len() == 1 {
        proof {
            assert(ctx.heap@.valid(args@[0]));
        }
        match this_time_value(ctx, args[0]) {
            Some(t) => time_bits(t),
            None => match args[0] {
                JsValue::Text(n) => parse_date(ctx.string_text(n).as_slice()),
                v => time_clip(ctx.to_number(v)),
            },
        }
    } else {
        make_date_from_args(ctx, args)
    };
    let o: usize = alloc_date(ctx, t, proto);
    Ok(JsValue::Object(o))
}

/// `Date.now()`, at the time `now`.
pub fn date_now(ctx: &mut Ctx, this: JsValue, args: &[JsValue], now: i64) -> (r: Result<
    JsValue,
    Throw,
>)
    ensures
        gives_value(*old(ctx), *final(ctx), r, number_value(int_double(now as int))),
{
    Ok(js_number(from_i64(now)))
}

/// `Date.UTC(year, month, date, hours, minutes, seconds, ms)`.
pub fn date_utc(ctx: &mut Ctx, this: JsValue, args: &[JsValue]) -> (r: Result<JsValue, Throw>)
    requires
        valid_args(old(ctx).heap@, args@),
    ensures
        gives_value(*old(ctx), *final(ctx), r, number_value(time_of_args(old(ctx).heap@, args@))),
{
    Ok(js_number(make_date_from_args(ctx, args)))
}

/// `Date.parse(string)`.
pub fn date_parse(ctx: &mut Ctx, this: JsValue, args: &[JsValue]) -> (r: Result<JsValue, Throw>)
    requires
        old(ctx).wf(),
        valid_args(old(ctx).heap@, args@),
    ensures
        gives_value(
            *old(ctx),
            *final(ctx),
            r,
            number_value(date_value(text_of(old(ctx).heap@, arg_of(args@, 0)))),
        ),
{
    let v: JsValue = arg(args, 0);
    Ok(js_number(parse_date(ctx.to_string(v).as_slice())))
}

/// `Date.prototype.valueOf` and `getTime`: the receiver's time value.
pub fn date_proto_value_of(ctx: &mut Ctx, this: JsValue, args: &[JsValue]) -> (r: Result<
    JsValue,
    Throw,
>)
    requires
        old(ctx).wf(),
        old(ctx).heap@.valid(this),
    ensures
        match date_time(old(ctx).heap@, this) {
            None => gives_error(*old(ctx), *final(ctx), r, not_a_date()),
            Some(t) => gives_value(*old(ctx), *final(ctx), r, number_value(time_double(t))),
        },
{
    match this_time_value(ctx, this) {
        None => Err(error("TypeError: this is not a Date object")),
        Some(t) => Ok(js_number(time_bits(t))),
    }
}

/// `Date.prototype.getTimezoneOffset()`: zero, or not-a-number of an invalid date.
pub fn date_proto_get_timezone_offset(ctx: &mut Ctx, this: JsValue, args: &[JsValue]) -> (r: Result<
    JsValue,
    Throw,
>)
    requires
        old(ctx).wf(),
        old(ctx).heap@.valid(this),
    ensures
        match date_time(old(ctx).heap@, this) {
            None => gives_error(*old(ctx), *final(ctx), r, not_a_date()),
            Some(None) => gives_value(*old(ctx), *final(ctx), r, JsValue::Double(NAN)),
            Some(Some(_)) => gives_value(*old(ctx), *final(ctx), r, JsValue::Smi(0)),
        },
{
    match this_time_value(ctx, this) {
        None => Err(error("TypeError: this is not a Date object")),
        Some(None) => Ok(JsValue::Double(NAN)),
        Some(Some(_)) => Ok(JsValue::Smi(0)),
    }
}

/// A part of a date.
#[derive(Clone, Copy, PartialEq, Eq, Structural, Debug)]
pub enum Part {
    /// The year.
    FullYear,
    /// The 0-based month.
    Month,
    /// The day of the month.
    Date,
    /// The day of the week.
    Day,
    /// The hour.
    Hours,
    /// The minute.
    Minutes,
    /// The second.
    Seconds,
    /// The millisecond.
    Milliseconds,
    /// The year since 1900.
    Year,
}

/// A part of the date of a time value.
pub open spec fn part_of(part: Part, t: int) -> int {
    match part {
        Part::FullYear => year_of(t),
        Part::Month => month_of(t),
        Part::Date => date_of(t),
        Part::Day => weekday_of(t),
        Part::Hours => hour_of(t),
        Part::Minutes => minute_of(t),
        Part::Seconds => second_of(t),
        Part::Milliseconds => ms_of(t),
        Part::Year => year_of(t) - 1900,
    }
}

/// What reading a part of a date gives.
pub open spec fn reads_part(
    before: Ctx,
    after: Ctx,
    this: JsValue,
    part: Part,
    r: Result<JsValue, Throw>,
) -> bool {
    match date_time(before.heap@, this) {
        None => gives_error(before, after, r, not_a_date()),
        Some(None) => gives_value(before, after, r, JsValue::Double(NAN)),
        Some(Some(t)) => gives_value(before, after, r, JsValue::Smi(part_of(part, t as int) as i32)),
    }
}

/// Reads a part of the receiver's date.
fn get_component(ctx: &mut Ctx, this: JsValue, part: Part) -> (r: Result<JsValue, Throw>)
    requires
        old(ctx).wf(),
        old(ctx).heap@.valid(this),
    ensures
        reads_part(*old(ctx), *final(ctx), this, part, r),
{
    match this_time_value(ctx, this) {
        None => Err(error("TypeError: this is not a Date object")),
        Some(None) => Ok(JsValue::Double(NAN)),
        Some(Some(t)) => {
            let n: i64 = match part {
                Part::FullYear => year_from_time(t),
                Part::Month => month_from_time(t),
                Part::Date => date_from_time(t),
                Part::Day => week_day(t),
                Part::Hours => hour_from_time(t),
                Part::Minutes => min_from_time(t),
                Part::Seconds => sec_from_time(t),
                Part::Milliseconds => ms_from_time(t),
                Part::Year => year_from_time(t) - 1900,
            };
            Ok(JsValue::Smi(n as i32))
        },
    }
}

/// `Date.prototype.getFullYear()`.
pub fn date_proto_get_full_year(ctx: &mut Ctx, this: JsValue, args: &[JsValue]) -> (r: Result<JsValue, Throw>)
    requires
        old(ctx).wf(),
        old(ctx).heap@.valid(this),
    ensures
        reads_part(*old(ctx), *final(ctx), this, Part::FullYear, r),
{
    get_component(ctx, this, Part::FullYear)
}

/// `Date.prototype.getMonth()`.
pub fn date_proto_get_month(ctx: &mut Ctx, this: JsValue, args: &[JsValue]) -> (r: Result<JsValue, Throw>)
    requires
        old(ctx).wf(),
        old(ctx).heap@.valid(this),
    ensures
        reads_part(*old(ctx), *final(ctx), this, Part::Month, r),
{
    get_component(ctx, this, Part::Month)
}

/// `Date.prototype.getDate()`.
pub fn date_proto_get_date(ctx: &mut Ctx, this: JsValue, args: &[JsValue]) -> (r: Result<JsValue, Throw>)
    requires
        old(ctx).wf(),
        old(ctx).heap@.valid(this),
    ensures
        reads_part(*old(ctx), *final(ctx), this, Part::Date, r),
{
    get_component(ctx, this, Part::Date)
}

/// `Date.prototype.getDay()`.
pub fn date_proto_get_day(ctx: &mut Ctx, this: JsValue, args: &[JsValue]) -> (r: Result<JsValue, Throw>)
    requires
        old(ctx).wf(),
        old(ctx).heap@.valid(this),
    ensures
        reads_part(*old(ctx), *final(ctx), this, Part::Day, r),
        date_time(old(ctx).heap@, this) matches Some(Some(t)) ==> r == Ok::<JsValue, Throw>(
            JsValue::Smi(((t as int / 86_400_000 + 4) % 7) as i32),
        ),
{
    get_component(ctx, this, Part::Day)
}

/// `Date.prototype.getHours()`.
pub fn date_proto_get_hours(ctx: &mut Ctx, this: JsValue, args: &[JsValue]) -> (r: Result<JsValue, Throw>)
    requires
        old(ctx).wf(),
        old(ctx).heap@.valid(this),
    ensures
        reads_part(*old(ctx), *final(ctx), this, Part::Hours, r),
        date_time(old(ctx).heap@, this) matches Some(Some(t)) ==> r == Ok::<JsValue, Throw>(
            JsValue::Smi((t as int / 3_600_000 % 24) as i32),
        ),
{
    get_component(ctx, this, Part::Hours)
}

/// `Date.prototype.getMinutes()`.
pub fn date_proto_get_minutes(ctx: &mut Ctx, this: JsValue, args: &[JsValue]) -> (r: Result<JsValue, Throw>)
    requires
        old(ctx).wf(),
        old(ctx).heap@.valid(this),
    ensures
        reads_part(*old(ctx), *final(ctx), this, Part::Minutes, r),
        date_time(old(ctx).heap@, this) matches Some(Some(t)) ==> r == Ok::<JsValue, Throw>(
            JsValue::Smi((t as int / 60_000 % 60) as i32),
        ),
{
    get_component(ctx, this, Part::Minutes)
}

/// `Date.prototype.getSeconds()`.
pub fn date_proto_get_seconds(ctx: &mut Ctx, this: JsValue, args: &[JsValue]) -> (r: Result<JsValue, Throw>)
    requires
        old(ctx).wf(),
        old(ctx).heap@.valid(this),
    ensures
        reads_part(*old(ctx), *final(ctx), this, Part::Seconds, r),
        date_time(old(ctx).heap@, this) matches Some(Some(t)) ==> r == Ok::<JsValue, Throw>(
            JsValue::Smi((t as int / 1000 % 60) as i32),
        ),
{
    get_component(ctx, this, Part::Seconds)
}

/// `Date.prototype.getMilliseconds()`.
pub fn date_proto_get_milliseconds(ctx: &mut Ctx, this: JsValue, args: &[JsValue]) -> (r: Result<JsValue, Throw>)
    requires
        old(ctx).wf(),
        old(ctx).heap@.valid(this),
    ensures
        reads_part(*old(ctx), *final(ctx), this, Part::Milliseconds, r),
        date_time(old(ctx).heap@, this) matches Some(Some(t)) ==> r == Ok::<JsValue, Throw>(
            JsValue::Smi((t as int % 1000) as i32),
        ),
{
    get_component(ctx, this, Part::Milliseconds)
}

/// `Date.prototype.getYear()`.
pub fn date_proto_get_year(ctx: &mut Ctx, this: JsValue, args: &[JsValue]) -> (r: Result<JsValue, Throw>)
    requires
        old(ctx).wf(),
        old(ctx).heap@.valid(this),
    ensures
        reads_part(*old(ctx), *final(ctx), this, Part::Year, r),
{
    get_component(ctx, this, Part::Year)
}

/// `Date.prototype.getUTCFullYear()`.
pub fn date_proto_get_utc_full_year(ctx: &mut Ctx, this: JsValue, args: &[JsValue]) -> (r: Result<JsValue, Throw>)
    requires
        old(ctx).wf(),
        old(ctx).heap@.valid(this),
    ensures
        reads_part(*old(ctx), *final(ctx), this, Part::FullYear, r),
{
    get_component(ctx, this, Part::FullYear)
}

/// `Date.prototype.getUTCMonth()`.
pub fn date_proto_get_utc_month(ctx: &mut Ctx, this: JsValue, args: &[JsValue]) -> (r: Result<JsValue, Throw>)
    requires
        old(ctx).wf(),
        old(ctx).heap@.valid(this),
    ensures
        reads_part(*old(ctx), *final(ctx), this, Part::Month, r),
{
    get_component(ctx, this, Part::Month)
}

/// `Date.prototype.getUTCDate()`.
pub fn date_proto_get_utc_date(ctx: &mut Ctx, this: JsValue, args: &[JsValue]) -> (r: Result<JsValue, Throw>)
    requires
        old(ctx).wf(),
        old(ctx).heap@.valid(this),
    ensures
        reads_part(*old(ctx), *final(ctx), this, Part::Date, r),
{
    get_component(ctx, this, Part::Date)
}

/// `Date.prototype.getUTCDay()`.
pub fn date_proto_get_utc_day(ctx: &mut Ctx, this: JsValue, args: &[JsValue]) -> (r: Result<JsValue, Throw>)
    requires
        old(ctx).wf(),
        old(ctx).heap@.valid(this),
    ensures
        reads_part(*old(ctx), *final(ctx), this, Part::Day, r),
        date_time(old(ctx).heap@, this) matches Some(Some(t)) ==> r == Ok::<JsValue, Throw>(
            JsValue::Smi(((t as int / 86_400_000 + 4) % 7) as i32),
        ),
{
    get_component(ctx, this, Part::Day)
}

/// `Date.prototype.getUTCHours()`.
pub fn date_proto_get_utc_hours(ctx: &mut Ctx, this: JsValue, args: &[JsValue]) -> (r: Result<JsValue, Throw>)
    requires
        old(ctx).wf(),
        old(ctx).heap@.valid(this),
    ensures
        reads_part(*old(ctx), *final(ctx), this, Part::Hours, r),
        date_time(old(ctx).heap@, this) matches Some(Some(t)) ==> r == Ok::<JsValue, Throw>(
            JsValue::Smi((t as int / 3_600_000 % 24) as i32),
        ),
{
    get_component(ctx, this, Part::Hours)
}

/// `Date.prototype.getUTCMinutes()`.
pub fn date_proto_get_utc_minutes(ctx: &mut Ctx, this: JsValue, args: &[JsValue]) -> (r: Result<JsValue, Throw>)
    requires
        old(ctx).wf(),
        old(ctx).heap@.valid(this),
    ensures
        reads_part(*old(ctx), *final(ctx), this, Part::Minutes, r),
        date_time(old(ctx).heap@, this) matches Some(Some(t)) ==> r == Ok::<JsValue, Throw>(
            JsValue::Smi((t as int / 60_000 % 60) as i32),
        ),
{
    get_component(ctx, this, Part::Minutes)
}

/// `Date.prototype.getUTCSeconds()`.
pub fn date_proto_get_utc_seconds(ctx: &mut Ctx, this: JsValue, args: &[JsValue]) -> (r: Result<JsValue, Throw>)
    requires
        old(ctx).wf(),
        old(ctx).heap@.valid(this),
    ensures
        reads_part(*old(ctx), *final(ctx), this, Part::Seconds, r),
        date_time(old(ctx).heap@, this) matches Some(Some(t)) ==> r == Ok::<JsValue, Throw>(
            JsValue::Smi((t as int / 1000 % 60) as i32),
        ),
{
    get_component(ctx, this, Part::Seconds)
}

/// `Date.prototype.getUTCMilliseconds()`.
pub fn date_proto_get_utc_milliseconds(ctx: &mut Ctx, this: JsValue, args: &[JsValue]) -> (r: Result<JsValue, Throw>)
    requires
        old(ctx).wf(),
        old(ctx).heap@.valid(this),
    ensures
        reads_part(*old(ctx), *final(ctx), this, Part::Milliseconds, r),
        date_time(old(ctx).heap@, this) matches Some(Some(t)) ==> r == Ok::<JsValue, Throw>(
            JsValue::Smi((t as int % 1000) as i32),
        ),
{
    get_component(ctx, this, Part::Milliseconds)
}

/// Whether a setter stored a time value in the receiver and returned it, or failed on a
/// receiver that is no date.
pub open spec fn stores_time(
    before: Ctx,
    after: Ctx,
    this: JsValue,
    r: Result<JsValue, Throw>,
    t: u64,
) -> bool {
    match date_time(before.heap@, this) {
        None => gives_error(before, after, r, not_a_date()),
        Some(_) => {
            let o = this->Object_0;
            let m = before.heap@.objects[o as int];
            &&& only_heap(
                before,
                after,
                before.heap@.with_object(
                    o,
                    ObjModel { inner: m.inner.update(0, number_value(t)), ..m },
                ),
            )
            &&& r == Ok::<JsValue, Throw>(number_value(t))
        },
    }
}

/// Stores a time value in a date object and returns it.
fn set_time_value(ctx: &mut Ctx, this: JsValue, t: u64) -> (r: Result<JsValue, Throw>)
    requires
        old(ctx).wf(),
        old(ctx).heap@.valid(this),
        date_time(old(ctx).heap@, this) is Some,
    ensures
        stores_time(*old(ctx), *final(ctx), this, r, t),
{
    let v: JsValue = js_number(t);
    match this {
        JsValue::Object(o) => {
            let ghost h = ctx.heap@;
            let ghost m = h.objects[o as int];
            let obj = ctx.heap.object_mut(o);
            obj.inner.set(0, v);
            proof {
                let inner = m.inner.update(0, v);
                assert forall|i: int| 0 <= i < inner.len() implies h.valid(#[trigger] inner[i]) by {
                    assert(h.valid(m.inner[i]));
                }
                assert(h.valid_refs(ObjModel { inner, ..m }));
            }
        },
        _ => {},
    }
    Ok(v)
}

/// The time value that `setTime` stores.
pub open spec fn with_time(h: HeapModel, args: Seq<JsValue>) -> u64 {
    clip(number_arg(h, args, 0, NAN))
}

/// `Date.prototype.setTime(time)`.
pub fn date_proto_set_time(ctx: &mut Ctx, this: JsValue, args: &[JsValue]) -> (r: Result<
    JsValue,
    Throw,
>)
    requires
        old(ctx).wf(),
        old(ctx).heap@.valid(this),
        valid_args(old(ctx).heap@, args@),
    ensures
        stores_time(
            *old(ctx),
            *final(ctx),
            this,
            r,
            with_time(old(ctx).heap@, args@),
        ),
{
    if this_time_value(ctx, this).is_none() {
        return Err(error("TypeError: this is not a Date object"));
    }
    let t: u64 = time_clip(number_argument(ctx, args, 0, NAN));
    set_time_value(ctx, this, t)
}

/// The time value that `setFullYear` stores: an invalid date counts as the epoch, and a
/// missing month or day is the receiver's.
pub open spec fn with_full_year(h: HeapModel, args: Seq<JsValue>, stored: Option<i64>) -> u64 {
    let t: int = match stored {
        Some(n) => n as int,
        None => 0,
    };
    let year = number_arg(h, args, 0, NAN);
    if is_nan(year) {
        NAN
    } else {
        clip(
            made_date(
                made_day(
                    year,
                    number_arg(h, args, 1, int_double(month_of(t))),
                    number_arg(h, args, 2, int_double(date_of(t))),
                ),
                int_double(within_day(t)),
            ),
        )
    }
}

/// `Date.prototype.setFullYear(year[, month[, date]])`.
pub fn date_proto_set_full_year(ctx: &mut Ctx, this: JsValue, args: &[JsValue]) -> (r: Result<
    JsValue,
    Throw,
>)
    requires
        old(ctx).wf(),
        old(ctx).heap@.valid(this),
        valid_args(old(ctx).heap@, args@),
    ensures
        stores_time(
            *old(ctx),
            *final(ctx),
            this,
            r,
            with_full_year(
                old(ctx).heap@,
                args@,
                match date_time(old(ctx).heap@, this) {
                    Some(t) => t,
                    None => None,
                },
            ),
        ),
{
    let t: i64 = match this_time_value(ctx, this) {
        None => {
            return Err(error("TypeError: this is not a Date object"));
        },
        Some(None) => 0,
        Some(Some(t)) => t,
    };
    let year: u64 = number_argument(ctx, args, 0, NAN);
    let month: u64 = number_argument(ctx, args, 1, from_i64(month_from_time(t)));
    let date: u64 = number_argument(ctx, args, 2, from_i64(date_from_time(t)));
    if nan(year) {
        return set_time_value(ctx, this, NAN);
    }
    let d: u64 = make_date(make_day(year, month, date), from_i64(time_within_day(t)));
    set_time_value(ctx, this, time_clip(d))
}

/// `Date.prototype.setUTCFullYear`.
pub fn date_proto_set_utc_full_year(ctx: &mut Ctx, this: JsValue, args: &[JsValue]) -> (r: Result<
    JsValue,
    Throw,
>)
    requires
        old(ctx).wf(),
        old(ctx).heap@.valid(this),
        valid_args(old(ctx).heap@, args@),
    ensures
        stores_time(
            *old(ctx),
            *final(ctx),
            this,
            r,
            with_full_year(
                old(ctx).heap@,
                args@,
                match date_time(old(ctx).heap@, this) {
                    Some(t) => t,
                    None => None,
                },
            ),
        ),
{
    date_proto_set_full_year(ctx, this, args)
}

/// Field number `i` of a clock time (hours, minutes, seconds, milliseconds) with the
/// fields from `first` on replaced by arguments.
pub open spec fn clock_field(h: HeapModel, args: Seq<JsValue>, first: int, i: int, own: int) -> u64 {
    if i < first {
        int_double(own)
    } else {
        number_arg(h, args, i - first, int_double(own))
    }
}

/// The time value that a setter of clock fields stores: an invalid date stays one.
pub open spec fn with_clock(h: HeapModel, args: Seq<JsValue>, first: int, stored: Option<i64>) -> u64 {
    match stored {
        None => NAN,
        Some(n) => {
            let t = n as int;
            clip(
                made_date(
                    int_double(day_of(t)),
                    made_time(
                        clock_field(h, args, first, 0, hour_of(t)),
                        clock_field(h, args, first, 1, minute_of(t)),
                        clock_field(h, args, first, 2, second_of(t)),
                        clock_field(h, args, first, 3, ms_of(t)),
                    ),
                ),
            )
        },
    }
}

/// Field number `i` of a clock time.
fn clock_argument(ctx: &Ctx, args: &[JsValue], first: usize, i: usize, own: i64) -> (r: u64)
    requires
        valid_args(ctx.heap@, args@),
    ensures
        r == clock_field(ctx.heap@, args@, first as int, i as int, own as int),
{
    if i < first {
        from_i64(own)
    } else {
        number_argument(ctx, args, i - first, from_i64(own))
    }
}

/// Replaces the clock fields from `first` on.
fn set_time_fields(ctx: &mut Ctx, this: JsValue, args: &[JsValue], first: usize) -> (r: Result<
    JsValue,
    Throw,
>)
    requires
        old(ctx).wf(),
        old(ctx).heap@.valid(this),
        valid_args(old(ctx).heap@, args@),
    ensures
        stores_time(
            *old(ctx),
            *final(ctx),
            this,
            r,
            with_clock(
                old(ctx).heap@,
                args@,
                first as int,
                match date_time(old(ctx).heap@, this) {
                    Some(t) => t,
                    None => None,
                },
            ),
        ),
{
    let t: i64 = match this_time_value(ctx, this) {
        None => {
            return Err(error("TypeError: this is not a Date object"));
        },
        Some(None) => {
            return set_time_value(ctx, this, NAN);
        },
        Some(Some(t)) => t,
    };
    let h: u64 = clock_argument(ctx, args, first, 0, hour_from_time(t));
    let m: u64 = clock_argument(ctx, args, first, 1, min_from_time(t));
    let s: u64 = clock_argument(ctx, args, first, 2, sec_from_time(t));
    let ms: u64 = clock_argument(ctx, args, first, 3, ms_from_time(t));
    let d: u64 = make_date(from_i64(day(t)), make_time(h, m, s, ms));
    set_time_value(ctx, this, time_clip(d))
}

/// The time value that `setHours` stores.
pub open spec fn with_hours(h: HeapModel, args: Seq<JsValue>, stored: Option<i64>) -> u64 {
    with_clock(h, args, 0, stored)
}

/// The time value that `setMinutes` stores.
pub open spec fn with_minutes(h: HeapModel, args: Seq<JsValue>, stored: Option<i64>) -> u64 {
    with_clock(h, args, 1, stored)
}

/// The time value that `setSeconds` stores.
pub open spec fn with_seconds(h: HeapModel, args: Seq<JsValue>, stored: Option<i64>) -> u64 {
    with_clock(h, args, 2, stored)
}

/// The time value that `setMilliseconds` stores.
pub open spec fn with_milliseconds(h: HeapModel, args: Seq<JsValue>, stored: Option<i64>) -> u64 {
    with_clock(h, args, 3, stored)
}

/// `Date.prototype.setHours`.
pub fn date_proto_set_hours(ctx: &mut Ctx, this: JsValue, args: &[JsValue]) -> (r: Result<
    JsValue,
    Throw,
>)
    requires
        old(ctx).wf(),
        old(ctx).heap@.valid(this),
        valid_args(old(ctx).heap@, args@),
    ensures
        stores_time(
            *old(ctx),
            *final(ctx),
            this,
            r,
            with_hours(
                old(ctx).heap@,
                args@,
                match date_time(old(ctx).heap@, this) {
                    Some(t) => t,
                    None => None,
                },
            ),
        ),
{
    set_time_fields(ctx, this, args, 0)
}

/// `Date.prototype.setUTCHours`.
pub fn date_proto_set_utc_hours(ctx: &mut Ctx, this: JsValue, args: &[JsValue]) -> (r: Result<
    JsValue,
    Throw,
>)
    requires
        old(ctx).wf(),
        old(ctx).heap@.valid(this),
        valid_args(old(ctx).heap@, args@),
    ensures
        stores_time(
            *old(ctx),
            *final(ctx),
            this,
            r,
            with_hours(
                old(ctx).heap@,
                args@,
                match date_time(old(ctx).heap@, this) {
                    Some(t) => t,
                    None => None,
                },
            ),
        ),
{
    set_time_fields(ctx, this, args, 0)
}

/// `Date.prototype.setMinutes`.
pub fn date_proto_set_minutes(ctx: &mut Ctx, this: JsValue, args: &[JsValue]) -> (r: Result<
    JsValue,
    Throw,
>)
    requires
        old(ctx).wf(),
        old(ctx).heap@.valid(this),
        valid_args(old(ctx).heap@, args@),
    ensures
        stores_time(
            *old(ctx),
            *final(ctx),
            this,
            r,
            with_minutes(
                old(ctx).heap@,
                args@,
                match date_time(old(ctx).heap@, this) {
                    Some(t) => t,
                    None => None,
                },
            ),
        ),
{
    set_time_fields(ctx, this, args, 1)
}

/// `Date.prototype.setUTCMinutes`.
pub fn date_proto_set_utc_minutes(ctx: &mut Ctx, this: JsValue, args: &[JsValue]) -> (r: Result<
    JsValue,
    Throw,
>)
    requires
        old(ctx).wf(),
        old(ctx).heap@.valid(this),
        valid_args(old(ctx).heap@, args@),
    ensures
        stores_time(
            *old(ctx),
            *final(ctx),
            this,
            r,
            with_minutes(
                old(ctx).heap@,
                args@,
                match date_time(old(ctx).heap@, this) {
                    Some(t) => t,
                    None => None,
                },
            ),
        ),
{
    set_time_fields(ctx, this, args, 1)
}

/// `Date.prototype.setSeconds`.
pub fn date_proto_set_seconds(ctx: &mut Ctx, this: JsValue, args: &[JsValue]) -> (r: Result<
    JsValue,
    Throw,
>)
    requires
        old(ctx).wf(),
        old(ctx).heap@.valid(this),
        valid_args(old(ctx).heap@, args@),
    ensures
        stores_time(
            *old(ctx),
            *final(ctx),
            this,
            r,
            with_seconds(
                old(ctx).heap@,
                args@,
                match date_time(old(ctx).heap@, this) {
                    Some(t) => t,
                    None => None,
                },
            ),
        ),
{
    set_time_fields(ctx, this, args, 2)
}

/// `Date.prototype.setUTCSeconds`.
pub fn date_proto_set_utc_seconds(ctx: &mut Ctx, this: JsValue, args: &[JsValue]) -> (r: Result<
    JsValue,
    Throw,
>)
    requires
        old(ctx).wf(),
        old(ctx).heap@.valid(this),
        valid_args(old(ctx).heap@, args@),
    ensures
        stores_time(
            *old(ctx),
            *final(ctx),
            this,
            r,
            with_seconds(
                old(ctx).heap@,
                args@,
                match date_time(old(ctx).heap@, this) {
                    Some(t) => t,
                    None => None,
                },
            ),
        ),
{
    set_time_fields(ctx, this, args, 2)
}

/// `Date.prototype.setMilliseconds`.
pub fn date_proto_set_milliseconds(ctx: &mut Ctx, this: JsValue, args: &[JsValue]) -> (r: Result<
    JsValue,
    Throw,
>)
    requires
        old(ctx).wf(),
        old(ctx).heap@.valid(this),
        valid_args(old(ctx).heap@, args@),
    ensures
        stores_time(
            *old(ctx),
            *final(ctx),
            this,
            r,
            with_milliseconds(
                old(ctx).heap@,
                args@,
                match date_time(old(ctx).heap@, this) {
                    Some(t) => t,
                    None => None,
                },
            ),
        ),
{
    set_time_fields(ctx, this, args, 3)
}

/// `Date.prototype.setUTCMilliseconds`.
pub fn date_proto_set_utc_milliseconds(ctx: &mut Ctx, this: JsValue, args: &[JsValue]) -> (r: Result<
    JsValue,
    Throw,
>)
    requires
        old(ctx).wf(),
        old(ctx).heap@.valid(this),
        valid_args(old(ctx).heap@, args@),
    ensures
        stores_time(
            *old(ctx),
            *final(ctx),
            this,
            r,
            with_milliseconds(
                old(ctx).heap@,
                args@,
                match date_time(old(ctx).heap@, this) {
                    Some(t) => t,
                    None => None,
                },
            ),
        ),
{
    set_time_fields(ctx, this, args, 3)
}

/// The time value that `setMonth` stores: an invalid date stays one.
pub open spec fn with_month(h: HeapModel, args: Seq<JsValue>, stored: Option<i64>) -> u64 {
    match stored {
        None => NAN,
        Some(n) => {
            let t = n as int;
            clip(
                made_date(
                    made_day(
                        int_double(year_of(t)),
                        number_arg(h, args, 0, NAN),
                        number_arg(h, args, 1, int_double(date_of(t))),
                    ),
                    int_double(within_day(t)),
                ),
            )
        },
    }
}

/// The time value that `setDate` stores: an invalid date stays one.
pub open spec fn with_date(h: HeapModel, args: Seq<JsValue>, stored: Option<i64>) -> u64 {
    match stored {
        None => NAN,
        Some(n) => {
            let t = n as int;
            clip(
                made_date(
                    made_day(
                        int_double(year_of(t)),
                        int_double(month_of(t)),
                        number_arg(h, args, 0, NAN),
                    ),
                    int_double(within_day(t)),
                ),
            )
        },
    }
}

/// The time value that `setYear` stores: an invalid date counts as the epoch.
pub open spec fn with_year(h: HeapModel, args: Seq<JsValue>, stored: Option<i64>) -> u64 {
    let t: int = match stored {
        Some(n) => n as int,
        None => 0,
    };
    let y = number_arg(h, args, 0, NAN);
    if is_nan(y) {
        NAN
    } else {
        clip(
            made_date(
                made_day(full_year(y), int_double(month_of(t)), int_double(date_of(t))),
                int_double(within_day(t)),
            ),
        )
    }
}

/// `Date.prototype.setMonth(month[, date])`.
pub fn date_proto_set_month(ctx: &mut Ctx, this: JsValue, args: &[JsValue]) -> (r: Result<
    JsValue,
    Throw,
>)
    requires
        old(ctx).wf(),
        old(ctx).heap@.valid(this),
        valid_args(old(ctx).heap@, args@),
    ensures
        stores_time(
            *old(ctx),
            *final(ctx),
            this,
            r,
            with_month(
                old(ctx).heap@,
                args@,
                match date_time(old(ctx).heap@, this) {
                    Some(t) => t,
                    None => None,
                },
            ),
        ),
{
    let t: i64 = match this_time_value(ctx, this) {
        None => {
            return Err(error("TypeError: this is not a Date object"));
        },
        Some(None) => {
            return set_time_value(ctx, this, NAN);
        },
        Some(Some(t)) => t,
    };
    let month: u64 = number_argument(ctx, args, 0, NAN);
    let date: u64 = number_argument(ctx, args, 1, from_i64(date_from_time(t)));
    let d: u64 = make_date(
        make_day(from_i64(year_from_time(t)), month, date),
        from_i64(time_within_day(t)),
    );
    set_time_value(ctx, this, time_clip(d))
}

/// `Date.prototype.setUTCMonth`.
pub fn date_proto_set_utc_month(ctx: &mut Ctx, this: JsValue, args: &[JsValue]) -> (r: Result<
    JsValue,
    Throw,
>)
    requires
        old(ctx).wf(),
        old(ctx).heap@.valid(this),
        valid_args(old(ctx).heap@, args@),
    ensures
        stores_time(
            *old(ctx),
            *final(ctx),
            this,
            r,
            with_month(
                old(ctx).heap@,
                args@,
                match date_time(old(ctx).heap@, this) {
                    Some(t) => t,
                    None => None,
                },
            ),
        ),
{
    date_proto_set_month(ctx, this, args)
}

/// `Date.prototype.setDate(date)`.
pub fn date_proto_set_date(ctx: &mut Ctx, this: JsValue, args: &[JsValue]) -> (r: Result<
    JsValue,
    Throw,
>)
    requires
        old(ctx).wf(),
        old(ctx).heap@.valid(this),
        valid_args(old(ctx).heap@, args@),
    ensures
        stores_time(
            *old(ctx),
            *final(ctx),
            this,
            r,
            with_date(
                old(ctx).heap@,
                args@,
                match date_time(old(ctx).heap@, this) {
                    Some(t) => t,
                    None => None,
                },
            ),
        ),
{
    let t: i64 = match this_time_value(ctx, this) {
        None => {
            return Err(error("TypeError: this is not a Date object"));
        },
        Some(None) => {
            return set_time_value(ctx, this, NAN);
        },
        Some(Some(t)) => t,
    };
    let date: u64 = number_argument(ctx, args, 0, NAN);
    let d: u64 = make_date(
        make_day(from_i64(year_from_time(t)), from_i64(month_from_time(t)), date),
        from_i64(time_within_day(t)),
    );
    set_time_value(ctx, this, time_clip(d))
}

/// `Date.prototype.setUTCDate`.
pub fn date_proto_set_utc_date(ctx: &mut Ctx, this: JsValue, args: &[JsValue]) -> (r: Result<
    JsValue,
    Throw,
>)
    requires
        old(ctx).wf(),
        old(ctx).heap@.valid(this),
        valid_args(old(ctx).heap@, args@),
    ensures
        stores_time(
            *old(ctx),
            *final(ctx),
            this,
            r,
            with_date(
                old(ctx).heap@,
                args@,
                match date_time(old(ctx).heap@, this) {
                    Some(t) => t,
                    None => None,
                },
            ),
        ),
{
    date_proto_set_date(ctx, this, args)
}

/// `Date.prototype.setYear(year)`.
pub fn date_proto_set_year(ctx: &mut Ctx, this: JsValue, args: &[JsValue]) -> (r: Result<
    JsValue,
    Throw,
>)
    requires
        old(ctx).wf(),
        old(ctx).heap@.valid(this),
        valid_args(old(ctx).heap@, args@),
    ensures
        stores_time(
            *old(ctx),
            *final(ctx),
            this,
            r,
            with_year(
                old(ctx).heap@,
                args@,
                match date_time(old(ctx).heap@, this) {
                    Some(t) => t,
                    None => None,
                },
            ),
        ),
{
    let t: i64 = match this_time_value(ctx, this) {
        None => {
            return Err(error("TypeError: this is not a Date object"));
        },
        Some(None) => 0,
        Some(Some(t)) => t,
    };
    let y: u64 = number_argument(ctx, args, 0, NAN);
    if nan(y) {
        return set_time_value(ctx, this, NAN);
    }
    let d: u64 = make_date(
        make_day(normalize_year(y), from_i64(month_from_time(t)), from_i64(date_from_time(t))),
        from_i64(time_within_day(t)),
    );
    set_time_value(ctx, this, time_clip(d))
}

/// The ISO text of a time value, `None` without one.
pub fn to_iso_string(t: Option<i64>) -> (r: Option<Vec<u16>>)
    requires
        t matches Some(n) ==> is_time(n as int),
    ensures
        match t {
            Some(n) => r is Some && r.unwrap()@ == iso_text(n as int),
            None => r is None,
        },
{
    match t {
        None => None,
        Some(n) => Some(iso_units(n)),
    }
}

/// `Date.prototype.toISOString`: a `RangeError` of an invalid date.
pub fn date_proto_to_iso_string(ctx: &mut Ctx, this: JsValue, args: &[JsValue]) -> (r: Result<
    JsValue,
    Throw,
>)
    requires
        old(ctx).wf(),
        old(ctx).heap@.valid(this),
    ensures
        match date_time(old(ctx).heap@, this) {
            None => gives_error(*old(ctx), *final(ctx), r, not_a_date()),
            Some(None) => gives_error(
                *old(ctx),
                *final(ctx),
                r,
                "RangeError: Invalid time value"@,
            ),
            Some(Some(t)) => gives_text(*old(ctx), *final(ctx), r, iso_text(t as int)),
        },
{
    match this_time_value(ctx, this) {
        None => Err(error("TypeError: this is not a Date object")),
        Some(t) => match to_iso_string(t) {
            None => Err(error("RangeError: Invalid time value")),
            Some(text) => ctx.text_value(text.as_slice()),
        },
    }
}

/// What a method that writes a date gives: `Invalid Date` of an invalid date.
pub open spec fn writes_date(
    before: Ctx,
    after: Ctx,
    this: JsValue,
    r: Result<JsValue, Throw>,
    form: spec_fn(int) -> Seq<u16>,
) -> bool {
    match date_time(before.heap@, this) {
        None => gives_error(before, after, r, not_a_date()),
        Some(None) => gives_text(before, after, r, utf16_of("Invalid Date"@)),
        Some(Some(t)) => gives_text(before, after, r, form(t as int)),
    }
}

/// `Date.prototype.toString`.
pub fn date_proto_to_string(ctx: &mut Ctx, this: JsValue, args: &[JsValue]) -> (r: Result<JsValue, Throw>)
    requires
        old(ctx).wf(),
        old(ctx).heap@.valid(this),
    ensures
        writes_date(*old(ctx), *final(ctx), this, r, |t: int| date_time_text(t)),
{
    match this_time_value(ctx, this) {
        None => Err(error("TypeError: this is not a Date object")),
        Some(None) => ctx.str_value("Invalid Date"),
        Some(Some(t)) => {
            let text: Vec<u16> = format_date_time(Some(t));
            ctx.text_value(text.as_slice())
        },
    }
}

/// `Date.prototype.toDateString`.
pub fn date_proto_to_date_string(ctx: &mut Ctx, this: JsValue, args: &[JsValue]) -> (r: Result<JsValue, Throw>)
    requires
        old(ctx).wf(),
        old(ctx).heap@.valid(this),
    ensures
        writes_date(*old(ctx), *final(ctx), this, r, |t: int| date_part(t)),
{
    match this_time_value(ctx, this) {
        None => Err(error("TypeError: this is not a Date object")),
        Some(None) => ctx.str_value("Invalid Date"),
        Some(Some(t)) => {
            let text: Vec<u16> = date_string(t);
            ctx.text_value(text.as_slice())
        },
    }
}

/// `Date.prototype.toTimeString`.
pub fn date_proto_to_time_string(ctx: &mut Ctx, this: JsValue, args: &[JsValue]) -> (r: Result<JsValue, Throw>)
    requires
        old(ctx).wf(),
        old(ctx).heap@.valid(this),
    ensures
        writes_date(*old(ctx), *final(ctx), this, r, |t: int| time_part(t)),
{
    match this_time_value(ctx, this) {
        None => Err(error("TypeError: this is not a Date object")),
        Some(None) => ctx.str_value("Invalid Date"),
        Some(Some(t)) => {
            let text: Vec<u16> = time_string(t);
            ctx.text_value(text.as_slice())
        },
    }
}

/// `Date.prototype.toUTCString`.
pub fn date_proto_to_utc_string(ctx: &mut Ctx, this: JsValue, args: &[JsValue]) -> (r: Result<JsValue, Throw>)
    requires
        old(ctx).wf(),
        old(ctx).heap@.valid(this),
    ensures
        writes_date(*old(ctx), *final(ctx), this, r, |t: int| utc_text(t)),
{
    match this_time_value(ctx, this) {
        None => Err(error("TypeError: this is not a Date object")),
        Some(None) => ctx.str_value("Invalid Date"),
        Some(Some(t)) => {
            let text: Vec<u16> = utc_string(t);
            ctx.text_value(text.as_slice())
        },
    }
}

/// `Date.prototype.toLocaleString`.
pub fn date_proto_to_locale_string(ctx: &mut Ctx, this: JsValue, args: &[JsValue]) -> (r: Result<JsValue, Throw>)
    requires
        old(ctx).wf(),
        old(ctx).heap@.valid(this),
    ensures
        writes_date(*old(ctx), *final(ctx), this, r, |t: int| date_time_text(t)),
{
    date_proto_to_string(ctx, this, args)
}

/// `Date.prototype.toLocaleDateString`.
pub fn date_proto_to_locale_date_string(ctx: &mut Ctx, this: JsValue, args: &[JsValue]) -> (r: Result<JsValue, Throw>)
    requires
        old(ctx).wf(),
        old(ctx).heap@.valid(this),
    ensures
        writes_date(*old(ctx), *final(ctx), this, r, |t: int| date_part(t)),
{
    date_proto_to_date_string(ctx, this, args)
}

/// `Date.prototype.toLocaleTimeString`.
pub fn date_proto_to_locale_time_string(ctx: &mut Ctx, this: JsValue, args: &[JsValue]) -> (r: Result<JsValue, Throw>)
    requires
        old(ctx).wf(),
        old(ctx).heap@.valid(this),
    ensures
        writes_date(*old(ctx), *final(ctx), this, r, |t: int| time_part(t)),
{
    date_proto_to_time_string(ctx, this, args)
}

/// `Date.prototype.toJSON(key)`: the ISO text of a valid date, `null` of anything else.
pub fn date_proto_to_json(ctx: &mut Ctx, this: JsValue, args: &[JsValue]) -> (r: Result<
    JsValue,
    Throw,
>)
    requires
        old(ctx).wf(),
        old(ctx).heap@.valid(this),
    ensures
        this == JsValue::Undefined || this == JsValue::Null ==> gives_error(
            *old(ctx),
            *final(ctx),
            r,
            "TypeError: value is not object-coercible"@,
        ),
        this != JsValue::Undefined && this != JsValue::Null ==> match date_time(
            old(ctx).heap@,
            this,
        ) {
            Some(Some(t)) => gives_text(*old(ctx), *final(ctx), r, iso_text(t as int)),
            _ => gives_value(*old(ctx), *final(ctx), r, JsValue::Null),
        },
{
    if this == JsValue::Undefined || this == JsValue::Null {
        return Err(error("TypeError: value is not object-coercible"));
    }
    match this_time_value(ctx, this) {
        Some(Some(t)) => {
            let text: Vec<u16> = iso_units(t);
            ctx.text_value(text.as_slice())
        },
        _ => Ok(JsValue::Null),
    }
}

/// What the hint of `Symbol.toPrimitive` asks for: a text, a number, or neither.
pub open spec fn hint_asks_text(h: HeapModel, hint: JsValue) -> Option<bool> {
    match hint {
        JsValue::Text(n) => {
            let t = well_formed(h.texts[n as int]);
            if t == utf16_of("string"@) || t == utf16_of("default"@) {
                Some(true)
            } else if t == utf16_of("number"@) {
                Some(false)
            } else {
                None
            }
        },
        _ => None,
    }
}

/// What the hint of `Symbol.toPrimitive` asks for.
fn read_hint(ctx: &Ctx, hint: JsValue) -> (r: Option<bool>)
    requires
        ctx.heap@.valid(hint),
    ensures
        r == hint_asks_text(ctx.heap@, hint),
{
    match hint {
        JsValue::Text(n) => {
            let t: Vec<u16> = ctx.string_text(n);
            if same_units(t.as_slice(), utf16("string").as_slice()) || same_units(
                t.as_slice(),
                utf16("default").as_slice(),
            ) {
                Some(true)
            } else if same_units(t.as_slice(), utf16("number").as_slice()) {
                Some(false)
            } else {
                None
            }
        },
        _ => None,
    }
}

/// `Date.prototype[Symbol.toPrimitive](hint)`.
pub fn date_proto_to_primitive(ctx: &mut Ctx, this: JsValue, args: &[JsValue]) -> (r: Result<
    JsValue,
    Throw,
>)
    requires
        old(ctx).wf(),
        old(ctx).heap@.valid(this),
        valid_args(old(ctx).heap@, args@),
    ensures
        !(this is Object) ==> gives_error(
            *old(ctx),
            *final(ctx),
            r,
            "TypeError: Date.prototype[Symbol.toPrimitive] called on non-object"@,
        ),
        this is Object ==> match hint_asks_text(old(ctx).heap@, arg_of(args@, 0)) {
            None => gives_error(
                *old(ctx),
                *final(ctx),
                r,
                "TypeError: Date.prototype[Symbol.toPrimitive] called with an invalid hint"@,
            ),
            Some(text) => match date_time(old(ctx).heap@, this) {
                None => gives_error(
                    *old(ctx),
                    *final(ctx),
                    r,
                    "TypeError: Cannot convert object to primitive value"@,
                ),
                Some(t) => if text {
                    gives_text(
                        *old(ctx),
                        *final(ctx),
                        r,
                        match t {
                            Some(n) => date_time_text(n as int),
                            None => utf16_of("Invalid Date"@),
                        },
                    )
                } else {
                    gives_value(*old(ctx), *final(ctx), r, number_value(time_double(t)))
                },
            },
        },
{
    match this {
        JsValue::Object(_) => {},
        _ => {
            return Err(error("TypeError: Date.prototype[Symbol.toPrimitive] called on non-object"));
        },
    }
    let hint: JsValue = arg(args, 0);
    let text: bool = match read_hint(ctx, hint) {
        None => {
            return Err(
                error("TypeError: Date.prototype[Symbol.toPrimitive] called with an invalid hint"),
            );
        },
        Some(b) => b,
    };
    match this_time_value(ctx, this) {
        None => Err(error("TypeError: Cannot convert object to primitive value")),
        Some(t) => {
            if text {
                let units: Vec<u16> = format_date_time(t);
                ctx.text_value(units.as_slice())
            } else {
                Ok(js_number(time_bits(t)))
            }
        },
    }
}

} // verus!

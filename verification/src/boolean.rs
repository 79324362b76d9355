//! `Boolean`.
use vstd::prelude::*;

use crate::convert::{error, to_boolean, truthy};
use crate::ctx::{Ctx, arg, arg_of, gives_error, gives_text, gives_value, valid_args};
use crate::text::utf16_of;
use crate::value::{JsValue, Throw};

verus! {

/// `Boolean(value)`.
pub fn boolean_construct(ctx: &mut Ctx, _this: JsValue, args: &[JsValue]) -> (r: Result<
    JsValue,
    Throw,
>)
    requires
        old(ctx).wf(),
        valid_args(old(ctx).heap@, args@),
    ensures
        gives_value(
            *old(ctx),
            *final(ctx),
            r,
            JsValue::Bool(truthy(old(ctx).heap@, arg_of(args@, 0))),
        ),
{
    Ok(JsValue::Bool(to_boolean(&ctx.heap, arg(args, 0))))
}

/// `Boolean.prototype.toString()`.
pub fn boolean_proto_to_string(ctx: &mut Ctx, this: JsValue, _args: &[JsValue]) -> (r: Result<
    JsValue,
    Throw,
>)
    requires
        old(ctx).wf(),
    ensures
        match this {
            JsValue::Bool(true) => gives_text(*old(ctx), *final(ctx), r, utf16_of("true"@)),
            JsValue::Bool(false) => gives_text(*old(ctx), *final(ctx), r, utf16_of("false"@)),
            _ => gives_error(
                *old(ctx),
                *final(ctx),
                r,
                "TypeError: Boolean.prototype.toString requires that 'this' be a Boolean"@,
            ),
        },
{
    match this {
        JsValue::Bool(x) => if x {
            ctx.str_value("true")
        } else {
            ctx.str_value("false")
        },
        _ => Err(error("TypeError: Boolean.prototype.toString requires that 'this' be a Boolean")),
    }
}

/// `Boolean.prototype.valueOf()`.
pub fn boolean_proto_value_of(ctx: &mut Ctx, this: JsValue, _args: &[JsValue]) -> (r: Result<
    JsValue,
    Throw,
>)
    ensures
        match this {
            JsValue::Bool(_) => gives_value(*old(ctx), *final(ctx), r, this),
            _ => gives_error(
                *old(ctx),
                *final(ctx),
                r,
                "TypeError: Boolean.prototype.valueOf requires that 'this' be a Boolean"@,
            ),
        },
{
    match this {
        JsValue::Bool(_) => Ok(this),
        _ => Err(error("TypeError: Boolean.prototype.valueOf requires that 'this' be a Boolean")),
    }
}

} // verus!

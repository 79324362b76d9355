//! `Symbol`.
use vstd::prelude::*;

use crate::convert::{error, text_of};
use crate::ctx::{Ctx, arg, arg_of, gives_error, gives_text, gives_value, is_kind, valid_args};
use crate::descriptor::Fault;
use crate::heap::{HeapModel, first_under};
use crate::object_define::ends_in;
use crate::text::utf16_of;
use crate::value::{JsValue, Kind, Throw};

verus! {

/// A new symbol, with the heap that holds it.
pub open spec fn fresh_result(h: HeapModel) -> (HeapModel, Result<JsValue, Fault>) {
    (HeapModel { symbols: h.symbols + 1, ..h }, Ok(JsValue::Symbol(h.symbols as usize)))
}

/// Makes a symbol.
fn fresh_symbol(ctx: &mut Ctx) -> (r: JsValue)
    requires
        old(ctx).wf(),
        old(ctx).heap@.symbols < usize::MAX,
    ensures
        ends_in(*old(ctx), *final(ctx), Ok(r), fresh_result(old(ctx).heap@)),
{
    JsValue::Symbol(ctx.heap.new_symbol())
}

/// `Symbol()`: a new symbol; as a constructor, which gets a function as its receiver, an
/// error.
pub fn symbol_construct(ctx: &mut Ctx, this: JsValue, _args: &[JsValue]) -> (r: Result<
    JsValue,
    Throw,
>)
    requires
        old(ctx).wf(),
        old(ctx).heap@.valid(this),
        old(ctx).heap@.symbols < usize::MAX,
    ensures
        if is_kind(old(ctx).heap@, this, Kind::Function) {
            gives_error(*old(ctx), *final(ctx), r, "TypeError: Symbol is not a constructor"@)
        } else {
            ends_in(*old(ctx), *final(ctx), r, fresh_result(old(ctx).heap@))
        },
{
    let constructing: bool = match this {
        JsValue::Object(o) => ctx.heap.object(o).kind == Kind::Function,
        _ => false,
    };
    if constructing {
        return Err(error("TypeError: Symbol is not a constructor"));
    }
    Ok(fresh_symbol(ctx))
}

/// What `Symbol.for` does: one symbol for each text.
pub open spec fn shared_result(h: HeapModel, key: Seq<u16>) -> (HeapModel, Result<JsValue, Fault>) {
    match h.symbol_of(key) {
        Some(s) => (h, Ok(JsValue::Symbol(s))),
        None => (
            HeapModel {
                symbols: h.symbols + 1,
                registry: h.registry.push((key, h.symbols as usize)),
                ..h
            },
            Ok(JsValue::Symbol(h.symbols as usize)),
        ),
    }
}

/// `Symbol.for(key)`.
pub fn symbol_for(ctx: &mut Ctx, _this: JsValue, args: &[JsValue]) -> (r: Result<JsValue, Throw>)
    requires
        old(ctx).wf(),
        valid_args(old(ctx).heap@, args@),
        old(ctx).heap@.symbols < usize::MAX,
    ensures
        ends_in(
            *old(ctx),
            *final(ctx),
            r,
            shared_result(old(ctx).heap@, text_of(old(ctx).heap@, arg_of(args@, 0))),
        ),
{
    let key: Vec<u16> = ctx.to_string(arg(args, 0));
    match ctx.heap.shared_symbol(key.as_slice()) {
        Some(s) => Ok(JsValue::Symbol(s)),
        None => {
            let s: usize = ctx.heap.new_symbol();
            ctx.heap.share_symbol(key.as_slice(), s);
            Ok(JsValue::Symbol(s))
        },
    }
}

proof fn lemma_first_pushed(
    reg: Seq<(Seq<u16>, usize)>,
    key: Seq<u16>,
    s: usize,
    i: int,
)
    requires
        0 <= i <= reg.len(),
        first_under(reg, key, i) is None,
    ensures
        first_under(reg.push((key, s)), key, i) == Some(s),
    decreases reg.len() - i,
{
    if i < reg.len() {
        lemma_first_pushed(reg, key, s, i + 1);
    }
}

/// The same text gives the same symbol again, and nothing new is made.
pub proof fn law_shared_once(h: HeapModel, key: Seq<u16>)
    requires
        h.symbols < usize::MAX,
    ensures
        ({
            let (h1, s) = shared_result(h, key);
            shared_result(h1, key) == (h1, s)
        }),
{
    if h.symbol_of(key) is None {
        lemma_first_pushed(h.registry, key, h.symbols as usize, 0);
    }
}

/// `Symbol.keyFor(symbol)`: the text that it is shared under, `undefined` where it is
/// not.
pub fn symbol_key_for(ctx: &mut Ctx, _this: JsValue, args: &[JsValue]) -> (r: Result<JsValue, Throw>)
    requires
        old(ctx).wf(),
        valid_args(old(ctx).heap@, args@),
    ensures
        match arg_of(args@, 0) {
            JsValue::Symbol(s) => match old(ctx).heap@.key_of(s) {
                Some(t) => gives_text(*old(ctx), *final(ctx), r, t),
                None => gives_value(*old(ctx), *final(ctx), r, JsValue::Undefined),
            },
            _ => gives_error(
                *old(ctx),
                *final(ctx),
                r,
                "TypeError: Symbol.keyFor requires a symbol"@,
            ),
        },
{
    match arg(args, 0) {
        JsValue::Symbol(s) => match ctx.heap.symbol_key(s) {
            Some(t) => ctx.text_value(t.as_slice()),
            None => Ok(JsValue::Undefined),
        },
        _ => Err(error("TypeError: Symbol.keyFor requires a symbol")),
    }
}

/// `Symbol.prototype.toString()`: symbols have no description.
pub fn symbol_proto_to_string(ctx: &mut Ctx, this: JsValue, _args: &[JsValue]) -> (r: Result<
    JsValue,
    Throw,
>)
    requires
        old(ctx).wf(),
    ensures
        match this {
            JsValue::Symbol(_) => gives_text(*old(ctx), *final(ctx), r, utf16_of("Symbol()"@)),
            _ => gives_error(
                *old(ctx),
                *final(ctx),
                r,
                "TypeError: Symbol.prototype.toString requires a Symbol"@,
            ),
        },
{
    match this {
        JsValue::Symbol(_) => ctx.str_value("Symbol()"),
        _ => Err(error("TypeError: Symbol.prototype.toString requires a Symbol")),
    }
}

/// `Symbol.prototype.valueOf()`.
pub fn symbol_proto_value_of(ctx: &mut Ctx, this: JsValue, _args: &[JsValue]) -> (r: Result<
    JsValue,
    Throw,
>)
    ensures
        match this {
            JsValue::Symbol(_) => gives_value(*old(ctx), *final(ctx), r, this),
            _ => gives_error(
                *old(ctx),
                *final(ctx),
                r,
                "TypeError: Symbol.prototype.valueOf requires a Symbol"@,
            ),
        },
{
    match this {
        JsValue::Symbol(_) => Ok(this),
        _ => Err(error("TypeError: Symbol.prototype.valueOf requires a Symbol")),
    }
}

/// `Symbol.prototype.description`: symbols have none.
pub fn symbol_proto_description(ctx: &mut Ctx, this: JsValue, _args: &[JsValue]) -> (r: Result<
    JsValue,
    Throw,
>)
    ensures
        match this {
            JsValue::Symbol(_) => gives_value(*old(ctx), *final(ctx), r, JsValue::Undefined),
            _ => gives_error(
                *old(ctx),
                *final(ctx),
                r,
                "TypeError: Symbol.prototype.description requires a Symbol"@,
            ),
        },
{
    match this {
        JsValue::Symbol(_) => Ok(JsValue::Undefined),
        _ => Err(error("TypeError: Symbol.prototype.description requires a Symbol")),
    }
}

/// A well-known symbol, where one is asked for by a call: a new one each time.
pub fn symbol_well_known(ctx: &mut Ctx, _this: JsValue, _args: &[JsValue]) -> (r: Result<
    JsValue,
    Throw,
>)
    requires
        old(ctx).wf(),
        old(ctx).heap@.symbols < usize::MAX,
    ensures
        ends_in(*old(ctx), *final(ctx), r, fresh_result(old(ctx).heap@)),
{
    Ok(fresh_symbol(ctx))
}

} // verus!

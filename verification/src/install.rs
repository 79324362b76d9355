//! Installing built-in functions and constants on the objects of a realm.
use vstd::prelude::*;

use crate::ctx::{Ctx, fixed_attrs, has_named, named_key, native_function, only_heap, with_property};
use crate::double::{INFINITY, NAN};
use crate::heap::{
    HeapModel, JsObject, ObjModel, lemma_closed_update, lemma_closed_with, lemma_refs_within,
    lemma_text_id,
};
use crate::math::{
    math_const_e, math_const_ln10, math_const_ln2, math_const_log10e, math_const_log2e,
    math_const_pi, math_const_sqrt1_2, math_const_sqrt2,
};
use crate::native::{
    Install, NativeId, Target, arity, builtin_entries, builtin_length, builtin_table,
};
use crate::number::{
    number_const_epsilon, number_const_max_safe_integer, number_const_max_value,
    number_const_min_safe_integer, number_const_min_value, number_const_nan,
    number_const_negative_infinity, number_const_positive_infinity,
};
use crate::object::link_prototype;
use crate::object_describe::lemma_ascii_units;
use crate::properties::{Prop, PropBody, distinct_keys, properties_of, shaped};
use crate::text::utf16_of;
use crate::value::{Attrs, FunctionTarget, JsValue, Kind, PropKey, builtin_attrs};

verus! {

/// The key of a text that the heap holds.
pub open spec fn text_key(h: HeapModel, name: Seq<char>) -> PropKey {
    PropKey::Text(h.text_id(utf16_of(name)))
}

/// The heap with the texts that a built-in function needs.
pub open spec fn with_function_texts(h: HeapModel, name: Seq<char>) -> HeapModel {
    h.interned(utf16_of("length"@)).interned(utf16_of("name"@)).interned(utf16_of(name))
}

/// The properties of a built-in function: its `length` where one is declared, and its
/// `name`.
pub open spec fn function_props(h: HeapModel, name: Seq<char>, length: Option<u32>) -> Seq<Prop> {
    let n = Prop {
        key: text_key(h, "name"@),
        attrs: fixed_attrs(),
        body: PropBody::Data(JsValue::Text(h.text_id(utf16_of(name)))),
    };
    match length {
        None => seq![n],
        Some(len) => seq![
            Prop {
                key: text_key(h, "length"@),
                attrs: fixed_attrs(),
                body: PropBody::Data(JsValue::Smi(len as i32)),
            },
            n,
        ],
    }
}

/// The heap with a built-in function as a property of an object.
pub open spec fn with_method(
    h: HeapModel,
    target: usize,
    name: Seq<char>,
    id: NativeId,
    length: Option<u32>,
) -> HeapModel {
    let h1 = with_function_texts(h, name);
    let h2 = h1.with_new(
        ObjModel { named: shaped(function_props(h1, name, length)), ..native_function(id) },
    );
    with_property(h2, target, name, JsValue::Object(h.objects.len() as usize), builtin_attrs())
}

proof fn lemma_length_is_not_name()
    ensures
        utf16_of("length"@) != utf16_of("name"@),
{
    reveal_strlit("length");
    reveal_strlit("name");
    lemma_ascii_units("length"@);
    lemma_ascii_units("name"@);
}

/// A key that an object has is in range, so the key of a new text is none of its keys.
proof fn lemma_named_later(h: HeapModel, later: HeapModel, o: usize, name: Seq<char>)
    requires
        h.closed(),
        h.distinct_texts(),
        later.distinct_texts(),
        o < h.objects.len(),
        h.texts.is_prefix_of(later.texts),
        later.objects[o as int].named == h.objects[o as int].named,
        later.texts.len() <= usize::MAX,
        !has_named(h, o, name),
    ensures
        !has_named(later, o, name),
{
    let t = utf16_of(name);
    let list = h.objects[o as int].named.list;
    let k = named_key(later, name);
    if crate::properties::has_key(list, k) {
        let i = choose|i: int| 0 <= i < list.len() && #[trigger] list[i].key == k;
        assert(h.valid_refs(h.objects[o as int]));
        assert(h.valid_prop(list[i]));
        let id = later.text_id(t);
        assert(id < h.texts.len());
        if later.has_text(t) {
            let j = choose|j: int| 0 <= j < later.texts.len() && #[trigger] later.texts[j] == t;
            assert(later.texts[j] == t);
            lemma_text_id(later, j);
            assert(h.texts[id as int] == later.texts[id as int]);
            lemma_text_id(h, id as int);
        }
    }
}

/// Makes a built-in function.
fn make_function(ctx: &mut Ctx, name: &str, id: NativeId, length: Option<u32>) -> (r: usize)
    requires
        old(ctx).wf(),
        length matches Some(n) ==> n <= i32::MAX,
    ensures
        ({
            let h1 = with_function_texts(old(ctx).heap@, name@);
            only_heap(
                *old(ctx),
                *final(ctx),
                h1.with_new(
                    ObjModel {
                        named: shaped(function_props(h1, name@, length)),
                        ..native_function(id)
                    },
                ),
            )
        }),
        r == old(ctx).heap@.objects.len(),
        r < final(ctx).heap@.objects.len(),
        old(ctx).heap@.texts.is_prefix_of(final(ctx).heap@.texts),
        final(ctx).heap@.texts.len() <= usize::MAX,
{
    let ghost h = ctx.heap@;
    let a: usize = ctx.heap.intern_text("length");
    let ghost g0 = ctx.heap@;
    let b: usize = ctx.heap.intern_text("name");
    let ghost g1 = ctx.heap@;
    let c: usize = ctx.heap.intern_text(name);
    let ghost h1 = ctx.heap@;
    proof {
        assert(h.texts.is_prefix_of(g0.texts));
        assert(g0.texts.is_prefix_of(g1.texts));
        assert(g1.texts.is_prefix_of(h1.texts));
        assert(h.texts.is_prefix_of(h1.texts));
        assert(h1.texts[a as int] == g0.texts[a as int]);
        assert(h1.texts[b as int] == g1.texts[b as int]);
        ctx.heap.lemma_wf();
        lemma_text_id(h1, a as int);
        lemma_text_id(h1, b as int);
        lemma_text_id(h1, c as int);
        lemma_length_is_not_name();
    }
    let mut props: Vec<Prop> = Vec::new();
    match length {
        Some(n) => {
            props.push(
                Prop {
                    key: PropKey::Text(a),
                    attrs: Attrs::new(false, false, true),
                    body: PropBody::Data(JsValue::Smi(n as i32)),
                },
            );
        },
        None => {},
    }
    props.push(
        Prop {
            key: PropKey::Text(b),
            attrs: Attrs::new(false, false, true),
            body: PropBody::Data(JsValue::Text(c)),
        },
    );
    proof {
        assert(props@ =~= function_props(h1, name@, length));
        assert(distinct_keys(props@));
    }
    let mut o: JsObject = JsObject::plain(Kind::Function);
    o.callable = FunctionTarget::Native(id);
    o.named = properties_of(&props);
    proof {
        assert(o@ == ObjModel { named: shaped(props@), ..native_function(id) });
        assert forall|i: int| 0 <= i < o@.named.list.len() implies h1.valid_prop(
            #[trigger] o@.named.list[i],
        ) by {}
        assert(h1.valid_refs(o@));
    }
    let _ = ctx.heap.text_count();
    ctx.alloc_obj(o)
}

impl Ctx {
    /// Makes a built-in function with its `length` and `name`, and installs it on an
    /// object; without an object nothing is installed.
    pub fn define_method(
        &mut self,
        target: Option<usize>,
        name: &str,
        id: NativeId,
        length: Option<u32>,
    )
        requires
            old(self).wf(),
            old(self).heap@.valid_object(target),
            target matches Some(t) ==> !has_named(old(self).heap@, t, name@),
            length matches Some(n) ==> n <= i32::MAX,
        ensures
            only_heap(
                *old(self),
                *final(self),
                match target {
                    Some(t) => with_method(old(self).heap@, t, name@, id, length),
                    None => old(self).heap@,
                },
            ),
            old(self).heap@.within(final(self).heap@),
    {
        let obj: usize = match target {
            None => {
                return;
            },
            Some(t) => t,
        };
        let ghost h = self.heap@;
        proof {
            self.heap.lemma_wf();
        }
        let f: usize = make_function(self, name, id, length);
        proof {
            self.heap.lemma_wf();
            lemma_named_later(h, self.heap@, obj, name@);
        }
        self.define_data_prop(obj, name, JsValue::Object(f));
    }

    /// Links a constructor and its prototype: the constructor's `prototype` is fixed,
    /// the prototype's `constructor` is as other built-ins; what is there already stays.
    pub fn install_ctor_link(&mut self, ctor: usize, proto: usize)
        requires
            old(self).wf(),
            ctor < old(self).heap@.objects.len(),
            proto < old(self).heap@.objects.len(),
        ensures
            only_heap(*old(self), *final(self), linked(old(self).heap@, ctor, proto)),
            old(self).heap@.within(final(self).heap@),
    {
        link_prototype(&mut self.heap, ctor, Some(proto));
        self.define_absent(
            ctor,
            "prototype",
            JsValue::Object(proto),
            Attrs::new(false, false, false),
        );
        self.define_absent(proto, "constructor", JsValue::Object(ctor), Attrs::new(true, false, true));
    }

    /// Defines a property on an object, unless it has one of that name.
    fn define_absent(&mut self, obj: usize, name: &str, v: JsValue, attrs: Attrs)
        requires
            old(self).wf(),
            obj < old(self).heap@.objects.len(),
            old(self).heap@.valid(v),
        ensures
            only_heap(
                *old(self),
                *final(self),
                with_absent(old(self).heap@, obj, name@, v, attrs),
            ),
            old(self).heap@.within(final(self).heap@),
    {
        let ghost h = self.heap@;
        proof {
            self.heap.lemma_wf();
        }
        if !self.has_own_name(obj, name) {
            let _ = self.heap.text_count();
            proof {
                self.heap.lemma_wf();
                lemma_named_later(h, self.heap@, obj, name@);
            }
            self.define_data_prop_with_attrs(obj, name, v, attrs);
        }
    }
}

/// The heap with a property on an object, where it has none of that name.
pub open spec fn with_absent(
    h: HeapModel,
    o: usize,
    name: Seq<char>,
    v: JsValue,
    attrs: Attrs,
) -> HeapModel {
    let h1 = h.interned(utf16_of(name));
    if has_named(h, o, name) {
        h1
    } else {
        with_property(h1, o, name, v, attrs)
    }
}

/// The heap with a constructor and its prototype linked.
pub open spec fn linked(h: HeapModel, ctor: usize, proto: usize) -> HeapModel {
    let h1 = h.with_object(ctor, ObjModel { prototype: Some(proto), ..h.objects[ctor as int] });
    let h2 = with_absent(
        h1,
        ctor,
        "prototype"@,
        JsValue::Object(proto),
        Attrs { writable: false, enumerable: false, configurable: false },
    );
    with_absent(h2, proto, "constructor"@, JsValue::Object(ctor), builtin_attrs())
}

/// The objects that the built-ins of a realm are installed on.
#[derive(Clone, Copy, Debug)]
pub struct BuiltinTargets {
    /// The global object.
    pub global: usize,
    /// `Math`.
    pub math: Option<usize>,
    /// The `Number` constructor.
    pub number: Option<usize>,
    /// `Number.prototype`.
    pub number_proto: usize,
    /// The `String` constructor.
    pub string: Option<usize>,
    /// `String.prototype`.
    pub string_proto: usize,
    /// The `Array` constructor.
    pub array: Option<usize>,
    /// `Array.prototype`.
    pub array_proto: usize,
    /// The `Object` constructor.
    pub object: Option<usize>,
    /// `Object.prototype`.
    pub object_proto: usize,
    /// `Function.prototype`.
    pub function_proto: usize,
    /// `JSON`.
    pub json: Option<usize>,
    /// `Boolean.prototype`.
    pub boolean_proto: usize,
    /// The `Symbol` constructor.
    pub symbol: Option<usize>,
    /// `Symbol.prototype`.
    pub symbol_proto: usize,
    /// The `Proxy` constructor, which has no prototype.
    pub proxy: Option<usize>,
}

/// The object of a target.
pub open spec fn target_of(t: BuiltinTargets, target: Target) -> Option<usize> {
    match target {
        Target::Global => Some(t.global),
        Target::MathObject => t.math,
        Target::NumberCtor => t.number,
        Target::NumberProto => Some(t.number_proto),
        Target::ArrayCtor => t.array,
        Target::ArrayProto => Some(t.array_proto),
        Target::ObjectCtor => t.object,
        Target::ObjectProto => Some(t.object_proto),
        Target::FunctionProto => Some(t.function_proto),
        Target::StringProto => Some(t.string_proto),
        Target::StringCtor => t.string,
        Target::JsonObject => t.json,
        Target::BooleanProto => Some(t.boolean_proto),
        Target::SymbolCtor => t.symbol,
        Target::SymbolProto => Some(t.symbol_proto),
        Target::ProxyCtor => t.proxy,
    }
}

/// Whether every object of the targets is in a heap.
pub open spec fn valid_targets(h: HeapModel, t: BuiltinTargets) -> bool {
    forall|target: Target| h.valid_object(#[trigger] target_of(t, target))
}

impl BuiltinTargets {
    /// The object of a target.
    pub fn object_for(&self, target: Target) -> (r: Option<usize>)
        ensures
            r == target_of(*self, target),
    {
        match target {
            Target::Global => Some(self.global),
            Target::MathObject => self.math,
            Target::NumberCtor => self.number,
            Target::NumberProto => Some(self.number_proto),
            Target::ArrayCtor => self.array,
            Target::ArrayProto => Some(self.array_proto),
            Target::ObjectCtor => self.object,
            Target::ObjectProto => Some(self.object_proto),
            Target::FunctionProto => Some(self.function_proto),
            Target::StringProto => Some(self.string_proto),
            Target::StringCtor => self.string,
            Target::JsonObject => self.json,
            Target::BooleanProto => Some(self.boolean_proto),
            Target::SymbolCtor => self.symbol,
            Target::SymbolProto => Some(self.symbol_proto),
            Target::ProxyCtor => self.proxy,
        }
    }
}

/// The value of a constant of `Math` or `Number`.
pub open spec fn constant_value(id: NativeId) -> Option<JsValue> {
    match id {
        NativeId::MathConstE => Some(JsValue::Double(0x4005_bf0a_8b14_5769)),
        NativeId::MathConstLn2 => Some(JsValue::Double(0x3fe6_2e42_fefa_39ef)),
        NativeId::MathConstLn10 => Some(JsValue::Double(0x4002_6bb1_bbb5_5516)),
        NativeId::MathConstLog2e => Some(JsValue::Double(0x3ff7_1547_652b_82fe)),
        NativeId::MathConstLog10e => Some(JsValue::Double(0x3fdb_cb7b_1526_e50e)),
        NativeId::MathConstPi => Some(JsValue::Double(0x4009_21fb_5444_2d18)),
        NativeId::MathConstSqrt1_2 => Some(JsValue::Double(0x3fe6_a09e_667f_3bcd)),
        NativeId::MathConstSqrt2 => Some(JsValue::Double(0x3ff6_a09e_667f_3bcd)),
        NativeId::NumberConstMaxSafeInteger => Some(JsValue::Double(0x433f_ffff_ffff_ffff)),
        NativeId::NumberConstMinSafeInteger => Some(JsValue::Double(0xc33f_ffff_ffff_ffff)),
        NativeId::NumberConstEpsilon => Some(JsValue::Double(0x3cb0_0000_0000_0000)),
        NativeId::NumberConstMaxValue => Some(JsValue::Double(0x7fef_ffff_ffff_ffff)),
        NativeId::NumberConstMinValue => Some(JsValue::Double(1)),
        NativeId::NumberConstPositiveInfinity => Some(JsValue::Double(INFINITY)),
        NativeId::NumberConstNegativeInfinity => Some(JsValue::Double(0xfff0_0000_0000_0000)),
        NativeId::NumberConstNaN => Some(JsValue::Double(NAN)),
        _ => None,
    }
}

/// The value of a constant of `Math` or `Number`, from the function that computes it.
fn computed_constant(ctx: &mut Ctx, id: NativeId) -> (r: Option<JsValue>)
    ensures
        *final(ctx) == *old(ctx),
        r == constant_value(id),
{
    let none: Vec<JsValue> = Vec::new();
    let args: &[JsValue] = none.as_slice();
    let u: JsValue = JsValue::Undefined;
    let v = match id {
        NativeId::MathConstE => math_const_e(ctx, u, args),
        NativeId::MathConstLn2 => math_const_ln2(ctx, u, args),
        NativeId::MathConstLn10 => math_const_ln10(ctx, u, args),
        NativeId::MathConstLog2e => math_const_log2e(ctx, u, args),
        NativeId::MathConstLog10e => math_const_log10e(ctx, u, args),
        NativeId::MathConstPi => math_const_pi(ctx, u, args),
        NativeId::MathConstSqrt1_2 => math_const_sqrt1_2(ctx, u, args),
        NativeId::MathConstSqrt2 => math_const_sqrt2(ctx, u, args),
        NativeId::NumberConstMaxSafeInteger => number_const_max_safe_integer(ctx, u, args),
        NativeId::NumberConstMinSafeInteger => number_const_min_safe_integer(ctx, u, args),
        NativeId::NumberConstEpsilon => number_const_epsilon(ctx, u, args),
        NativeId::NumberConstMaxValue => number_const_max_value(ctx, u, args),
        NativeId::NumberConstMinValue => number_const_min_value(ctx, u, args),
        NativeId::NumberConstPositiveInfinity => number_const_positive_infinity(ctx, u, args),
        NativeId::NumberConstNegativeInfinity => number_const_negative_infinity(ctx, u, args),
        NativeId::NumberConstNaN => number_const_nan(ctx, u, args),
        _ => {
            return None;
        },
    };
    match v {
        Ok(v) => Some(v),
        Err(_) => None,
    }
}

/// The heap with a built-in property: a function or a constant, where the object has
/// none of that name.
pub open spec fn with_builtin(h: HeapModel, target: Option<usize>, e: Install) -> HeapModel {
    match target {
        None => h,
        Some(t) => {
            let h1 = h.interned(utf16_of(e.name@));
            if has_named(h, t, e.name@) {
                h1
            } else if e.constant {
                match constant_value(e.id) {
                    Some(v) => with_property(h1, t, e.name@, v, builtin_attrs()),
                    None => h1,
                }
            } else {
                with_method(h1, t, e.name@, e.id, arity(e.id))
            }
        },
    }
}

/// The heap with the first built-ins of a table installed.
pub open spec fn with_builtins(
    h: HeapModel,
    targets: BuiltinTargets,
    table: Seq<Install>,
    n: int,
) -> HeapModel
    decreases n,
{
    if n <= 0 {
        h
    } else {
        let e = table[n - 1];
        with_builtin(with_builtins(h, targets, table, n - 1), target_of(targets, e.target), e)
    }
}

/// Whether a name is a text of the heap and an object has a property of that name.
pub open spec fn present(h: HeapModel, o: usize, name: Seq<char>) -> bool {
    h.has_text(utf16_of(name)) && has_named(h, o, name)
}

/// Whether a built-in is a property of its object, where the realm has that object.
pub open spec fn installed(h: HeapModel, targets: BuiltinTargets, e: Install) -> bool {
    target_of(targets, e.target) is Some && (!e.constant || constant_value(e.id) is Some)
        ==> present(h, target_of(targets, e.target).unwrap(), e.name@)
}

/// Whether a heap has the texts and properties of an earlier one, and at most `n`
/// texts and one object more.
pub open spec fn keeps(h: HeapModel, later: HeapModel, n: int) -> bool {
    &&& h.distinct_texts()
    &&& later.distinct_texts()
    &&& h.texts.is_prefix_of(later.texts)
    &&& later.texts.len() <= h.texts.len() + n
    &&& h.objects.len() <= later.objects.len()
    &&& later.objects.len() <= h.objects.len() + 1
    &&& forall|o: int|
        0 <= o < h.objects.len() ==> h.objects[o].named.list.is_prefix_of(
            (#[trigger] later.objects[o]).named.list,
        )
}

proof fn lemma_interned_keeps(h: HeapModel, t: Seq<u16>)
    requires
        h.distinct_texts(),
    ensures
        keeps(h, h.interned(t), 1),
        h.interned(t).has_text(t),
        h.interned(t).objects == h.objects,
{
    let h1 = h.interned(t);
    if !h.has_text(t) {
        assert(h1.texts == h.texts.push(t));
        assert(h1.texts[h.texts.len() as int] == t);
        assert forall|i: int, j: int| 0 <= i < j < h1.texts.len() implies h1.texts[i]
            != h1.texts[j] by {
            if j == h.texts.len() {
                assert(h.texts[i] == h1.texts[i]);
            } else {
                assert(h.texts[i] != h.texts[j]);
            }
        }
    }
}

proof fn lemma_keeps_trans(a: HeapModel, b: HeapModel, c: HeapModel, n: int, m: int)
    requires
        keeps(a, b, n),
        keeps(b, c, m),
        c.objects.len() <= a.objects.len() + 1,
    ensures
        keeps(a, c, n + m),
{
    assert forall|o: int| 0 <= o < a.objects.len() implies a.objects[o].named.list.is_prefix_of(
        (#[trigger] c.objects[o]).named.list,
    ) by {
        assert(a.objects[o].named.list.is_prefix_of(b.objects[o].named.list));
    }
}

proof fn lemma_present_stays(h: HeapModel, later: HeapModel, n: int, o: usize, name: Seq<char>)
    requires
        keeps(h, later, n),
        o < h.objects.len(),
        later.texts.len() <= usize::MAX,
        present(h, o, name),
    ensures
        present(later, o, name),
{
    let t = utf16_of(name);
    let j = choose|j: int| 0 <= j < h.texts.len() && #[trigger] h.texts[j] == t;
    lemma_text_id(h, j);
    assert(later.texts[j] == h.texts[j]);
    lemma_text_id(later, j);
    let a = h.objects[o as int].named.list;
    let b = later.objects[o as int].named.list;
    let i = choose|i: int| 0 <= i < a.len() && #[trigger] a[i].key == named_key(h, name);
    assert(b[i] == a[i]);
}

proof fn lemma_property_keeps(h: HeapModel, o: usize, name: Seq<char>, v: JsValue, attrs: Attrs)
    requires
        h.distinct_texts(),
        o < h.objects.len(),
        with_property(h, o, name, v, attrs).texts.len() <= usize::MAX,
    ensures
        keeps(h, with_property(h, o, name, v, attrs), 1),
        present(with_property(h, o, name, v, attrs), o, name),
{
    let t = utf16_of(name);
    let h1 = h.interned(t);
    let later = with_property(h, o, name, v, attrs);
    lemma_interned_keeps(h, t);
    assert(h1.texts[h.text_id(t) as int] == t);
    lemma_text_id(h1, h.text_id(t) as int);
    let l = later.objects[o as int].named.list;
    assert(l.last().key == named_key(later, name));
    assert(l[l.len() - 1] == l.last());
    assert(later.has_text(t)) by {
        assert(later.texts[h.text_id(t) as int] == t);
    }
}

proof fn lemma_builtin_keeps(h: HeapModel, target: Option<usize>, e: Install)
    requires
        h.distinct_texts(),
        h.closed(),
        h.valid_object(target),
        with_builtin(h, target, e).texts.len() <= usize::MAX,
    ensures
        keeps(h, with_builtin(h, target, e), 5),
        target is Some && (!e.constant || constant_value(e.id) is Some) ==> present(
            with_builtin(h, target, e),
            target.unwrap(),
            e.name@,
        ),
{
    if target is Some {
        let t = target.unwrap();
        let n = utf16_of(e.name@);
        let h1 = h.interned(n);
        lemma_interned_keeps(h, n);
        if has_named(h, t, e.name@) {
            let list = h.objects[t as int].named.list;
            let i = choose|i: int|
                0 <= i < list.len() && #[trigger] list[i].key == named_key(h, e.name@);
            assert(h.valid_refs(h.objects[t as int]));
            assert(h.valid_prop(list[i]));
            assert(h.text_id(n) < h.texts.len());
            if !h.has_text(n) {
                assert(h.text_id(n) == h.texts.len());
            }
            assert(h1 == h);
        } else if e.constant {
            if constant_value(e.id) is Some {
                lemma_property_keeps(h1, t, e.name@, constant_value(e.id).unwrap(), builtin_attrs());
                lemma_keeps_trans(
                    h,
                    h1,
                    with_property(h1, t, e.name@, constant_value(e.id).unwrap(), builtin_attrs()),
                    1,
                    1,
                );
            }
        } else {
            let a = h1.interned(utf16_of("length"@));
            let b = a.interned(utf16_of("name"@));
            let c = b.interned(n);
            lemma_interned_keeps(h1, utf16_of("length"@));
            lemma_interned_keeps(a, utf16_of("name"@));
            lemma_interned_keeps(b, n);
            lemma_keeps_trans(h, h1, a, 1, 1);
            lemma_keeps_trans(h, a, b, 2, 1);
            lemma_keeps_trans(h, b, c, 3, 1);
            let d = c.with_new(
                ObjModel {
                    named: shaped(function_props(c, e.name@, arity(e.id))),
                    ..native_function(e.id)
                },
            );
            assert(keeps(c, d, 0));
            lemma_keeps_trans(h, c, d, 4, 0);
            let v = JsValue::Object(h1.objects.len() as usize);
            assert(d.texts == c.texts);
            lemma_property_keeps(d, t, e.name@, v, builtin_attrs());
            lemma_keeps_trans(h, d, with_property(d, t, e.name@, v, builtin_attrs()), 4, 1);
        }
    }
}

/// Installs a built-in function, or the value that a constant's function computes, where
/// the object has no property of that name.
pub fn install_native(ctx: &mut Ctx, target: Option<usize>, e: Install)
    requires
        old(ctx).wf(),
        old(ctx).heap@.valid_object(target),
    ensures
        only_heap(*old(ctx), *final(ctx), with_builtin(old(ctx).heap@, target, e)),
        old(ctx).heap@.within(final(ctx).heap@),
        final(ctx).heap@.texts.len() <= usize::MAX,
{
    let _ = ctx.heap.text_count();
    let obj: usize = match target {
        None => {
            return;
        },
        Some(t) => t,
    };
    let ghost h = ctx.heap@;
    proof {
        ctx.heap.lemma_wf();
    }
    let found: bool = ctx.has_own_name(obj, e.name);
    let _ = ctx.heap.text_count();
    if found {
        return;
    }
    proof {
        ctx.heap.lemma_wf();
        lemma_named_later(h, ctx.heap@, obj, e.name@);
    }
    if e.constant {
        match computed_constant(ctx, e.id) {
            Some(v) => {
                ctx.define_data_prop(obj, e.name, v);
            },
            None => {},
        }
    } else {
        ctx.define_method(Some(obj), e.name, e.id, builtin_length(e.id));
    }
    let _ = ctx.heap.text_count();
}

/// Installs the built-ins of a table on the objects of a realm.
fn install_table(ctx: &mut Ctx, targets: &BuiltinTargets, table: &Vec<Install>)
    requires
        old(ctx).wf(),
        valid_targets(old(ctx).heap@, *targets),
    ensures
        only_heap(
            *old(ctx),
            *final(ctx),
            with_builtins(old(ctx).heap@, *targets, table@, table@.len() as int),
        ),
        old(ctx).heap@.within(final(ctx).heap@),
        forall|k: int|
            0 <= k < table@.len() ==> installed(
                final(ctx).heap@,
                *targets,
                #[trigger] table@[k],
            ),
{
    let ghost before = *ctx;
    let mut i: usize = 0;
    while i < table.len()
        invariant
            i <= table@.len(),
            ctx.wf(),
            before.wf(),
            before.heap@.within(ctx.heap@),
            valid_targets(before.heap@, *targets),
            only_heap(before, *ctx, with_builtins(before.heap@, *targets, table@, i as int)),
            forall|k: int| 0 <= k < i ==> installed(ctx.heap@, *targets, #[trigger] table@[k]),
        decreases table@.len() - i,
    {
        let ghost h = ctx.heap@;
        proof {
            ctx.heap.lemma_wf();
        }
        let e: Install = table[i];
        let t: Option<usize> = targets.object_for(e.target);
        install_native(ctx, t, e);
        proof {
            lemma_builtin_keeps(h, t, e);
            assert forall|k: int| 0 <= k <= i implies installed(
                ctx.heap@,
                *targets,
                #[trigger] table@[k],
            ) by {
                if k < i {
                    assert(before.heap@.valid_object(target_of(*targets, table@[k].target)));
                    lemma_installed_stays(h, ctx.heap@, *targets, table@[k]);
                }
            }
        }
        i = i + 1;
    }
}

/// A built-in that is installed stays.
proof fn lemma_installed_stays(h: HeapModel, later: HeapModel, targets: BuiltinTargets, e: Install)
    requires
        installed(h, targets, e),
        keeps(h, later, 5),
        later.texts.len() <= usize::MAX,
        target_of(targets, e.target) matches Some(o) ==> o < h.objects.len(),
    ensures
        installed(later, targets, e),
{
    match target_of(targets, e.target) {
        Some(o) => {
            if present(h, o, e.name@) {
                lemma_present_stays(h, later, 5, o, e.name@);
            }
        },
        None => {},
    }
}

/// Installs every built-in of the table on the objects of a realm; what is there already
/// stays.
pub fn install_builtins(ctx: &mut Ctx, targets: &BuiltinTargets)
    requires
        old(ctx).wf(),
        valid_targets(old(ctx).heap@, *targets),
    ensures
        only_heap(
            *old(ctx),
            *final(ctx),
            with_builtins(
                old(ctx).heap@,
                *targets,
                builtin_entries(),
                builtin_entries().len() as int,
            ),
        ),
        old(ctx).heap@.within(final(ctx).heap@),
        forall|k: int|
            0 <= k < builtin_entries().len() ==> installed(
                final(ctx).heap@,
                *targets,
                #[trigger] builtin_entries()[k],
            ),
{
    let table: Vec<Install> = builtin_table();
    install_table(ctx, targets, &table);
}

/// A property that was defined where it was absent is there, and nothing is lost.
proof fn lemma_absent_keeps(h: HeapModel, o: usize, name: Seq<char>, v: JsValue, attrs: Attrs)
    requires
        h.distinct_texts(),
        h.closed(),
        o < h.objects.len(),
        with_absent(h, o, name, v, attrs).texts.len() <= usize::MAX,
    ensures
        keeps(h, with_absent(h, o, name, v, attrs), 2),
        present(with_absent(h, o, name, v, attrs), o, name),
{
    let n = utf16_of(name);
    let h1 = h.interned(n);
    lemma_interned_keeps(h, n);
    if has_named(h, o, name) {
        let list = h.objects[o as int].named.list;
        let i = choose|i: int| 0 <= i < list.len() && #[trigger] list[i].key == named_key(h, name);
        assert(h.valid_refs(h.objects[o as int]));
        assert(h.valid_prop(list[i]));
        assert(h.text_id(n) < h.texts.len());
        if !h.has_text(n) {
            assert(h.text_id(n) == h.texts.len());
        }
        assert(h1 == h);
    } else {
        lemma_property_keeps(h1, o, name, v, attrs);
        lemma_keeps_trans(h, h1, with_property(h1, o, name, v, attrs), 1, 1);
    }
}

/// Defining a property where it was absent keeps all references in range.
proof fn lemma_absent_closed(h: HeapModel, o: usize, name: Seq<char>, v: JsValue, attrs: Attrs)
    requires
        h.distinct_texts(),
        h.closed(),
        h.valid(v),
        o < h.objects.len(),
        with_absent(h, o, name, v, attrs).texts.len() <= usize::MAX,
    ensures
        with_absent(h, o, name, v, attrs).closed(),
{
    let later = with_absent(h, o, name, v, attrs);
    let n = utf16_of(name);
    let h1 = h.interned(n);
    lemma_absent_keeps(h, o, name, v, attrs);
    lemma_interned_keeps(h, n);
    if !has_named(h, o, name) {
        assert(h1.interned(n) == h1);
        let m = h1.objects[o as int];
        let p = Prop { key: named_key(h1, name), attrs, body: PropBody::Data(v) };
        let m1 = later.objects[o as int];
        assert(m1.named.list =~= m.named.list.push(p));
        let j = choose|j: int| 0 <= j < h1.texts.len() && #[trigger] h1.texts[j] == n;
        lemma_text_id(h1, j);
        assert(h.valid_refs(m));
        lemma_refs_within(h, later, m);
        assert forall|k: int| 0 <= k < m1.named.list.len() implies later.valid_prop(
            #[trigger] m1.named.list[k],
        ) by {
            if k < m.named.list.len() {
                assert(later.valid_prop(m.named.list[k]));
            }
        }
        assert(later.valid_refs(m1));
    }
    lemma_closed_with(h, later);
}

/// Linking a constructor and its prototype again changes nothing.
pub proof fn law_link_once(h: HeapModel, ctor: usize, proto: usize)
    requires
        h.closed(),
        h.distinct_texts(),
        ctor < h.objects.len(),
        proto < h.objects.len(),
        linked(h, ctor, proto).texts.len() <= usize::MAX,
    ensures
        linked(linked(h, ctor, proto), ctor, proto) == linked(h, ctor, proto),
{
    let fixed = Attrs { writable: false, enumerable: false, configurable: false };
    let h1 = h.with_object(ctor, ObjModel { prototype: Some(proto), ..h.objects[ctor as int] });
    let h2 = with_absent(h1, ctor, "prototype"@, JsValue::Object(proto), fixed);
    let h3 = with_absent(h2, proto, "constructor"@, JsValue::Object(ctor), builtin_attrs());
    assert(h3 == linked(h, ctor, proto));
    assert(h2.texts.len() <= h3.texts.len());
    assert(h1.closed()) by {
        lemma_closed_update(h, ctor);
        assert(h.valid_refs(h.objects[ctor as int]));
        assert(h.valid_refs(ObjModel { prototype: Some(proto), ..h.objects[ctor as int] }));
    }
    lemma_absent_keeps(h1, ctor, "prototype"@, JsValue::Object(proto), fixed);
    lemma_absent_closed(h1, ctor, "prototype"@, JsValue::Object(proto), fixed);
    lemma_absent_keeps(h2, proto, "constructor"@, JsValue::Object(ctor), builtin_attrs());
    lemma_present_stays(h2, h3, 2, ctor, "prototype"@);
    let m = h3.objects[ctor as int];
    assert(m.prototype == Some(proto));
    assert(h3.objects.update(ctor as int, ObjModel { prototype: Some(proto), ..m }) =~= h3.objects);
}

} // verus!

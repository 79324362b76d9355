//! The built-in functions by name: their arities and where they are installed.
use vstd::prelude::*;

verus! {

/// A built-in function.
#[derive(Clone, Copy, PartialEq, Eq, Structural, Debug)]
pub enum NativeId {
    /// `Array.prototype.at`.
    ArrayAt,
    /// `Array.prototype.concat`.
    ArrayConcat,
    /// The `Array` constructor.
    ArrayConstruct,
    /// `Array.prototype.copyWithin`.
    ArrayCopyWithin,
    /// `Array.prototype.every`.
    ArrayEvery,
    /// `Array.prototype.fill`.
    ArrayFill,
    /// `Array.prototype.filter`.
    ArrayFilter,
    /// `Array.prototype.find`.
    ArrayFind,
    /// `Array.prototype.findIndex`.
    ArrayFindIndex,
    /// `Array.prototype.findLast`.
    ArrayFindLast,
    /// `Array.prototype.findLastIndex`.
    ArrayFindLastIndex,
    /// `Array.prototype.flat`.
    ArrayFlat,
    /// `Array.prototype.flatMap`.
    ArrayFlatMap,
    /// `Array.prototype.forEach`.
    ArrayForEach,
    /// `Array.from`.
    ArrayFrom,
    /// `Array.prototype.includes`.
    ArrayIncludes,
    /// `Array.prototype.indexOf`.
    ArrayIndexOf,
    /// `Array.isArray`.
    ArrayIsArray,
    /// `Array.prototype.values`.
    ArrayIterator,
    /// `Array.prototype.entries`.
    ArrayIteratorEntries,
    /// `Array.prototype.keys`.
    ArrayIteratorKeys,
    /// `Array.prototype.join`.
    ArrayJoin,
    /// `Array.prototype.lastIndexOf`.
    ArrayLastIndexOf,
    /// `Array.prototype.map`.
    ArrayMap,
    /// `Array.of`.
    ArrayOf,
    /// `Array.prototype.pop`.
    ArrayPop,
    /// `Array.prototype.push`.
    ArrayPush,
    /// `Array.prototype.reduce`.
    ArrayReduce,
    /// `Array.prototype.reduceRight`.
    ArrayReduceRight,
    /// `Array.prototype.reverse`.
    ArrayReverse,
    /// `Array.prototype.shift`.
    ArrayShift,
    /// `Array.prototype.slice`.
    ArraySlice,
    /// `Array.prototype.some`.
    ArraySome,
    /// `Array.prototype.sort`.
    ArraySort,
    /// `Array.prototype.splice`.
    ArraySplice,
    /// `Array.prototype.toString`.
    ArrayToString,
    /// `Array.prototype.unshift`.
    ArrayUnshift,
    /// The `Boolean` constructor.
    BooleanConstruct,
    /// `Boolean.prototype.toString`.
    BooleanProtoToString,
    /// `Boolean.prototype.valueOf`.
    BooleanProtoValueOf,
    /// The `Date` constructor.
    DateConstruct,
    /// `Error`.
    ErrorCreate,
    /// `EvalError`.
    EvalErrorCreate,
    /// `Function.prototype.toString`.
    FunctionProtoToString,
    /// `decodeURI`.
    GlobalDecodeUri,
    /// `decodeURIComponent`.
    GlobalDecodeUriComponent,
    /// `encodeURI`.
    GlobalEncodeUri,
    /// `encodeURIComponent`.
    GlobalEncodeUriComponent,
    /// `isFinite`.
    GlobalIsFinite,
    /// `isNaN`.
    GlobalIsNaN,
    /// `parseFloat`.
    GlobalParseFloat,
    /// `parseInt`.
    GlobalParseInt,
    /// `Iterator.prototype.drop`.
    IteratorDrop,
    /// `Iterator.prototype.every`.
    IteratorEvery,
    /// `Iterator.prototype.filter`.
    IteratorFilter,
    /// `Iterator.prototype.find`.
    IteratorFind,
    /// `Iterator.prototype.flatMap`.
    IteratorFlatMap,
    /// `Iterator.prototype.forEach`.
    IteratorForEach,
    /// `Iterator.from`.
    IteratorFrom,
    /// `Iterator.prototype.map`.
    IteratorMap,
    /// `next` of an iterator.
    IteratorNext,
    /// `Iterator.prototype.reduce`.
    IteratorReduce,
    /// `%IteratorPrototype%[Symbol.iterator]`.
    IteratorSelf,
    /// `Iterator.prototype.some`.
    IteratorSome,
    /// `Iterator.prototype.take`.
    IteratorTake,
    /// `Iterator.prototype.toArray`.
    IteratorToArray,
    /// `JSON.parse`.
    JsonParse,
    /// `JSON.stringify`.
    JsonStringify,
    /// `Map.prototype.clear`.
    MapClear,
    /// The `Map` constructor.
    MapConstruct,
    /// `Map.prototype.delete`.
    MapDelete,
    /// `Map.prototype.entries`.
    MapEntries,
    /// `Map.prototype.forEach`.
    MapForEach,
    /// `Map.prototype.get`.
    MapGet,
    /// `Map.prototype.has`.
    MapHas,
    /// `Map.prototype[Symbol.iterator]`.
    MapIterator,
    /// `Map.prototype.keys`.
    MapKeys,
    /// `Map.prototype.set`.
    MapSet,
    /// `Map.prototype.size`.
    MapSize,
    /// `Map.prototype.values`.
    MapValues,
    /// `Math.abs`.
    MathAbs,
    /// `Math.acos`.
    MathAcos,
    /// `Math.acosh`.
    MathAcosh,
    /// `Math.asin`.
    MathAsin,
    /// `Math.asinh`.
    MathAsinh,
    /// `Math.atan`.
    MathAtan,
    /// `Math.atan2`.
    MathAtan2,
    /// `Math.atanh`.
    MathAtanh,
    /// `Math.cbrt`.
    MathCbrt,
    /// `Math.ceil`.
    MathCeil,
    /// `Math.clz32`.
    MathClz32,
    /// `Math.E`.
    MathConstE,
    /// `Math.LN10`.
    MathConstLn10,
    /// `Math.LN2`.
    MathConstLn2,
    /// `Math.LOG10E`.
    MathConstLog10e,
    /// `Math.LOG2E`.
    MathConstLog2e,
    /// `Math.PI`.
    MathConstPi,
    /// `Math.SQRT1_2`.
    MathConstSqrt1_2,
    /// `Math.SQRT2`.
    MathConstSqrt2,
    /// `Math.cos`.
    MathCos,
    /// `Math.cosh`.
    MathCosh,
    /// `Math.exp`.
    MathExp,
    /// `Math.expm1`.
    MathExpm1,
    /// `Math.floor`.
    MathFloor,
    /// `Math.fround`.
    MathFround,
    /// `Math.hypot`.
    MathHypot,
    /// `Math.imul`.
    MathImul,
    /// `Math.log`.
    MathLog,
    /// `Math.log10`.
    MathLog10,
    /// `Math.log1p`.
    MathLog1p,
    /// `Math.log2`.
    MathLog2,
    /// `Math.max`.
    MathMax,
    /// `Math.min`.
    MathMin,
    /// `Math.pow`.
    MathPow,
    /// `Math.random`.
    MathRandom,
    /// `Math.round`.
    MathRound,
    /// `Math.sign`.
    MathSign,
    /// `Math.sin`.
    MathSin,
    /// `Math.sinh`.
    MathSinh,
    /// `Math.sqrt`.
    MathSqrt,
    /// `Math.tan`.
    MathTan,
    /// `Math.tanh`.
    MathTanh,
    /// `Math.trunc`.
    MathTrunc,
    /// `import()`.
    ModuleImport,
    /// `Number.EPSILON`.
    NumberConstEpsilon,
    /// `Number.MAX_SAFE_INTEGER`.
    NumberConstMaxSafeInteger,
    /// `Number.MAX_VALUE`.
    NumberConstMaxValue,
    /// `Number.MIN_SAFE_INTEGER`.
    NumberConstMinSafeInteger,
    /// `Number.MIN_VALUE`.
    NumberConstMinValue,
    /// `Number.NaN`.
    NumberConstNaN,
    /// `Number.NEGATIVE_INFINITY`.
    NumberConstNegativeInfinity,
    /// `Number.POSITIVE_INFINITY`.
    NumberConstPositiveInfinity,
    /// The `Number` constructor.
    NumberConstruct,
    /// `Number.isFinite`.
    NumberIsFinite,
    /// `Number.isInteger`.
    NumberIsInteger,
    /// `Number.isNaN`.
    NumberIsNan,
    /// `Number.isSafeInteger`.
    NumberIsSafeInteger,
    /// `Number.parseFloat`.
    NumberParseFloat,
    /// `Number.parseInt`.
    NumberParseInt,
    /// `Number.prototype.toString`.
    NumberProtoToString,
    /// `Number.prototype.valueOf`.
    NumberProtoValueOf,
    /// `Number.prototype.toExponential`.
    NumberToExponential,
    /// `Number.prototype.toFixed`.
    NumberToFixed,
    /// `Number.prototype.toPrecision`.
    NumberToPrecision,
    /// `Object.assign`.
    ObjectAssign,
    /// The `Object` constructor.
    ObjectConstruct,
    /// `Object.create`.
    ObjectCreate,
    /// `Object.defineProperty`.
    ObjectDefineProperty,
    /// `Object.entries`.
    ObjectEntries,
    /// The keys that `for-in` visits.
    ObjectEnumerableOwnKeys,
    /// `Object.freeze`.
    ObjectFreeze,
    /// `Object.fromEntries`.
    ObjectFromEntries,
    /// `Object.getOwnPropertyDescriptor`.
    ObjectGetOwnPropertyDescriptor,
    /// `Object.getOwnPropertyNames`.
    ObjectGetOwnPropertyNames,
    /// `Object.getOwnPropertySymbols`.
    ObjectGetOwnPropertySymbols,
    /// `Object.getPrototypeOf`.
    ObjectGetPrototypeOf,
    /// `Object.hasOwn`.
    ObjectHasOwn,
    /// `Object.prototype.hasOwnProperty`.
    ObjectHasOwnProperty,
    /// `Object.is`.
    ObjectIs,
    /// `Object.isExtensible`.
    ObjectIsExtensible,
    /// `Object.isFrozen`.
    ObjectIsFrozen,
    /// `Object.isSealed`.
    ObjectIsSealed,
    /// `Object.keys`.
    ObjectKeys,
    /// `Object.preventExtensions`.
    ObjectPreventExtensions,
    /// `Object.prototype.propertyIsEnumerable`.
    ObjectProtoPropertyIsEnumerable,
    /// `Object.prototype.toString`.
    ObjectProtoToString,
    /// `Object.prototype.valueOf`.
    ObjectProtoValueOf,
    /// `Object.seal`.
    ObjectSeal,
    /// `Object.setPrototypeOf`.
    ObjectSetPrototypeOf,
    /// `Object.values`.
    ObjectValues,
    /// `Promise.all`.
    PromiseAll,
    /// `Promise.prototype.catch`.
    PromiseCatch,
    /// The `Promise` constructor.
    PromiseConstruct,
    /// `Promise.prototype.finally`.
    PromiseFinally,
    /// `Promise.race`.
    PromiseRace,
    /// `Promise.reject`.
    PromiseReject,
    /// `Promise.resolve`.
    PromiseResolve,
    /// `Promise.prototype.then`.
    PromiseThen,
    /// The `Proxy` constructor.
    ProxyConstruct,
    /// `Proxy.revocable`.
    ProxyRevocable,
    /// `queueMicrotask`.
    QueueMicrotask,
    /// `RangeError`.
    RangeErrorCreate,
    /// `ReferenceError`.
    ReferenceErrorCreate,
    /// `RegExp.prototype.compile`.
    RegExpCompile,
    /// The `RegExp` constructor.
    RegExpConstruct,
    /// `RegExp.prototype.exec`.
    RegExpExec,
    /// `RegExp.prototype.test`.
    RegExpTest,
    /// `RegExp.prototype.toString`.
    RegExpToString,
    /// `Set.prototype.add`.
    SetAdd,
    /// `Set.prototype.clear`.
    SetClear,
    /// The `Set` constructor.
    SetConstruct,
    /// `Set.prototype.delete`.
    SetDelete,
    /// `Set.prototype.entries`.
    SetEntries,
    /// `Set.prototype.forEach`.
    SetForEach,
    /// `Set.prototype.has`.
    SetHas,
    /// `Set.prototype[Symbol.iterator]`.
    SetIterator,
    /// `Set.prototype.keys`.
    SetKeys,
    /// `Set.prototype.size`.
    SetSize,
    /// `Set.prototype.values`.
    SetValues,
    /// `String.prototype.at`.
    StringAt,
    /// `String.prototype.charAt`.
    StringCharAt,
    /// `String.prototype.charCodeAt`.
    StringCharCodeAt,
    /// `String.prototype.codePointAt`.
    StringCodePointAt,
    /// `String.prototype.concat`.
    StringConcat,
    /// The `String` constructor.
    StringConstruct,
    /// `String.prototype.endsWith`.
    StringEndsWith,
    /// `String.fromCharCode`.
    StringFromCharCode,
    /// `String.fromCodePoint`.
    StringFromCodePoint,
    /// `String.prototype.includes`.
    StringIncludes,
    /// `String.prototype.indexOf`.
    StringIndexOf,
    /// `String.prototype.lastIndexOf`.
    StringLastIndexOf,
    /// `String.prototype.localeCompare`.
    StringLocaleCompare,
    /// `String.prototype.match`.
    StringMatch,
    /// `String.prototype.padEnd`.
    StringPadEnd,
    /// `String.prototype.padStart`.
    StringPadStart,
    /// `String.prototype.repeat`.
    StringRepeat,
    /// `String.prototype.replace`.
    StringReplace,
    /// `String.prototype.replaceAll`.
    StringReplaceAll,
    /// `String.prototype.search`.
    StringSearch,
    /// `String.prototype.slice`.
    StringSlice,
    /// `String.prototype.split`.
    StringSplit,
    /// `String.prototype.startsWith`.
    StringStartsWith,
    /// `String.prototype.substr`.
    StringSubstr,
    /// `String.prototype.substring`.
    StringSubstring,
    /// `String.prototype.toLowerCase`.
    StringToLowerCase,
    /// `String.prototype.toString`.
    StringToString,
    /// `String.prototype.toUpperCase`.
    StringToUpperCase,
    /// `String.prototype.trim`.
    StringTrim,
    /// `String.prototype.trimEnd`.
    StringTrimEnd,
    /// `String.prototype.trimStart`.
    StringTrimStart,
    /// `String.prototype.valueOf`.
    StringValueOf,
    /// The `Symbol` constructor.
    SymbolConstruct,
    /// `Symbol.for`.
    SymbolFor,
    /// `Symbol.keyFor`.
    SymbolKeyFor,
    /// `Symbol.prototype.description`.
    SymbolProtoDescription,
    /// `Symbol.prototype.toString`.
    SymbolProtoToString,
    /// `Symbol.prototype.valueOf`.
    SymbolProtoValueOf,
    /// `Symbol.asyncIterator`.
    SymbolWellKnownAsyncIterator,
    /// `Symbol.hasInstance`.
    SymbolWellKnownHasInstance,
    /// `Symbol.isConcatSpreadable`.
    SymbolWellKnownIsConcatSpreadable,
    /// `Symbol.iterator`.
    SymbolWellKnownIterator,
    /// `Symbol.match`.
    SymbolWellKnownMatch,
    /// `Symbol.replace`.
    SymbolWellKnownReplace,
    /// `Symbol.search`.
    SymbolWellKnownSearch,
    /// `Symbol.species`.
    SymbolWellKnownSpecies,
    /// `Symbol.split`.
    SymbolWellKnownSplit,
    /// `Symbol.toPrimitive`.
    SymbolWellKnownToPrimitive,
    /// `Symbol.toStringTag`.
    SymbolWellKnownToStringTag,
    /// `Symbol.unscopables`.
    SymbolWellKnownUnscopables,
    /// `SyntaxError`.
    SyntaxErrorCreate,
    /// `TypeError`.
    TypeErrorCreate,
    /// `URIError`.
    UriErrorCreate,
}

/// The `length` of a built-in function, `None` where none is installed.
pub open spec fn arity(id: NativeId) -> Option<u32> {
    match id {
        NativeId::ArrayFlat | NativeId::ArrayIterator | NativeId::ArrayIteratorEntries
        | NativeId::ArrayIteratorKeys | NativeId::ArrayOf | NativeId::ArrayPop
        | NativeId::ArrayReverse | NativeId::ArrayShift | NativeId::ArrayToString
        | NativeId::BooleanProtoToString | NativeId::BooleanProtoValueOf
        | NativeId::FunctionProtoToString | NativeId::MathRandom | NativeId::NumberProtoValueOf
        | NativeId::ObjectProtoToString | NativeId::ObjectProtoValueOf
        | NativeId::StringToLowerCase | NativeId::StringToString | NativeId::StringToUpperCase
        | NativeId::StringTrim | NativeId::StringTrimEnd | NativeId::StringTrimStart
        | NativeId::StringValueOf | NativeId::SymbolProtoToString | NativeId::SymbolProtoValueOf => Some(0),
        NativeId::ArrayAt | NativeId::ArrayConcat | NativeId::ArrayEvery | NativeId::ArrayFill
        | NativeId::ArrayFilter | NativeId::ArrayFind | NativeId::ArrayFindIndex
        | NativeId::ArrayFindLast | NativeId::ArrayFindLastIndex | NativeId::ArrayFlatMap
        | NativeId::ArrayForEach | NativeId::ArrayFrom | NativeId::ArrayIncludes
        | NativeId::ArrayIndexOf | NativeId::ArrayIsArray | NativeId::ArrayJoin
        | NativeId::ArrayLastIndexOf | NativeId::ArrayMap | NativeId::ArrayPush
        | NativeId::ArrayReduce | NativeId::ArrayReduceRight | NativeId::ArraySome
        | NativeId::ArraySort | NativeId::ArrayUnshift | NativeId::GlobalDecodeUri
        | NativeId::GlobalDecodeUriComponent | NativeId::GlobalEncodeUri
        | NativeId::GlobalEncodeUriComponent | NativeId::GlobalIsFinite | NativeId::GlobalIsNaN
        | NativeId::GlobalParseFloat | NativeId::MathAbs | NativeId::MathAcos
        | NativeId::MathAcosh | NativeId::MathAsin | NativeId::MathAsinh | NativeId::MathAtan
        | NativeId::MathAtanh | NativeId::MathCbrt | NativeId::MathCeil | NativeId::MathClz32
        | NativeId::MathCos | NativeId::MathCosh | NativeId::MathExp | NativeId::MathExpm1
        | NativeId::MathFloor | NativeId::MathFround | NativeId::MathLog | NativeId::MathLog10
        | NativeId::MathLog1p | NativeId::MathLog2 | NativeId::MathRound | NativeId::MathSign
        | NativeId::MathSin | NativeId::MathSinh | NativeId::MathSqrt | NativeId::MathTan
        | NativeId::MathTanh | NativeId::MathTrunc | NativeId::NumberIsFinite
        | NativeId::NumberIsInteger | NativeId::NumberIsNan | NativeId::NumberIsSafeInteger
        | NativeId::NumberParseFloat | NativeId::NumberProtoToString
        | NativeId::NumberToExponential | NativeId::NumberToFixed | NativeId::NumberToPrecision
        | NativeId::ObjectCreate | NativeId::ObjectEntries | NativeId::ObjectFreeze
        | NativeId::ObjectFromEntries | NativeId::ObjectGetOwnPropertyNames
        | NativeId::ObjectGetOwnPropertySymbols | NativeId::ObjectProtoPropertyIsEnumerable
        | NativeId::ObjectGetPrototypeOf | NativeId::ObjectHasOwnProperty
        | NativeId::ObjectIsExtensible | NativeId::ObjectIsFrozen | NativeId::ObjectIsSealed
        | NativeId::ObjectKeys | NativeId::ObjectPreventExtensions | NativeId::ObjectSeal
        | NativeId::ObjectValues | NativeId::StringAt | NativeId::StringCharAt
        | NativeId::StringCharCodeAt | NativeId::StringCodePointAt | NativeId::StringConcat
        | NativeId::StringEndsWith | NativeId::StringFromCharCode
        | NativeId::StringFromCodePoint | NativeId::StringIncludes | NativeId::StringIndexOf
        | NativeId::StringLastIndexOf | NativeId::StringLocaleCompare | NativeId::StringPadEnd
        | NativeId::StringPadStart | NativeId::StringRepeat | NativeId::StringStartsWith
        | NativeId::SymbolFor | NativeId::SymbolKeyFor => Some(1),
        NativeId::ArrayCopyWithin | NativeId::ArraySlice | NativeId::ArraySplice
        | NativeId::GlobalParseInt | NativeId::JsonParse | NativeId::MathAtan2
        | NativeId::MathHypot | NativeId::MathImul | NativeId::MathMax | NativeId::MathMin
        | NativeId::MathPow | NativeId::NumberParseInt | NativeId::ObjectAssign
        | NativeId::ObjectGetOwnPropertyDescriptor | NativeId::ObjectHasOwn | NativeId::ObjectIs
        | NativeId::ObjectSetPrototypeOf | NativeId::StringReplaceAll | NativeId::StringSlice
        | NativeId::StringSubstr | NativeId::StringSubstring | NativeId::ProxyRevocable => Some(2),
        NativeId::JsonStringify | NativeId::ObjectDefineProperty => Some(3),
        _ => None,
    }
}

/// The `length` of a built-in function, `None` where none is installed.
pub fn builtin_length(id: NativeId) -> (r: Option<u32>)
    ensures
        r == arity(id),
        r matches Some(n) ==> n <= 3,
{
    match id {
        NativeId::ArrayFlat | NativeId::ArrayIterator | NativeId::ArrayIteratorEntries
        | NativeId::ArrayIteratorKeys | NativeId::ArrayOf | NativeId::ArrayPop
        | NativeId::ArrayReverse | NativeId::ArrayShift | NativeId::ArrayToString
        | NativeId::BooleanProtoToString | NativeId::BooleanProtoValueOf
        | NativeId::FunctionProtoToString | NativeId::MathRandom | NativeId::NumberProtoValueOf
        | NativeId::ObjectProtoToString | NativeId::ObjectProtoValueOf
        | NativeId::StringToLowerCase | NativeId::StringToString | NativeId::StringToUpperCase
        | NativeId::StringTrim | NativeId::StringTrimEnd | NativeId::StringTrimStart
        | NativeId::StringValueOf | NativeId::SymbolProtoToString | NativeId::SymbolProtoValueOf => Some(0),
        NativeId::ArrayAt | NativeId::ArrayConcat | NativeId::ArrayEvery | NativeId::ArrayFill
        | NativeId::ArrayFilter | NativeId::ArrayFind | NativeId::ArrayFindIndex
        | NativeId::ArrayFindLast | NativeId::ArrayFindLastIndex | NativeId::ArrayFlatMap
        | NativeId::ArrayForEach | NativeId::ArrayFrom | NativeId::ArrayIncludes
        | NativeId::ArrayIndexOf | NativeId::ArrayIsArray | NativeId::ArrayJoin
        | NativeId::ArrayLastIndexOf | NativeId::ArrayMap | NativeId::ArrayPush
        | NativeId::ArrayReduce | NativeId::ArrayReduceRight | NativeId::ArraySome
        | NativeId::ArraySort | NativeId::ArrayUnshift | NativeId::GlobalDecodeUri
        | NativeId::GlobalDecodeUriComponent | NativeId::GlobalEncodeUri
        | NativeId::GlobalEncodeUriComponent | NativeId::GlobalIsFinite | NativeId::GlobalIsNaN
        | NativeId::GlobalParseFloat | NativeId::MathAbs | NativeId::MathAcos
        | NativeId::MathAcosh | NativeId::MathAsin | NativeId::MathAsinh | NativeId::MathAtan
        | NativeId::MathAtanh | NativeId::MathCbrt | NativeId::MathCeil | NativeId::MathClz32
        | NativeId::MathCos | NativeId::MathCosh | NativeId::MathExp | NativeId::MathExpm1
        | NativeId::MathFloor | NativeId::MathFround | NativeId::MathLog | NativeId::MathLog10
        | NativeId::MathLog1p | NativeId::MathLog2 | NativeId::MathRound | NativeId::MathSign
        | NativeId::MathSin | NativeId::MathSinh | NativeId::MathSqrt | NativeId::MathTan
        | NativeId::MathTanh | NativeId::MathTrunc | NativeId::NumberIsFinite
        | NativeId::NumberIsInteger | NativeId::NumberIsNan | NativeId::NumberIsSafeInteger
        | NativeId::NumberParseFloat | NativeId::NumberProtoToString
        | NativeId::NumberToExponential | NativeId::NumberToFixed | NativeId::NumberToPrecision
        | NativeId::ObjectCreate | NativeId::ObjectEntries | NativeId::ObjectFreeze
        | NativeId::ObjectFromEntries | NativeId::ObjectGetOwnPropertyNames
        | NativeId::ObjectGetOwnPropertySymbols | NativeId::ObjectProtoPropertyIsEnumerable
        | NativeId::ObjectGetPrototypeOf | NativeId::ObjectHasOwnProperty
        | NativeId::ObjectIsExtensible | NativeId::ObjectIsFrozen | NativeId::ObjectIsSealed
        | NativeId::ObjectKeys | NativeId::ObjectPreventExtensions | NativeId::ObjectSeal
        | NativeId::ObjectValues | NativeId::StringAt | NativeId::StringCharAt
        | NativeId::StringCharCodeAt | NativeId::StringCodePointAt | NativeId::StringConcat
        | NativeId::StringEndsWith | NativeId::StringFromCharCode
        | NativeId::StringFromCodePoint | NativeId::StringIncludes | NativeId::StringIndexOf
        | NativeId::StringLastIndexOf | NativeId::StringLocaleCompare | NativeId::StringPadEnd
        | NativeId::StringPadStart | NativeId::StringRepeat | NativeId::StringStartsWith
        | NativeId::SymbolFor | NativeId::SymbolKeyFor => Some(1),
        NativeId::ArrayCopyWithin | NativeId::ArraySlice | NativeId::ArraySplice
        | NativeId::GlobalParseInt | NativeId::JsonParse | NativeId::MathAtan2
        | NativeId::MathHypot | NativeId::MathImul | NativeId::MathMax | NativeId::MathMin
        | NativeId::MathPow | NativeId::NumberParseInt | NativeId::ObjectAssign
        | NativeId::ObjectGetOwnPropertyDescriptor | NativeId::ObjectHasOwn | NativeId::ObjectIs
        | NativeId::ObjectSetPrototypeOf | NativeId::StringReplaceAll | NativeId::StringSlice
        | NativeId::StringSubstr | NativeId::StringSubstring | NativeId::ProxyRevocable => Some(2),
        NativeId::JsonStringify | NativeId::ObjectDefineProperty => Some(3),
        _ => None,
    }
}

/// Where a built-in is installed.
#[derive(Clone, Copy, PartialEq, Eq, Structural, Debug)]
pub enum Target {
    /// The global object.
    Global,
    /// `Math`.
    MathObject,
    /// The `Number` constructor.
    NumberCtor,
    /// `Number.prototype`.
    NumberProto,
    /// The `Array` constructor.
    ArrayCtor,
    /// `Array.prototype`.
    ArrayProto,
    /// The `Object` constructor.
    ObjectCtor,
    /// `Object.prototype`.
    ObjectProto,
    /// `Function.prototype`.
    FunctionProto,
    /// `String.prototype`.
    StringProto,
    /// The `String` constructor.
    StringCtor,
    /// `JSON`.
    JsonObject,
    /// `Boolean.prototype`.
    BooleanProto,
    /// The `Symbol` constructor.
    SymbolCtor,
    /// `Symbol.prototype`.
    SymbolProto,
    /// The `Proxy` constructor.
    ProxyCtor,
}

/// A built-in property: a function, or the constant that a function computes.
#[derive(Clone, Copy)]
pub struct Install {
    /// Where it is installed.
    pub target: Target,
    /// Its name.
    pub name: &'static str,
    /// The function.
    pub id: NativeId,
    /// The `length` that is declared for it.
    pub length: Option<u32>,
    /// Whether the property is the constant that the function computes.
    pub constant: bool,
}

/// A function of a target.
pub open spec fn function(target: Target, name: &'static str, id: NativeId, length: Option<u32>) -> Install {
    Install { target, name, id, length, constant: false }
}

/// A constant of a target.
pub open spec fn constant(target: Target, name: &'static str, id: NativeId) -> Install {
    Install { target, name, id, length: None, constant: true }
}

/// The built-in properties of each target, in the order of their installation.
pub open spec fn builtin_entries() -> Seq<Install> {
    let s0 = with_global(seq![]);
    let s1 = with_math_object(s0);
    let s2 = with_math_object_constants(s1);
    let s3 = with_number_ctor(s2);
    let s4 = with_number_ctor_constants(s3);
    let s5 = with_number_proto(s4);
    let s6 = with_array_ctor(s5);
    let s7 = with_array_proto(s6);
    let s8 = with_array_ctor_2(s7);
    let s9 = with_object_ctor(s8);
    let s10 = with_object_proto(s9);
    let s11 = with_function_proto(s10);
    let s12 = with_string_proto(s11);
    let s13 = with_string_ctor(s12);
    let s14 = with_json_object(s13);
    let s15 = with_boolean_proto(s14);
    let s16 = with_symbol_ctor(s15);
    let s17 = with_symbol_proto(s16);
    let s18 = with_proxy_ctor(s17);
    s18
}

/// The built-in properties of each target, in the order of their installation. What
/// is declared as a function's length is its arity.
pub fn builtin_table() -> (r: Vec<Install>)
    ensures
        r@ == builtin_entries(),
        forall|i: int|
            0 <= i < r@.len() && !(#[trigger] r@[i]).constant ==> r@[i].length == arity(r@[i].id),
{
    let mut t: Vec<Install> = Vec::new();
    install_global(&mut t);
    install_math_object(&mut t);
    install_math_object_constants(&mut t);
    install_number_ctor(&mut t);
    install_number_ctor_constants(&mut t);
    install_number_proto(&mut t);
    install_array_ctor(&mut t);
    install_array_proto(&mut t);
    install_array_ctor_2(&mut t);
    install_object_ctor(&mut t);
    install_object_proto(&mut t);
    install_function_proto(&mut t);
    install_string_proto(&mut t);
    install_string_ctor(&mut t);
    install_json_object(&mut t);
    install_boolean_proto(&mut t);
    install_symbol_ctor(&mut t);
    install_symbol_proto(&mut t);
    install_proxy_ctor(&mut t);
    t
}

/// Whether a table agrees with [`arity`].
spec fn agrees(s: Seq<Install>) -> bool {
    &&& forall|i: int|
        0 <= i < s.len() && !(#[trigger] s[i]).constant ==> s[i].length == arity(s[i].id)
    &&& forall|i: int| 0 <= i < s.len() && (#[trigger] s[i]).constant ==> s[i].length is None
}

/// Adds a function.
fn put(t: &mut Vec<Install>, target: Target, name: &'static str, id: NativeId, length: Option<u32>)
    requires
        agrees(old(t)@),
        length == arity(id),
    ensures
        agrees(final(t)@),
        final(t)@ == old(t)@.push(Install { target, name, id, length, constant: false }),
{
    t.push(Install { target, name, id, length, constant: false });
}

/// Adds a constant.
fn put_constant(t: &mut Vec<Install>, target: Target, name: &'static str, id: NativeId)
    requires
        agrees(old(t)@),
    ensures
        agrees(final(t)@),
        final(t)@ == old(t)@.push(Install { target, name, id, length: None, constant: true }),
{
    t.push(Install { target, name, id, length: None, constant: true });
}

/// Functions of the global object, behind `s`.
pub open spec fn with_global(s: Seq<Install>) -> Seq<Install> {
    s.push(function(Target::Global, "isNaN", NativeId::GlobalIsNaN, Some(1)))
     .push(function(Target::Global, "isFinite", NativeId::GlobalIsFinite, Some(1)))
     .push(function(Target::Global, "parseInt", NativeId::GlobalParseInt, Some(2)))
     .push(function(Target::Global, "parseFloat", NativeId::GlobalParseFloat, Some(1)))
     .push(function(Target::Global, "encodeURI", NativeId::GlobalEncodeUri, Some(1)))
     .push(function(Target::Global, "decodeURI", NativeId::GlobalDecodeUri, Some(1)))
     .push(function(Target::Global, "encodeURIComponent", NativeId::GlobalEncodeUriComponent, Some(1)))
     .push(function(Target::Global, "decodeURIComponent", NativeId::GlobalDecodeUriComponent, Some(1)))
}

/// Functions of the global object.
fn install_global(t: &mut Vec<Install>)
    requires
        agrees(old(t)@),
    ensures
        agrees(final(t)@),
        final(t)@ == with_global(old(t)@),
{
    put(t, Target::Global, "isNaN", NativeId::GlobalIsNaN, Some(1));
    put(t, Target::Global, "isFinite", NativeId::GlobalIsFinite, Some(1));
    put(t, Target::Global, "parseInt", NativeId::GlobalParseInt, Some(2));
    put(t, Target::Global, "parseFloat", NativeId::GlobalParseFloat, Some(1));
    put(t, Target::Global, "encodeURI", NativeId::GlobalEncodeUri, Some(1));
    put(t, Target::Global, "decodeURI", NativeId::GlobalDecodeUri, Some(1));
    put(t, Target::Global, "encodeURIComponent", NativeId::GlobalEncodeUriComponent, Some(1));
    put(t, Target::Global, "decodeURIComponent", NativeId::GlobalDecodeUriComponent, Some(1));
}

/// Functions of `Math`, behind `s`.
pub open spec fn with_math_object(s: Seq<Install>) -> Seq<Install> {
    s.push(function(Target::MathObject, "abs", NativeId::MathAbs, Some(1)))
     .push(function(Target::MathObject, "floor", NativeId::MathFloor, Some(1)))
     .push(function(Target::MathObject, "ceil", NativeId::MathCeil, Some(1)))
     .push(function(Target::MathObject, "trunc", NativeId::MathTrunc, Some(1)))
     .push(function(Target::MathObject, "pow", NativeId::MathPow, Some(2)))
     .push(function(Target::MathObject, "max", NativeId::MathMax, Some(2)))
     .push(function(Target::MathObject, "min", NativeId::MathMin, Some(2)))
     .push(function(Target::MathObject, "random", NativeId::MathRandom, Some(0)))
     .push(function(Target::MathObject, "round", NativeId::MathRound, Some(1)))
     .push(function(Target::MathObject, "sqrt", NativeId::MathSqrt, Some(1)))
     .push(function(Target::MathObject, "sign", NativeId::MathSign, Some(1)))
     .push(function(Target::MathObject, "cbrt", NativeId::MathCbrt, Some(1)))
     .push(function(Target::MathObject, "exp", NativeId::MathExp, Some(1)))
     .push(function(Target::MathObject, "expm1", NativeId::MathExpm1, Some(1)))
     .push(function(Target::MathObject, "log", NativeId::MathLog, Some(1)))
     .push(function(Target::MathObject, "log1p", NativeId::MathLog1p, Some(1)))
     .push(function(Target::MathObject, "log2", NativeId::MathLog2, Some(1)))
     .push(function(Target::MathObject, "log10", NativeId::MathLog10, Some(1)))
     .push(function(Target::MathObject, "sin", NativeId::MathSin, Some(1)))
     .push(function(Target::MathObject, "cos", NativeId::MathCos, Some(1)))
     .push(function(Target::MathObject, "tan", NativeId::MathTan, Some(1)))
     .push(function(Target::MathObject, "asin", NativeId::MathAsin, Some(1)))
     .push(function(Target::MathObject, "acos", NativeId::MathAcos, Some(1)))
     .push(function(Target::MathObject, "atan", NativeId::MathAtan, Some(1)))
     .push(function(Target::MathObject, "atan2", NativeId::MathAtan2, Some(2)))
     .push(function(Target::MathObject, "sinh", NativeId::MathSinh, Some(1)))
     .push(function(Target::MathObject, "cosh", NativeId::MathCosh, Some(1)))
     .push(function(Target::MathObject, "tanh", NativeId::MathTanh, Some(1)))
     .push(function(Target::MathObject, "asinh", NativeId::MathAsinh, Some(1)))
     .push(function(Target::MathObject, "acosh", NativeId::MathAcosh, Some(1)))
     .push(function(Target::MathObject, "atanh", NativeId::MathAtanh, Some(1)))
     .push(function(Target::MathObject, "hypot", NativeId::MathHypot, Some(2)))
     .push(function(Target::MathObject, "clz32", NativeId::MathClz32, Some(1)))
     .push(function(Target::MathObject, "imul", NativeId::MathImul, Some(2)))
     .push(function(Target::MathObject, "fround", NativeId::MathFround, Some(1)))
}

/// Functions of `Math`.
fn install_math_object(t: &mut Vec<Install>)
    requires
        agrees(old(t)@),
    ensures
        agrees(final(t)@),
        final(t)@ == with_math_object(old(t)@),
{
    put(t, Target::MathObject, "abs", NativeId::MathAbs, Some(1));
    put(t, Target::MathObject, "floor", NativeId::MathFloor, Some(1));
    put(t, Target::MathObject, "ceil", NativeId::MathCeil, Some(1));
    put(t, Target::MathObject, "trunc", NativeId::MathTrunc, Some(1));
    put(t, Target::MathObject, "pow", NativeId::MathPow, Some(2));
    put(t, Target::MathObject, "max", NativeId::MathMax, Some(2));
    put(t, Target::MathObject, "min", NativeId::MathMin, Some(2));
    put(t, Target::MathObject, "random", NativeId::MathRandom, Some(0));
    put(t, Target::MathObject, "round", NativeId::MathRound, Some(1));
    put(t, Target::MathObject, "sqrt", NativeId::MathSqrt, Some(1));
    put(t, Target::MathObject, "sign", NativeId::MathSign, Some(1));
    put(t, Target::MathObject, "cbrt", NativeId::MathCbrt, Some(1));
    put(t, Target::MathObject, "exp", NativeId::MathExp, Some(1));
    put(t, Target::MathObject, "expm1", NativeId::MathExpm1, Some(1));
    put(t, Target::MathObject, "log", NativeId::MathLog, Some(1));
    put(t, Target::MathObject, "log1p", NativeId::MathLog1p, Some(1));
    put(t, Target::MathObject, "log2", NativeId::MathLog2, Some(1));
    put(t, Target::MathObject, "log10", NativeId::MathLog10, Some(1));
    put(t, Target::MathObject, "sin", NativeId::MathSin, Some(1));
    put(t, Target::MathObject, "cos", NativeId::MathCos, Some(1));
    put(t, Target::MathObject, "tan", NativeId::MathTan, Some(1));
    put(t, Target::MathObject, "asin", NativeId::MathAsin, Some(1));
    put(t, Target::MathObject, "acos", NativeId::MathAcos, Some(1));
    put(t, Target::MathObject, "atan", NativeId::MathAtan, Some(1));
    put(t, Target::MathObject, "atan2", NativeId::MathAtan2, Some(2));
    put(t, Target::MathObject, "sinh", NativeId::MathSinh, Some(1));
    put(t, Target::MathObject, "cosh", NativeId::MathCosh, Some(1));
    put(t, Target::MathObject, "tanh", NativeId::MathTanh, Some(1));
    put(t, Target::MathObject, "asinh", NativeId::MathAsinh, Some(1));
    put(t, Target::MathObject, "acosh", NativeId::MathAcosh, Some(1));
    put(t, Target::MathObject, "atanh", NativeId::MathAtanh, Some(1));
    put(t, Target::MathObject, "hypot", NativeId::MathHypot, Some(2));
    put(t, Target::MathObject, "clz32", NativeId::MathClz32, Some(1));
    put(t, Target::MathObject, "imul", NativeId::MathImul, Some(2));
    put(t, Target::MathObject, "fround", NativeId::MathFround, Some(1));
}

/// Constants of `Math`, behind `s`.
pub open spec fn with_math_object_constants(s: Seq<Install>) -> Seq<Install> {
    s.push(constant(Target::MathObject, "E", NativeId::MathConstE))
     .push(constant(Target::MathObject, "LN2", NativeId::MathConstLn2))
     .push(constant(Target::MathObject, "LN10", NativeId::MathConstLn10))
     .push(constant(Target::MathObject, "LOG2E", NativeId::MathConstLog2e))
     .push(constant(Target::MathObject, "LOG10E", NativeId::MathConstLog10e))
     .push(constant(Target::MathObject, "PI", NativeId::MathConstPi))
     .push(constant(Target::MathObject, "SQRT1_2", NativeId::MathConstSqrt1_2))
     .push(constant(Target::MathObject, "SQRT2", NativeId::MathConstSqrt2))
}

/// Constants of `Math`.
fn install_math_object_constants(t: &mut Vec<Install>)
    requires
        agrees(old(t)@),
    ensures
        agrees(final(t)@),
        final(t)@ == with_math_object_constants(old(t)@),
{
    put_constant(t, Target::MathObject, "E", NativeId::MathConstE);
    put_constant(t, Target::MathObject, "LN2", NativeId::MathConstLn2);
    put_constant(t, Target::MathObject, "LN10", NativeId::MathConstLn10);
    put_constant(t, Target::MathObject, "LOG2E", NativeId::MathConstLog2e);
    put_constant(t, Target::MathObject, "LOG10E", NativeId::MathConstLog10e);
    put_constant(t, Target::MathObject, "PI", NativeId::MathConstPi);
    put_constant(t, Target::MathObject, "SQRT1_2", NativeId::MathConstSqrt1_2);
    put_constant(t, Target::MathObject, "SQRT2", NativeId::MathConstSqrt2);
}

/// Functions of the `Number` constructor, behind `s`.
pub open spec fn with_number_ctor(s: Seq<Install>) -> Seq<Install> {
    s.push(function(Target::NumberCtor, "isNaN", NativeId::NumberIsNan, Some(1)))
     .push(function(Target::NumberCtor, "isFinite", NativeId::NumberIsFinite, Some(1)))
     .push(function(Target::NumberCtor, "parseInt", NativeId::NumberParseInt, Some(2)))
     .push(function(Target::NumberCtor, "parseFloat", NativeId::NumberParseFloat, Some(1)))
     .push(function(Target::NumberCtor, "isInteger", NativeId::NumberIsInteger, Some(1)))
     .push(function(Target::NumberCtor, "isSafeInteger", NativeId::NumberIsSafeInteger, Some(1)))
}

/// Functions of the `Number` constructor.
fn install_number_ctor(t: &mut Vec<Install>)
    requires
        agrees(old(t)@),
    ensures
        agrees(final(t)@),
        final(t)@ == with_number_ctor(old(t)@),
{
    put(t, Target::NumberCtor, "isNaN", NativeId::NumberIsNan, Some(1));
    put(t, Target::NumberCtor, "isFinite", NativeId::NumberIsFinite, Some(1));
    put(t, Target::NumberCtor, "parseInt", NativeId::NumberParseInt, Some(2));
    put(t, Target::NumberCtor, "parseFloat", NativeId::NumberParseFloat, Some(1));
    put(t, Target::NumberCtor, "isInteger", NativeId::NumberIsInteger, Some(1));
    put(t, Target::NumberCtor, "isSafeInteger", NativeId::NumberIsSafeInteger, Some(1));
}

/// Constants of the `Number` constructor, behind `s`.
pub open spec fn with_number_ctor_constants(s: Seq<Install>) -> Seq<Install> {
    s.push(constant(Target::NumberCtor, "MAX_SAFE_INTEGER", NativeId::NumberConstMaxSafeInteger))
     .push(constant(Target::NumberCtor, "MIN_SAFE_INTEGER", NativeId::NumberConstMinSafeInteger))
     .push(constant(Target::NumberCtor, "EPSILON", NativeId::NumberConstEpsilon))
     .push(constant(Target::NumberCtor, "MAX_VALUE", NativeId::NumberConstMaxValue))
     .push(constant(Target::NumberCtor, "MIN_VALUE", NativeId::NumberConstMinValue))
     .push(constant(Target::NumberCtor, "POSITIVE_INFINITY", NativeId::NumberConstPositiveInfinity))
     .push(constant(Target::NumberCtor, "NEGATIVE_INFINITY", NativeId::NumberConstNegativeInfinity))
     .push(constant(Target::NumberCtor, "NaN", NativeId::NumberConstNaN))
}

/// Constants of the `Number` constructor.
fn install_number_ctor_constants(t: &mut Vec<Install>)
    requires
        agrees(old(t)@),
    ensures
        agrees(final(t)@),
        final(t)@ == with_number_ctor_constants(old(t)@),
{
    put_constant(t, Target::NumberCtor, "MAX_SAFE_INTEGER", NativeId::NumberConstMaxSafeInteger);
    put_constant(t, Target::NumberCtor, "MIN_SAFE_INTEGER", NativeId::NumberConstMinSafeInteger);
    put_constant(t, Target::NumberCtor, "EPSILON", NativeId::NumberConstEpsilon);
    put_constant(t, Target::NumberCtor, "MAX_VALUE", NativeId::NumberConstMaxValue);
    put_constant(t, Target::NumberCtor, "MIN_VALUE", NativeId::NumberConstMinValue);
    put_constant(t, Target::NumberCtor, "POSITIVE_INFINITY", NativeId::NumberConstPositiveInfinity);
    put_constant(t, Target::NumberCtor, "NEGATIVE_INFINITY", NativeId::NumberConstNegativeInfinity);
    put_constant(t, Target::NumberCtor, "NaN", NativeId::NumberConstNaN);
}

/// Functions of `Number.prototype`, behind `s`.
pub open spec fn with_number_proto(s: Seq<Install>) -> Seq<Install> {
    s.push(function(Target::NumberProto, "toString", NativeId::NumberProtoToString, Some(1)))
     .push(function(Target::NumberProto, "toFixed", NativeId::NumberToFixed, Some(1)))
     .push(function(Target::NumberProto, "toPrecision", NativeId::NumberToPrecision, Some(1)))
     .push(function(Target::NumberProto, "toExponential", NativeId::NumberToExponential, Some(1)))
     .push(function(Target::NumberProto, "valueOf", NativeId::NumberProtoValueOf, Some(0)))
}

/// Functions of `Number.prototype`.
fn install_number_proto(t: &mut Vec<Install>)
    requires
        agrees(old(t)@),
    ensures
        agrees(final(t)@),
        final(t)@ == with_number_proto(old(t)@),
{
    put(t, Target::NumberProto, "toString", NativeId::NumberProtoToString, Some(1));
    put(t, Target::NumberProto, "toFixed", NativeId::NumberToFixed, Some(1));
    put(t, Target::NumberProto, "toPrecision", NativeId::NumberToPrecision, Some(1));
    put(t, Target::NumberProto, "toExponential", NativeId::NumberToExponential, Some(1));
    put(t, Target::NumberProto, "valueOf", NativeId::NumberProtoValueOf, Some(0));
}

/// Functions of the `Array` constructor, behind `s`.
pub open spec fn with_array_ctor(s: Seq<Install>) -> Seq<Install> {
    s.push(function(Target::ArrayCtor, "isArray", NativeId::ArrayIsArray, Some(1)))
}

/// Functions of the `Array` constructor.
fn install_array_ctor(t: &mut Vec<Install>)
    requires
        agrees(old(t)@),
    ensures
        agrees(final(t)@),
        final(t)@ == with_array_ctor(old(t)@),
{
    put(t, Target::ArrayCtor, "isArray", NativeId::ArrayIsArray, Some(1));
}

/// Functions of `Array.prototype`, behind `s`.
pub open spec fn with_array_proto(s: Seq<Install>) -> Seq<Install> {
    s.push(function(Target::ArrayProto, "push", NativeId::ArrayPush, Some(1)))
     .push(function(Target::ArrayProto, "pop", NativeId::ArrayPop, Some(0)))
     .push(function(Target::ArrayProto, "join", NativeId::ArrayJoin, Some(1)))
     .push(function(Target::ArrayProto, "slice", NativeId::ArraySlice, Some(2)))
     .push(function(Target::ArrayProto, "sort", NativeId::ArraySort, Some(1)))
     .push(function(Target::ArrayProto, "entries", NativeId::ArrayIteratorEntries, Some(0)))
     .push(function(Target::ArrayProto, "keys", NativeId::ArrayIteratorKeys, Some(0)))
     .push(function(Target::ArrayProto, "values", NativeId::ArrayIterator, Some(0)))
     .push(function(Target::ArrayProto, "indexOf", NativeId::ArrayIndexOf, Some(1)))
     .push(function(Target::ArrayProto, "lastIndexOf", NativeId::ArrayLastIndexOf, Some(1)))
     .push(function(Target::ArrayProto, "includes", NativeId::ArrayIncludes, Some(1)))
     .push(function(Target::ArrayProto, "concat", NativeId::ArrayConcat, Some(1)))
     .push(function(Target::ArrayProto, "at", NativeId::ArrayAt, Some(1)))
     .push(function(Target::ArrayProto, "reverse", NativeId::ArrayReverse, Some(0)))
     .push(function(Target::ArrayProto, "shift", NativeId::ArrayShift, Some(0)))
     .push(function(Target::ArrayProto, "unshift", NativeId::ArrayUnshift, Some(1)))
     .push(function(Target::ArrayProto, "splice", NativeId::ArraySplice, Some(2)))
     .push(function(Target::ArrayProto, "fill", NativeId::ArrayFill, Some(1)))
     .push(function(Target::ArrayProto, "copyWithin", NativeId::ArrayCopyWithin, Some(2)))
     .push(function(Target::ArrayProto, "flat", NativeId::ArrayFlat, Some(0)))
     .push(function(Target::ArrayProto, "toString", NativeId::ArrayToString, Some(0)))
     .push(function(Target::ArrayProto, "forEach", NativeId::ArrayForEach, Some(1)))
     .push(function(Target::ArrayProto, "map", NativeId::ArrayMap, Some(1)))
     .push(function(Target::ArrayProto, "filter", NativeId::ArrayFilter, Some(1)))
     .push(function(Target::ArrayProto, "some", NativeId::ArraySome, Some(1)))
     .push(function(Target::ArrayProto, "every", NativeId::ArrayEvery, Some(1)))
     .push(function(Target::ArrayProto, "find", NativeId::ArrayFind, Some(1)))
     .push(function(Target::ArrayProto, "findIndex", NativeId::ArrayFindIndex, Some(1)))
     .push(function(Target::ArrayProto, "findLast", NativeId::ArrayFindLast, Some(1)))
     .push(function(Target::ArrayProto, "findLastIndex", NativeId::ArrayFindLastIndex, Some(1)))
     .push(function(Target::ArrayProto, "reduce", NativeId::ArrayReduce, Some(1)))
     .push(function(Target::ArrayProto, "reduceRight", NativeId::ArrayReduceRight, Some(1)))
     .push(function(Target::ArrayProto, "flatMap", NativeId::ArrayFlatMap, Some(1)))
}

/// Functions of `Array.prototype`.
fn install_array_proto(t: &mut Vec<Install>)
    requires
        agrees(old(t)@),
    ensures
        agrees(final(t)@),
        final(t)@ == with_array_proto(old(t)@),
{
    put(t, Target::ArrayProto, "push", NativeId::ArrayPush, Some(1));
    put(t, Target::ArrayProto, "pop", NativeId::ArrayPop, Some(0));
    put(t, Target::ArrayProto, "join", NativeId::ArrayJoin, Some(1));
    put(t, Target::ArrayProto, "slice", NativeId::ArraySlice, Some(2));
    put(t, Target::ArrayProto, "sort", NativeId::ArraySort, Some(1));
    put(t, Target::ArrayProto, "entries", NativeId::ArrayIteratorEntries, Some(0));
    put(t, Target::ArrayProto, "keys", NativeId::ArrayIteratorKeys, Some(0));
    put(t, Target::ArrayProto, "values", NativeId::ArrayIterator, Some(0));
    put(t, Target::ArrayProto, "indexOf", NativeId::ArrayIndexOf, Some(1));
    put(t, Target::ArrayProto, "lastIndexOf", NativeId::ArrayLastIndexOf, Some(1));
    put(t, Target::ArrayProto, "includes", NativeId::ArrayIncludes, Some(1));
    put(t, Target::ArrayProto, "concat", NativeId::ArrayConcat, Some(1));
    put(t, Target::ArrayProto, "at", NativeId::ArrayAt, Some(1));
    put(t, Target::ArrayProto, "reverse", NativeId::ArrayReverse, Some(0));
    put(t, Target::ArrayProto, "shift", NativeId::ArrayShift, Some(0));
    put(t, Target::ArrayProto, "unshift", NativeId::ArrayUnshift, Some(1));
    put(t, Target::ArrayProto, "splice", NativeId::ArraySplice, Some(2));
    put(t, Target::ArrayProto, "fill", NativeId::ArrayFill, Some(1));
    put(t, Target::ArrayProto, "copyWithin", NativeId::ArrayCopyWithin, Some(2));
    put(t, Target::ArrayProto, "flat", NativeId::ArrayFlat, Some(0));
    put(t, Target::ArrayProto, "toString", NativeId::ArrayToString, Some(0));
    put(t, Target::ArrayProto, "forEach", NativeId::ArrayForEach, Some(1));
    put(t, Target::ArrayProto, "map", NativeId::ArrayMap, Some(1));
    put(t, Target::ArrayProto, "filter", NativeId::ArrayFilter, Some(1));
    put(t, Target::ArrayProto, "some", NativeId::ArraySome, Some(1));
    put(t, Target::ArrayProto, "every", NativeId::ArrayEvery, Some(1));
    put(t, Target::ArrayProto, "find", NativeId::ArrayFind, Some(1));
    put(t, Target::ArrayProto, "findIndex", NativeId::ArrayFindIndex, Some(1));
    put(t, Target::ArrayProto, "findLast", NativeId::ArrayFindLast, Some(1));
    put(t, Target::ArrayProto, "findLastIndex", NativeId::ArrayFindLastIndex, Some(1));
    put(t, Target::ArrayProto, "reduce", NativeId::ArrayReduce, Some(1));
    put(t, Target::ArrayProto, "reduceRight", NativeId::ArrayReduceRight, Some(1));
    put(t, Target::ArrayProto, "flatMap", NativeId::ArrayFlatMap, Some(1));
}

/// Functions of the `Array` constructor, behind `s`.
pub open spec fn with_array_ctor_2(s: Seq<Install>) -> Seq<Install> {
    s.push(function(Target::ArrayCtor, "of", NativeId::ArrayOf, Some(0)))
     .push(function(Target::ArrayCtor, "from", NativeId::ArrayFrom, Some(1)))
}

/// Functions of the `Array` constructor.
fn install_array_ctor_2(t: &mut Vec<Install>)
    requires
        agrees(old(t)@),
    ensures
        agrees(final(t)@),
        final(t)@ == with_array_ctor_2(old(t)@),
{
    put(t, Target::ArrayCtor, "of", NativeId::ArrayOf, Some(0));
    put(t, Target::ArrayCtor, "from", NativeId::ArrayFrom, Some(1));
}

/// Functions of the `Object` constructor, behind `s`.
pub open spec fn with_object_ctor(s: Seq<Install>) -> Seq<Install> {
    s.push(function(Target::ObjectCtor, "assign", NativeId::ObjectAssign, Some(2)))
     .push(function(Target::ObjectCtor, "is", NativeId::ObjectIs, Some(2)))
     .push(function(Target::ObjectCtor, "hasOwn", NativeId::ObjectHasOwn, Some(2)))
     .push(function(Target::ObjectCtor, "freeze", NativeId::ObjectFreeze, Some(1)))
     .push(function(Target::ObjectCtor, "isFrozen", NativeId::ObjectIsFrozen, Some(1)))
     .push(function(Target::ObjectCtor, "seal", NativeId::ObjectSeal, Some(1)))
     .push(function(Target::ObjectCtor, "isSealed", NativeId::ObjectIsSealed, Some(1)))
     .push(function(Target::ObjectCtor, "preventExtensions", NativeId::ObjectPreventExtensions, Some(1)))
     .push(function(Target::ObjectCtor, "isExtensible", NativeId::ObjectIsExtensible, Some(1)))
     .push(function(Target::ObjectCtor, "fromEntries", NativeId::ObjectFromEntries, Some(1)))
     .push(function(Target::ObjectCtor, "getOwnPropertyNames", NativeId::ObjectGetOwnPropertyNames, Some(1)))
     .push(function(Target::ObjectCtor, "getOwnPropertySymbols", NativeId::ObjectGetOwnPropertySymbols, Some(1)))
     .push(function(Target::ObjectCtor, "getOwnPropertyDescriptor", NativeId::ObjectGetOwnPropertyDescriptor, Some(2)))
     .push(function(Target::ObjectCtor, "setPrototypeOf", NativeId::ObjectSetPrototypeOf, Some(2)))
     .push(function(Target::ObjectCtor, "create", NativeId::ObjectCreate, Some(1)))
     .push(function(Target::ObjectCtor, "getPrototypeOf", NativeId::ObjectGetPrototypeOf, Some(1)))
     .push(function(Target::ObjectCtor, "defineProperty", NativeId::ObjectDefineProperty, Some(3)))
     .push(function(Target::ObjectCtor, "keys", NativeId::ObjectKeys, Some(1)))
     .push(function(Target::ObjectCtor, "values", NativeId::ObjectValues, Some(1)))
     .push(function(Target::ObjectCtor, "entries", NativeId::ObjectEntries, Some(1)))
}

/// Functions of the `Object` constructor.
fn install_object_ctor(t: &mut Vec<Install>)
    requires
        agrees(old(t)@),
    ensures
        agrees(final(t)@),
        final(t)@ == with_object_ctor(old(t)@),
{
    put(t, Target::ObjectCtor, "assign", NativeId::ObjectAssign, Some(2));
    put(t, Target::ObjectCtor, "is", NativeId::ObjectIs, Some(2));
    put(t, Target::ObjectCtor, "hasOwn", NativeId::ObjectHasOwn, Some(2));
    put(t, Target::ObjectCtor, "freeze", NativeId::ObjectFreeze, Some(1));
    put(t, Target::ObjectCtor, "isFrozen", NativeId::ObjectIsFrozen, Some(1));
    put(t, Target::ObjectCtor, "seal", NativeId::ObjectSeal, Some(1));
    put(t, Target::ObjectCtor, "isSealed", NativeId::ObjectIsSealed, Some(1));
    put(t, Target::ObjectCtor, "preventExtensions", NativeId::ObjectPreventExtensions, Some(1));
    put(t, Target::ObjectCtor, "isExtensible", NativeId::ObjectIsExtensible, Some(1));
    put(t, Target::ObjectCtor, "fromEntries", NativeId::ObjectFromEntries, Some(1));
    put(t, Target::ObjectCtor, "getOwnPropertyNames", NativeId::ObjectGetOwnPropertyNames, Some(1));
    put(t, Target::ObjectCtor, "getOwnPropertySymbols", NativeId::ObjectGetOwnPropertySymbols, Some(1));
    put(t, Target::ObjectCtor, "getOwnPropertyDescriptor", NativeId::ObjectGetOwnPropertyDescriptor, Some(2));
    put(t, Target::ObjectCtor, "setPrototypeOf", NativeId::ObjectSetPrototypeOf, Some(2));
    put(t, Target::ObjectCtor, "create", NativeId::ObjectCreate, Some(1));
    put(t, Target::ObjectCtor, "getPrototypeOf", NativeId::ObjectGetPrototypeOf, Some(1));
    put(t, Target::ObjectCtor, "defineProperty", NativeId::ObjectDefineProperty, Some(3));
    put(t, Target::ObjectCtor, "keys", NativeId::ObjectKeys, Some(1));
    put(t, Target::ObjectCtor, "values", NativeId::ObjectValues, Some(1));
    put(t, Target::ObjectCtor, "entries", NativeId::ObjectEntries, Some(1));
}

/// Functions of `Object.prototype`, behind `s`.
pub open spec fn with_object_proto(s: Seq<Install>) -> Seq<Install> {
    s.push(function(Target::ObjectProto, "hasOwnProperty", NativeId::ObjectHasOwnProperty, Some(1)))
     .push(function(Target::ObjectProto, "propertyIsEnumerable", NativeId::ObjectProtoPropertyIsEnumerable, Some(1)))
     .push(function(Target::ObjectProto, "toString", NativeId::ObjectProtoToString, Some(0)))
     .push(function(Target::ObjectProto, "valueOf", NativeId::ObjectProtoValueOf, Some(0)))
}

/// Functions of `Object.prototype`.
fn install_object_proto(t: &mut Vec<Install>)
    requires
        agrees(old(t)@),
    ensures
        agrees(final(t)@),
        final(t)@ == with_object_proto(old(t)@),
{
    put(t, Target::ObjectProto, "hasOwnProperty", NativeId::ObjectHasOwnProperty, Some(1));
    put(t, Target::ObjectProto, "propertyIsEnumerable", NativeId::ObjectProtoPropertyIsEnumerable, Some(1));
    put(t, Target::ObjectProto, "toString", NativeId::ObjectProtoToString, Some(0));
    put(t, Target::ObjectProto, "valueOf", NativeId::ObjectProtoValueOf, Some(0));
}

/// Functions of `Function.prototype`, behind `s`.
pub open spec fn with_function_proto(s: Seq<Install>) -> Seq<Install> {
    s.push(function(Target::FunctionProto, "toString", NativeId::FunctionProtoToString, Some(0)))
}

/// Functions of `Function.prototype`.
fn install_function_proto(t: &mut Vec<Install>)
    requires
        agrees(old(t)@),
    ensures
        agrees(final(t)@),
        final(t)@ == with_function_proto(old(t)@),
{
    put(t, Target::FunctionProto, "toString", NativeId::FunctionProtoToString, Some(0));
}

/// Functions of `String.prototype`, behind `s`.
pub open spec fn with_string_proto(s: Seq<Install>) -> Seq<Install> {
    s.push(function(Target::StringProto, "charAt", NativeId::StringCharAt, Some(1)))
     .push(function(Target::StringProto, "slice", NativeId::StringSlice, Some(2)))
     .push(function(Target::StringProto, "charCodeAt", NativeId::StringCharCodeAt, Some(1)))
     .push(function(Target::StringProto, "codePointAt", NativeId::StringCodePointAt, Some(1)))
     .push(function(Target::StringProto, "at", NativeId::StringAt, Some(1)))
     .push(function(Target::StringProto, "indexOf", NativeId::StringIndexOf, Some(1)))
     .push(function(Target::StringProto, "lastIndexOf", NativeId::StringLastIndexOf, Some(1)))
     .push(function(Target::StringProto, "includes", NativeId::StringIncludes, Some(1)))
     .push(function(Target::StringProto, "startsWith", NativeId::StringStartsWith, Some(1)))
     .push(function(Target::StringProto, "endsWith", NativeId::StringEndsWith, Some(1)))
     .push(function(Target::StringProto, "concat", NativeId::StringConcat, Some(1)))
     .push(function(Target::StringProto, "repeat", NativeId::StringRepeat, Some(1)))
     .push(function(Target::StringProto, "padStart", NativeId::StringPadStart, Some(1)))
     .push(function(Target::StringProto, "padEnd", NativeId::StringPadEnd, Some(1)))
     .push(function(Target::StringProto, "trim", NativeId::StringTrim, Some(0)))
     .push(function(Target::StringProto, "trimStart", NativeId::StringTrimStart, Some(0)))
     .push(function(Target::StringProto, "trimEnd", NativeId::StringTrimEnd, Some(0)))
     .push(function(Target::StringProto, "toLowerCase", NativeId::StringToLowerCase, Some(0)))
     .push(function(Target::StringProto, "toUpperCase", NativeId::StringToUpperCase, Some(0)))
     .push(function(Target::StringProto, "substring", NativeId::StringSubstring, Some(2)))
     .push(function(Target::StringProto, "substr", NativeId::StringSubstr, Some(2)))
     .push(function(Target::StringProto, "toString", NativeId::StringToString, Some(0)))
     .push(function(Target::StringProto, "valueOf", NativeId::StringValueOf, Some(0)))
     .push(function(Target::StringProto, "localeCompare", NativeId::StringLocaleCompare, Some(1)))
     .push(function(Target::StringProto, "replaceAll", NativeId::StringReplaceAll, Some(2)))
}

/// Functions of `String.prototype`.
fn install_string_proto(t: &mut Vec<Install>)
    requires
        agrees(old(t)@),
    ensures
        agrees(final(t)@),
        final(t)@ == with_string_proto(old(t)@),
{
    put(t, Target::StringProto, "charAt", NativeId::StringCharAt, Some(1));
    put(t, Target::StringProto, "slice", NativeId::StringSlice, Some(2));
    put(t, Target::StringProto, "charCodeAt", NativeId::StringCharCodeAt, Some(1));
    put(t, Target::StringProto, "codePointAt", NativeId::StringCodePointAt, Some(1));
    put(t, Target::StringProto, "at", NativeId::StringAt, Some(1));
    put(t, Target::StringProto, "indexOf", NativeId::StringIndexOf, Some(1));
    put(t, Target::StringProto, "lastIndexOf", NativeId::StringLastIndexOf, Some(1));
    put(t, Target::StringProto, "includes", NativeId::StringIncludes, Some(1));
    put(t, Target::StringProto, "startsWith", NativeId::StringStartsWith, Some(1));
    put(t, Target::StringProto, "endsWith", NativeId::StringEndsWith, Some(1));
    put(t, Target::StringProto, "concat", NativeId::StringConcat, Some(1));
    put(t, Target::StringProto, "repeat", NativeId::StringRepeat, Some(1));
    put(t, Target::StringProto, "padStart", NativeId::StringPadStart, Some(1));
    put(t, Target::StringProto, "padEnd", NativeId::StringPadEnd, Some(1));
    put(t, Target::StringProto, "trim", NativeId::StringTrim, Some(0));
    put(t, Target::StringProto, "trimStart", NativeId::StringTrimStart, Some(0));
    put(t, Target::StringProto, "trimEnd", NativeId::StringTrimEnd, Some(0));
    put(t, Target::StringProto, "toLowerCase", NativeId::StringToLowerCase, Some(0));
    put(t, Target::StringProto, "toUpperCase", NativeId::StringToUpperCase, Some(0));
    put(t, Target::StringProto, "substring", NativeId::StringSubstring, Some(2));
    put(t, Target::StringProto, "substr", NativeId::StringSubstr, Some(2));
    put(t, Target::StringProto, "toString", NativeId::StringToString, Some(0));
    put(t, Target::StringProto, "valueOf", NativeId::StringValueOf, Some(0));
    put(t, Target::StringProto, "localeCompare", NativeId::StringLocaleCompare, Some(1));
    put(t, Target::StringProto, "replaceAll", NativeId::StringReplaceAll, Some(2));
}

/// Functions of the `String` constructor, behind `s`.
pub open spec fn with_string_ctor(s: Seq<Install>) -> Seq<Install> {
    s.push(function(Target::StringCtor, "fromCharCode", NativeId::StringFromCharCode, Some(1)))
     .push(function(Target::StringCtor, "fromCodePoint", NativeId::StringFromCodePoint, Some(1)))
}

/// Functions of the `String` constructor.
fn install_string_ctor(t: &mut Vec<Install>)
    requires
        agrees(old(t)@),
    ensures
        agrees(final(t)@),
        final(t)@ == with_string_ctor(old(t)@),
{
    put(t, Target::StringCtor, "fromCharCode", NativeId::StringFromCharCode, Some(1));
    put(t, Target::StringCtor, "fromCodePoint", NativeId::StringFromCodePoint, Some(1));
}

/// Functions of `JSON`, behind `s`.
pub open spec fn with_json_object(s: Seq<Install>) -> Seq<Install> {
    s.push(function(Target::JsonObject, "parse", NativeId::JsonParse, Some(2)))
     .push(function(Target::JsonObject, "stringify", NativeId::JsonStringify, Some(3)))
}

/// Functions of `JSON`.
fn install_json_object(t: &mut Vec<Install>)
    requires
        agrees(old(t)@),
    ensures
        agrees(final(t)@),
        final(t)@ == with_json_object(old(t)@),
{
    put(t, Target::JsonObject, "parse", NativeId::JsonParse, Some(2));
    put(t, Target::JsonObject, "stringify", NativeId::JsonStringify, Some(3));
}

/// Functions of `Boolean.prototype`, behind `s`.
pub open spec fn with_boolean_proto(s: Seq<Install>) -> Seq<Install> {
    s.push(function(Target::BooleanProto, "toString", NativeId::BooleanProtoToString, Some(0)))
     .push(function(Target::BooleanProto, "valueOf", NativeId::BooleanProtoValueOf, Some(0)))
}

/// Functions of `Boolean.prototype`.
fn install_boolean_proto(t: &mut Vec<Install>)
    requires
        agrees(old(t)@),
    ensures
        agrees(final(t)@),
        final(t)@ == with_boolean_proto(old(t)@),
{
    put(t, Target::BooleanProto, "toString", NativeId::BooleanProtoToString, Some(0));
    put(t, Target::BooleanProto, "valueOf", NativeId::BooleanProtoValueOf, Some(0));
}

/// Functions of the `Symbol` constructor, behind `s`.
pub open spec fn with_symbol_ctor(s: Seq<Install>) -> Seq<Install> {
    s.push(function(Target::SymbolCtor, "for", NativeId::SymbolFor, Some(1)))
     .push(function(Target::SymbolCtor, "keyFor", NativeId::SymbolKeyFor, Some(1)))
     .push(function(Target::SymbolCtor, "iterator", NativeId::SymbolWellKnownIterator, None))
     .push(function(Target::SymbolCtor, "asyncIterator", NativeId::SymbolWellKnownAsyncIterator, None))
     .push(function(Target::SymbolCtor, "hasInstance", NativeId::SymbolWellKnownHasInstance, None))
     .push(function(Target::SymbolCtor, "isConcatSpreadable", NativeId::SymbolWellKnownIsConcatSpreadable, None))
     .push(function(Target::SymbolCtor, "match", NativeId::SymbolWellKnownMatch, None))
     .push(function(Target::SymbolCtor, "replace", NativeId::SymbolWellKnownReplace, None))
     .push(function(Target::SymbolCtor, "search", NativeId::SymbolWellKnownSearch, None))
     .push(function(Target::SymbolCtor, "species", NativeId::SymbolWellKnownSpecies, None))
     .push(function(Target::SymbolCtor, "split", NativeId::SymbolWellKnownSplit, None))
     .push(function(Target::SymbolCtor, "toPrimitive", NativeId::SymbolWellKnownToPrimitive, None))
     .push(function(Target::SymbolCtor, "toStringTag", NativeId::SymbolWellKnownToStringTag, None))
     .push(function(Target::SymbolCtor, "unscopables", NativeId::SymbolWellKnownUnscopables, None))
}

/// Functions of the `Symbol` constructor.
fn install_symbol_ctor(t: &mut Vec<Install>)
    requires
        agrees(old(t)@),
    ensures
        agrees(final(t)@),
        final(t)@ == with_symbol_ctor(old(t)@),
{
    put(t, Target::SymbolCtor, "for", NativeId::SymbolFor, Some(1));
    put(t, Target::SymbolCtor, "keyFor", NativeId::SymbolKeyFor, Some(1));
    put(t, Target::SymbolCtor, "iterator", NativeId::SymbolWellKnownIterator, None);
    put(t, Target::SymbolCtor, "asyncIterator", NativeId::SymbolWellKnownAsyncIterator, None);
    put(t, Target::SymbolCtor, "hasInstance", NativeId::SymbolWellKnownHasInstance, None);
    put(t, Target::SymbolCtor, "isConcatSpreadable", NativeId::SymbolWellKnownIsConcatSpreadable, None);
    put(t, Target::SymbolCtor, "match", NativeId::SymbolWellKnownMatch, None);
    put(t, Target::SymbolCtor, "replace", NativeId::SymbolWellKnownReplace, None);
    put(t, Target::SymbolCtor, "search", NativeId::SymbolWellKnownSearch, None);
    put(t, Target::SymbolCtor, "species", NativeId::SymbolWellKnownSpecies, None);
    put(t, Target::SymbolCtor, "split", NativeId::SymbolWellKnownSplit, None);
    put(t, Target::SymbolCtor, "toPrimitive", NativeId::SymbolWellKnownToPrimitive, None);
    put(t, Target::SymbolCtor, "toStringTag", NativeId::SymbolWellKnownToStringTag, None);
    put(t, Target::SymbolCtor, "unscopables", NativeId::SymbolWellKnownUnscopables, None);
}

/// Functions of `Symbol.prototype`, behind `s`.
pub open spec fn with_symbol_proto(s: Seq<Install>) -> Seq<Install> {
    s.push(function(Target::SymbolProto, "toString", NativeId::SymbolProtoToString, Some(0)))
     .push(function(Target::SymbolProto, "valueOf", NativeId::SymbolProtoValueOf, Some(0)))
     .push(function(Target::SymbolProto, "description", NativeId::SymbolProtoDescription, None))
}

/// Functions of `Symbol.prototype`.
fn install_symbol_proto(t: &mut Vec<Install>)
    requires
        agrees(old(t)@),
    ensures
        agrees(final(t)@),
        final(t)@ == with_symbol_proto(old(t)@),
{
    put(t, Target::SymbolProto, "toString", NativeId::SymbolProtoToString, Some(0));
    put(t, Target::SymbolProto, "valueOf", NativeId::SymbolProtoValueOf, Some(0));
    put(t, Target::SymbolProto, "description", NativeId::SymbolProtoDescription, None);
}

/// Functions of the `Proxy` constructor, behind `s`.
pub open spec fn with_proxy_ctor(s: Seq<Install>) -> Seq<Install> {
    s.push(function(Target::ProxyCtor, "revocable", NativeId::ProxyRevocable, Some(2)))
}

/// Functions of the `Proxy` constructor.
fn install_proxy_ctor(t: &mut Vec<Install>)
    requires
        agrees(old(t)@),
    ensures
        agrees(final(t)@),
        final(t)@ == with_proxy_ctor(old(t)@),
{
    put(t, Target::ProxyCtor, "revocable", NativeId::ProxyRevocable, Some(2));
}

/// What a built-in needs besides the heap.
#[derive(Clone, Copy, PartialEq, Eq, Structural, Debug)]
pub enum Route {
    /// Nothing: it is run from the table of built-ins.
    Builtin,
    /// The jobs that are queued.
    Jobs,
    /// The matcher of regular expressions.
    Matcher,
    /// The module loader; without one its promise is rejected.
    Loader,
}

/// What a built-in needs besides the heap.
pub open spec fn route_of(id: NativeId) -> Route {
    match id {
        NativeId::PromiseResolve | NativeId::PromiseReject | NativeId::PromiseThen
        | NativeId::PromiseCatch | NativeId::PromiseAll | NativeId::PromiseRace
        | NativeId::PromiseFinally | NativeId::PromiseConstruct | NativeId::QueueMicrotask => {
            Route::Jobs
        },
        NativeId::RegExpExec | NativeId::RegExpTest | NativeId::RegExpCompile
        | NativeId::StringMatch | NativeId::StringReplace | NativeId::StringSearch
        | NativeId::StringSplit => Route::Matcher,
        NativeId::ModuleImport => Route::Loader,
        _ => Route::Builtin,
    }
}

/// What a built-in needs besides the heap.
pub fn route(id: NativeId) -> (r: Route)
    ensures
        r == route_of(id),
{
    match id {
        NativeId::PromiseResolve | NativeId::PromiseReject | NativeId::PromiseThen
        | NativeId::PromiseCatch | NativeId::PromiseAll | NativeId::PromiseRace
        | NativeId::PromiseFinally | NativeId::PromiseConstruct | NativeId::QueueMicrotask => {
            Route::Jobs
        },
        NativeId::RegExpExec | NativeId::RegExpTest | NativeId::RegExpCompile
        | NativeId::StringMatch | NativeId::StringReplace | NativeId::StringSearch
        | NativeId::StringSplit => Route::Matcher,
        NativeId::ModuleImport => Route::Loader,
        _ => Route::Builtin,
    }
}

} // verus!

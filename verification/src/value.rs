//! Values, property keys and property attributes.
use vstd::prelude::*;

use crate::native::NativeId;

verus! {

/// A JavaScript value. Texts, symbols, big integers and objects are held by their
/// numbers in the heap; a double is held as its bit pattern.
#[derive(Clone, Copy, PartialEq, Eq, Structural, Debug)]
pub enum JsValue {
    /// `undefined`.
    Undefined,
    /// `null`.
    Null,
    /// A slot without a value.
    Hole,
    /// A boolean.
    Bool(bool),
    /// A number that is a small integer.
    Smi(i32),
    /// Any other number, as its bit pattern.
    Double(u64),
    /// A text.
    Text(usize),
    /// A symbol.
    Symbol(usize),
    /// A big integer.
    BigInt(usize),
    /// An object.
    Object(usize),
}

/// A property key: a text or a symbol, by its number in the heap.
#[derive(Clone, Copy, PartialEq, Eq, Structural, Debug)]
pub enum PropKey {
    /// A text.
    Text(usize),
    /// A symbol.
    Symbol(usize),
}

/// Property attributes.
#[derive(Clone, Copy, PartialEq, Eq, Structural, Debug)]
pub struct Attrs {
    /// Whether the value may change.
    pub writable: bool,
    /// Whether the property is enumerated.
    pub enumerable: bool,
    /// Whether the property may be deleted or redefined.
    pub configurable: bool,
}

impl Attrs {
    /// Attributes of a property that a script creates.
    pub fn all() -> (r: Attrs)
        ensures
            r == all_attrs(),
    {
        Attrs { writable: true, enumerable: true, configurable: true }
    }

    /// Attributes with the given bits.
    pub fn new(writable: bool, enumerable: bool, configurable: bool) -> (r: Attrs)
        ensures
            r == (Attrs { writable, enumerable, configurable }),
    {
        Attrs { writable, enumerable, configurable }
    }
}

/// Attributes of a property that a script creates.
pub open spec fn all_attrs() -> Attrs {
    Attrs { writable: true, enumerable: true, configurable: true }
}

/// Attributes of a built-in property: not enumerable.
pub open spec fn builtin_attrs() -> Attrs {
    Attrs { writable: true, enumerable: false, configurable: true }
}

/// What sort of object an object is.
#[derive(Clone, Copy, PartialEq, Eq, Structural, Debug)]
pub enum Kind {
    /// An ordinary object.
    Ordinary,
    /// An array.
    Array,
    /// An arguments object.
    Arguments,
    /// A function.
    Function,
    /// An error.
    Error,
    /// A date.
    Date,
    /// A regular expression.
    RegExp,
    /// A map.
    MapObject,
    /// A set.
    SetObject,
    /// An iterator.
    Iterator,
    /// A generator.
    Generator,
    /// A promise.
    Promise,
    /// A proxy.
    Proxy,
}

/// How far an object is closed against changes.
#[derive(Clone, Copy, PartialEq, Eq, Structural, Debug)]
pub enum Integrity {
    /// Not at all.
    Open,
    /// Its properties may not be deleted or redefined.
    Sealed,
    /// Its properties may not be changed either.
    Frozen,
}

/// What a function object runs.
#[derive(Clone, Copy, PartialEq, Eq, Structural, Debug)]
pub enum FunctionTarget {
    /// A compiled function, by its number.
    Bytecode(u32),
    /// A built-in function.
    Native(NativeId),
    /// A function of the embedder, by its number.
    Host(u32),
    /// A realm's `eval`.
    RealmEval(u32),
    /// A bound function, by the object that holds its target and receiver.
    Bound(usize),
    /// The function that revokes the proxy it is called on.
    RevokeProxy,
    /// A function that settles a promise.
    Settle {
        /// The promise.
        promise: usize,
        /// The function that resolves it.
        resolve: usize,
        /// The function that rejects it.
        reject: usize,
        /// Whether this one rejects it.
        rejecting: bool,
    },
}

/// What a getter that runs outside the library came to.
#[derive(Clone, Copy, Debug)]
pub struct Answer {
    /// The getter.
    pub getter: usize,
    /// The object that it ran on.
    pub owner: usize,
    /// The value that it gave, or the one that it threw.
    pub outcome: Result<JsValue, JsValue>,
}

/// An exception on its way out of a built-in: a value that was thrown, or an error
/// whose object is still to be built.
#[derive(Debug)]
pub enum Throw {
    /// A thrown value.
    Value(JsValue),
    /// An error with this text, which starts with the error's class.
    Error(String),
    /// A getter has to run on this owner first: the embedder runs it, hands its
    /// [`Answer`] to the heap, and makes the call again.
    HostGetter(usize, usize),
}

} // verus!

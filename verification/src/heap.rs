//! The heap: texts, objects, symbols and big integers by number.
use vstd::prelude::*;

use crate::job_queue::Job;
use crate::properties::{Named, Prop, PropBody, Properties};
use crate::slots::Slots;
use crate::text::{same_units, utf16, utf16_of};
use crate::value::{Answer, FunctionTarget, Integrity, JsValue, Kind, PropKey};

verus! {

/// What an object is, seen from outside.
#[verifier::ext_equal]
pub ghost struct ObjModel {
    /// What sort of object it is.
    pub kind: Kind,
    /// Whether it may get new properties.
    pub extensible: bool,
    /// How far it is closed against changes.
    pub integrity: Integrity,
    /// Its prototype.
    pub prototype: Option<usize>,
    /// Its named properties.
    pub named: Named,
    /// Its internal slots.
    pub inner: Seq<JsValue>,
    /// Its elements, with holes.
    pub elements: Seq<JsValue>,
    /// What it runs when called.
    pub callable: FunctionTarget,
    /// Target of a proxy.
    pub proxy_target: Option<usize>,
    /// Handler of a proxy.
    pub proxy_handler: Option<usize>,
}

/// Whether two objects have the same named properties, prototype, sort and target.
pub open spec fn same_outline(a: ObjModel, b: ObjModel) -> bool {
    &&& a.kind == b.kind
    &&& a.extensible == b.extensible
    &&& a.integrity == b.integrity
    &&& a.prototype == b.prototype
    &&& a.named == b.named
    &&& a.callable == b.callable
}

/// The contents of a heap.
#[verifier::ext_equal]
pub ghost struct HeapModel {
    /// The texts, each once.
    pub texts: Seq<Seq<u16>>,
    /// The objects.
    pub objects: Seq<ObjModel>,
    /// How many symbols there are.
    pub symbols: nat,
    /// Symbols that are shared under a text, oldest first.
    pub registry: Seq<(Seq<u16>, usize)>,
    /// Sign and bytes, lowest first, of the big integers.
    pub bigints: Seq<(bool, Seq<u8>)>,
    /// What getters have come to that ran outside for the call under way, oldest first.
    pub answers: Seq<Answer>,
    /// Jobs that getters have queued.
    pub sink: Seq<Job>,
}

impl HeapModel {
    /// Whether the heap holds a text.
    pub open spec fn has_text(self, t: Seq<u16>) -> bool {
        exists|i: int| 0 <= i < self.texts.len() && #[trigger] self.texts[i] == t
    }

    /// The number of a text, the next free one where the heap does not hold it.
    pub open spec fn text_id(self, t: Seq<u16>) -> usize {
        if self.has_text(t) {
            (choose|i: int| 0 <= i < self.texts.len() && #[trigger] self.texts[i] == t) as usize
        } else {
            self.texts.len() as usize
        }
    }

    /// The heap with a text in it.
    pub open spec fn interned(self, t: Seq<u16>) -> HeapModel {
        if self.has_text(t) {
            self
        } else {
            HeapModel { texts: self.texts.push(t), ..self }
        }
    }

    /// The heap with the object `o` replaced.
    pub open spec fn with_object(self, o: usize, m: ObjModel) -> HeapModel {
        HeapModel { objects: self.objects.update(o as int, m), ..self }
    }

    /// The heap with one more object.
    pub open spec fn with_new(self, m: ObjModel) -> HeapModel {
        HeapModel { objects: self.objects.push(m), ..self }
    }

    /// Whether a heap holds the same as this one and possibly more texts.
    pub open spec fn grows_to(self, later: HeapModel) -> bool {
        &&& later.objects == self.objects
        &&& later.symbols == self.symbols
        &&& later.registry == self.registry
        &&& later.bigints == self.bigints
        &&& later.answers == self.answers
        &&& later.sink == self.sink
        &&& self.texts.is_prefix_of(later.texts)
    }

    /// Whether a heap differs from this one at most in slots, elements and proxy targets of
    /// its objects, and in what getters came to.
    pub open spec fn keeps(self, later: HeapModel) -> bool {
        &&& later.texts == self.texts
        &&& later.symbols == self.symbols
        &&& later.registry == self.registry
        &&& later.bigints == self.bigints
        &&& later.objects.len() == self.objects.len()
        &&& forall|i: int|
            0 <= i < self.objects.len() ==> same_outline(#[trigger] self.objects[i], later.objects[i])
    }

    /// What a getter came to that ran on an owner, where that is the next one that is
    /// known.
    pub open spec fn answer(self, getter: usize, owner: usize) -> Option<Result<JsValue, JsValue>> {
        if self.answers.len() > 0 && self.answers[0].getter == getter && self.answers[0].owner
            == owner && self.valid(
            match self.answers[0].outcome {
                Ok(v) => v,
                Err(v) => v,
            },
        ) {
            Some(self.answers[0].outcome)
        } else {
            None
        }
    }

    /// The heap without the next answer.
    pub open spec fn answered(self) -> HeapModel {
        HeapModel { answers: self.answers.remove(0), ..self }
    }

    /// The heap with more jobs that getters have queued.
    pub open spec fn with_jobs(self, jobs: Seq<Job>) -> HeapModel {
        HeapModel { sink: self.sink + jobs, ..self }
    }

    /// Whether a heap holds the same as this one in its first `n` objects, and possibly
    /// more texts and objects.
    pub open spec fn extends_to(self, later: HeapModel, n: int) -> bool {
        &&& n <= self.objects.len() <= later.objects.len()
        &&& forall|i: int| 0 <= i < n ==> #[trigger] later.objects[i] == self.objects[i]
        &&& later.symbols == self.symbols
        &&& later.registry == self.registry
        &&& later.bigints == self.bigints
        &&& later.answers == self.answers
        &&& later.sink == self.sink
        &&& self.texts.is_prefix_of(later.texts)
    }

    /// Whether no text occurs twice.
    pub open spec fn distinct_texts(self) -> bool {
        forall|i: int, j: int|
            0 <= i < j < self.texts.len() ==> #[trigger] self.texts[i] != #[trigger] self.texts[j]
    }

    /// Whether a value's number is in range.
    pub open spec fn valid(self, v: JsValue) -> bool {
        match v {
            JsValue::Text(n) => n < self.texts.len(),
            JsValue::Object(n) => n < self.objects.len(),
            JsValue::Symbol(n) => n < self.symbols,
            JsValue::BigInt(n) => n < self.bigints.len(),
            _ => true,
        }
    }

    /// Whether a key's number is in range.
    pub open spec fn valid_key(self, k: PropKey) -> bool {
        match k {
            PropKey::Text(n) => n < self.texts.len(),
            PropKey::Symbol(n) => n < self.symbols,
        }
    }
}

impl HeapModel {
    /// Whether an object number is in range.
    pub open spec fn valid_object(self, o: Option<usize>) -> bool {
        match o {
            Some(n) => n < self.objects.len(),
            None => true,
        }
    }

    /// Whether everything that a property refers to is in range.
    pub open spec fn valid_prop(self, p: Prop) -> bool {
        self.valid_key(p.key) && match p.body {
            PropBody::Data(v) => self.valid(v),
            PropBody::Accessor(g, s) => self.valid_object(g) && self.valid_object(s),
        }
    }

    /// Whether everything that an object refers to is in range.
    pub open spec fn valid_refs(self, m: ObjModel) -> bool {
        &&& self.valid_object(m.prototype)
        &&& self.valid_object(m.proxy_target)
        &&& self.valid_object(m.proxy_handler)
        &&& m.callable matches FunctionTarget::Bound(n) ==> n < self.objects.len()
        &&& m.callable matches FunctionTarget::Settle { promise, resolve, reject, .. } ==> promise
            < self.objects.len() && resolve < self.objects.len() && reject < self.objects.len()
        &&& m.kind == Kind::Date ==> m.inner.len() >= 1
        &&& m.kind == Kind::RegExp ==> m.inner.len() >= 3 && m.inner[0] is Text && m.inner[1] is Text
        &&& forall|i: int| 0 <= i < m.inner.len() ==> self.valid(#[trigger] m.inner[i])
        &&& forall|i: int| 0 <= i < m.elements.len() ==> self.valid(#[trigger] m.elements[i])
        &&& forall|i: int| 0 <= i < m.named.list.len() ==> self.valid_prop(#[trigger] m.named.list[i])
    }

    /// Whether every object refers to what the heap holds.
    pub open spec fn closed(self) -> bool {
        &&& forall|i: int| 0 <= i < self.objects.len() ==> self.valid_refs(#[trigger] self.objects[i])
        &&& forall|i: int| 0 <= i < self.registry.len() ==> (#[trigger] self.registry[i]).1 < self.symbols
    }

    /// Whether all that is in range here is in range in a later heap.
    pub open spec fn within(self, later: HeapModel) -> bool {
        &&& self.texts.len() <= later.texts.len()
        &&& self.objects.len() <= later.objects.len()
        &&& self.symbols <= later.symbols
        &&& self.bigints.len() <= later.bigints.len()
    }
}

/// The first symbol from `i` on that is shared under a text.
pub open spec fn first_under(reg: Seq<(Seq<u16>, usize)>, key: Seq<u16>, i: int) -> Option<usize>
    decreases reg.len() - i,
{
    if i < 0 || i >= reg.len() {
        None
    } else if reg[i].0 == key {
        Some(reg[i].1)
    } else {
        first_under(reg, key, i + 1)
    }
}

/// The first text from `i` on under which a symbol is shared.
pub open spec fn first_of(reg: Seq<(Seq<u16>, usize)>, symbol: usize, i: int) -> Option<Seq<u16>>
    decreases reg.len() - i,
{
    if i < 0 || i >= reg.len() {
        None
    } else if reg[i].1 == symbol {
        Some(reg[i].0)
    } else {
        first_of(reg, symbol, i + 1)
    }
}

impl HeapModel {
    /// The symbol that is shared under a text.
    pub open spec fn symbol_of(self, key: Seq<u16>) -> Option<usize> {
        first_under(self.registry, key, 0)
    }

    /// The text under which a symbol is shared.
    pub open spec fn key_of(self, symbol: usize) -> Option<Seq<u16>> {
        first_of(self.registry, symbol, 0)
    }
}

/// A text that the heap holds has one number.
pub proof fn lemma_text_id(h: HeapModel, i: int)
    requires
        h.distinct_texts(),
        0 <= i < h.texts.len(),
        i <= usize::MAX,
    ensures
        h.has_text(h.texts[i]),
        h.text_id(h.texts[i]) == i,
{
    let t = h.texts[i];
    let j = choose|j: int| 0 <= j < h.texts.len() && #[trigger] h.texts[j] == t;
    assert(h.texts[i] == t);
    if j < i {
        assert(h.texts[j] != h.texts[i]);
    } else if i < j {
        assert(h.texts[i] != h.texts[j]);
    }
}

/// A text that was put into the heap is there under its number.
pub proof fn lemma_interned(h: HeapModel, t: Seq<u16>)
    requires
        h.texts.len() <= usize::MAX,
    ensures
        h.text_id(t) < h.interned(t).texts.len(),
        h.interned(t).texts[h.text_id(t) as int] == t,
        h.interned(t).has_text(t),
        h.distinct_texts() ==> h.interned(t).text_id(t) == h.text_id(t),
{
    let h1 = h.interned(t);
    if !h.has_text(t) {
        assert(h1.texts[h.texts.len() as int] == t);
        let j = choose|j: int| 0 <= j < h1.texts.len() && #[trigger] h1.texts[j] == t;
        if j < h.texts.len() {
            assert(h.texts[j] == t);
        }
    }
}

/// What an object refers to stays in range as the heap grows.
pub proof fn lemma_refs_within(a: HeapModel, b: HeapModel, m: ObjModel)
    requires
        a.within(b),
        a.valid_refs(m),
    ensures
        b.valid_refs(m),
{
    assert forall|i: int| 0 <= i < m.inner.len() implies b.valid(#[trigger] m.inner[i]) by {
        assert(a.valid(m.inner[i]));
    }
    assert forall|i: int| 0 <= i < m.elements.len() implies b.valid(#[trigger] m.elements[i]) by {
        assert(a.valid(m.elements[i]));
    }
    assert forall|i: int| 0 <= i < m.named.list.len() implies b.valid_prop(
        #[trigger] m.named.list[i],
    ) by {
        assert(a.valid_prop(m.named.list[i]));
    }
}

/// Changing or adding one object keeps the others' references in range.
pub proof fn lemma_closed_with(h: HeapModel, later: HeapModel)
    requires
        h.closed(),
        h.within(later),
        forall|i: int| 0 <= i < later.objects.len() ==> (i < h.objects.len() && #[trigger] later.objects[i] == h.objects[i]) || later.valid_refs(later.objects[i]),
        forall|i: int| 0 <= i < later.registry.len() ==> (#[trigger] later.registry[i]).1 < later.symbols,
    ensures
        later.closed(),
{
    assert forall|i: int| 0 <= i < later.objects.len() implies later.valid_refs(
        #[trigger] later.objects[i],
    ) by {
        if i < h.objects.len() && later.objects[i] == h.objects[i] {
            assert(h.valid_refs(h.objects[i]));
            lemma_refs_within(h, later, h.objects[i]);
        }
    }
}

/// Replacing one object by one whose references are in range keeps all in range.
pub proof fn lemma_closed_update(h: HeapModel, n: usize)
    requires
        h.closed(),
        n < h.objects.len(),
    ensures
        forall|m: ObjModel| h.valid_refs(m) ==> #[trigger] h.with_object(n, m).closed(),
{
    assert forall|m: ObjModel| h.valid_refs(m) implies #[trigger] h.with_object(n, m).closed() by {
        lemma_refs_within(h, h.with_object(n, m), m);
        lemma_closed_with(h, h.with_object(n, m));
    }
}

/// An object.
pub struct JsObject {
    /// What sort of object it is.
    pub kind: Kind,
    /// Whether it may get new properties.
    pub extensible: bool,
    /// How far it is closed against changes.
    pub integrity: Integrity,
    /// Its prototype.
    pub prototype: Option<usize>,
    /// Its named properties.
    pub named: Properties,
    /// Its internal slots.
    pub inner: Slots,
    /// Its elements, with holes.
    pub elements: Vec<JsValue>,
    /// What it runs when called.
    pub callable: FunctionTarget,
    /// Target of a proxy.
    pub proxy_target: Option<usize>,
    /// Handler of a proxy.
    pub proxy_handler: Option<usize>,
}

impl View for JsObject {
    type V = ObjModel;

    open spec fn view(&self) -> ObjModel {
        ObjModel {
            kind: self.kind,
            extensible: self.extensible,
            integrity: self.integrity,
            prototype: self.prototype,
            named: self.named@,
            inner: self.inner@,
            elements: self.elements@,
            callable: self.callable,
            proxy_target: self.proxy_target,
            proxy_handler: self.proxy_handler,
        }
    }
}

/// An ordinary object of the given sort without properties.
pub open spec fn plain_object(kind: Kind) -> ObjModel {
    ObjModel {
        kind,
        extensible: true,
        integrity: Integrity::Open,
        prototype: None,
        named: Named { list: Seq::empty(), base: 0, spilled: false },
        inner: Seq::empty(),
        elements: Seq::empty(),
        callable: FunctionTarget::Bytecode(0),
        proxy_target: None,
        proxy_handler: None,
    }
}

impl JsObject {
    /// An object of the given sort without properties.
    pub fn plain(kind: Kind) -> (r: JsObject)
        ensures
            r@ == plain_object(kind),
            r.named.wf(),
    {
        let r = JsObject {
            kind,
            extensible: true,
            integrity: Integrity::Open,
            prototype: None,
            named: Properties::new(),
            inner: Slots::new(),
            elements: Vec::new(),
            callable: FunctionTarget::Bytecode(0),
            proxy_target: None,
            proxy_handler: None,
        };
        proof {
            assert(r.inner@ =~= Seq::<JsValue>::empty());
            assert(r.elements@ =~= Seq::<JsValue>::empty());
        }
        r
    }
}

/// A big integer: its sign and its bytes, lowest first.
pub struct BigInt {
    /// Whether it is negative.
    pub sign: bool,
    /// Its magnitude.
    pub magnitude_le: Vec<u8>,
}

/// The heap.
pub struct Heap {
    texts: Vec<Vec<u16>>,
    objects: Vec<JsObject>,
    symbols: usize,
    registry: Vec<(Vec<u16>, usize)>,
    bigints: Vec<BigInt>,
    answers: Vec<Answer>,
    sink: Vec<Job>,
}

impl View for Heap {
    type V = HeapModel;

    closed spec fn view(&self) -> HeapModel {
        HeapModel {
            texts: Seq::new(self.texts@.len(), |i: int| self.texts@[i]@),
            objects: Seq::new(self.objects@.len(), |i: int| self.objects@[i]@),
            symbols: self.symbols as nat,
            registry: Seq::new(
                self.registry@.len(),
                |i: int| (self.registry@[i].0@, self.registry@[i].1),
            ),
            bigints: Seq::new(
                self.bigints@.len(),
                |i: int| (self.bigints@[i].sign, self.bigints@[i].magnitude_le@),
            ),
            answers: self.answers@,
            sink: self.sink@,
        }
    }
}

impl Heap {
    /// Whether every object's properties fit together, no text occurs twice, and
    /// whatever an object refers to is there.
    pub closed spec fn wf(&self) -> bool {
        &&& forall|i: int| 0 <= i < self.objects@.len() ==> (#[trigger] self.objects@[i]).named.wf()
        &&& self@.distinct_texts()
        &&& self@.closed()
    }

    /// What a well-formed heap holds.
    pub proof fn lemma_wf(&self)
        requires
            self.wf(),
        ensures
            self@.closed(),
            self@.distinct_texts(),
    {
    }

    /// An empty heap.
    pub fn new() -> (r: Heap)
        ensures
            r.wf(),
            r@.texts.len() == 0,
            r@.objects.len() == 0,
            r@.symbols == 0,
            r@.registry.len() == 0,
            r@.bigints.len() == 0,
            r@.answers.len() == 0,
            r@.sink.len() == 0,
    {
        Heap {
            texts: Vec::new(),
            objects: Vec::new(),
            symbols: 0,
            registry: Vec::new(),
            bigints: Vec::new(),
            answers: Vec::new(),
            sink: Vec::new(),
        }
    }

    /// Takes over what getters have come to for the call that is made next.
    pub fn set_answers(&mut self, answers: Vec<Answer>)
        requires
            old(self).wf(),
        ensures
            final(self).wf(),
            final(self)@ == (HeapModel { answers: answers@, ..old(self)@ }),
    {
        let ghost before = *self;
        self.answers = answers;
        proof {
            assert(self@.texts =~= before@.texts);
            assert(self@.objects =~= before@.objects);
            assert(self@.registry =~= before@.registry);
            assert(self@.bigints =~= before@.bigints);
            lemma_closed_with(before@, self@);
        }
    }

    /// Takes what a getter came to on an owner, where that is the next answer.
    pub fn take_answer(&mut self, getter: usize, owner: usize) -> (r: Option<Result<JsValue, JsValue>>)
        requires
            old(self).wf(),
        ensures
            final(self).wf(),
            r == old(self)@.answer(getter, owner),
            final(self)@ == if r is Some {
                old(self)@.answered()
            } else {
                old(self)@
            },
    {
        if self.answers.len() == 0 {
            return None;
        }
        let a: Answer = self.answers[0];
        let v: JsValue = match a.outcome {
            Ok(v) => v,
            Err(v) => v,
        };
        if a.getter != getter || a.owner != owner || !self.is_valid(v) {
            return None;
        }
        let ghost before = *self;
        let _ = self.answers.remove(0);
        proof {
            assert(self@.texts =~= before@.texts);
            assert(self@.objects =~= before@.objects);
            assert(self@.registry =~= before@.registry);
            assert(self@.bigints =~= before@.bigints);
            lemma_closed_with(before@, self@);
        }
        Some(a.outcome)
    }

    /// Keeps jobs that a getter has queued.
    pub fn queue_jobs(&mut self, jobs: Vec<Job>)
        requires
            old(self).wf(),
        ensures
            final(self).wf(),
            final(self)@ == old(self)@.with_jobs(jobs@),
    {
        let ghost before = *self;
        let mut more: Vec<Job> = jobs;
        self.sink.append(&mut more);
        proof {
            assert(self@.texts =~= before@.texts);
            assert(self@.objects =~= before@.objects);
            assert(self@.registry =~= before@.registry);
            assert(self@.bigints =~= before@.bigints);
            lemma_closed_with(before@, self@);
        }
    }

    /// Takes the jobs that getters have queued.
    pub fn take_jobs(&mut self) -> (r: Vec<Job>)
        requires
            old(self).wf(),
        ensures
            final(self).wf(),
            r@ == old(self)@.sink,
            final(self)@ == (HeapModel { sink: Seq::empty(), ..old(self)@ }),
    {
        let ghost before = *self;
        let mut out: Vec<Job> = Vec::new();
        out.append(&mut self.sink);
        proof {
            assert(out@ =~= before@.sink);
            assert(self@.sink =~= Seq::<Job>::empty());
            assert(self@.texts =~= before@.texts);
            assert(self@.objects =~= before@.objects);
            assert(self@.registry =~= before@.registry);
            assert(self@.bigints =~= before@.bigints);
            lemma_closed_with(before@, self@);
        }
        out
    }

    /// The number of a text that the heap holds.
    pub fn find(&self, t: &[u16]) -> (r: Option<usize>)
        requires
            self.wf(),
        ensures
            match r {
                Some(i) => self@.has_text(t@) && i == self@.text_id(t@) && i < self@.texts.len()
                    && self@.texts[i as int] == t@,
                None => !self@.has_text(t@),
            },
    {
        let ghost before = self@;
        let mut i: usize = 0;
        while i < self.texts.len()
            invariant
                self@ == before,
                self.wf(),
                i <= self.texts@.len(),
                forall|k: int| 0 <= k < i ==> #[trigger] before.texts[k] != t@,
            decreases self.texts@.len() - i,
        {
            if same_units(self.texts[i].as_slice(), t) {
                proof {
                    assert(before.texts[i as int] == t@);
                    let j = choose|j: int| 0 <= j < before.texts.len() && #[trigger] before.texts[j] == t@;
                    if j < i {
                        assert(before.texts[j] != before.texts[i as int]);
                    } else if i < j {
                        assert(before.texts[i as int] != before.texts[j]);
                    }
                }
                return Some(i);
            }
            proof {
                assert(before.texts[i as int] != t@);
            }
            i = i + 1;
        }
        proof {
            assert(!before.has_text(t@));
        }
        None
    }

    /// The number of a text, which is put into the heap where it is not there yet.
    pub fn intern(&mut self, t: &[u16]) -> (r: usize)
        requires
            old(self).wf(),
        ensures
            final(self).wf(),
            final(self)@ == old(self)@.interned(t@),
            r == old(self)@.text_id(t@),
            r < final(self)@.texts.len(),
            final(self)@.texts[r as int] == t@,
    {
        let ghost before = self@;
        match self.find(t) {
            Some(i) => {
                return i;
            },
            None => {},
        }
        let i: usize = self.texts.len();
        let copy: Vec<u16> = crate::text::copy_range(t, 0, t.len());
        self.texts.push(copy);
        proof {
            assert(copy@ =~= t@);
            assert(self@.texts =~= before.texts.push(t@));
            assert(self@.objects =~= before.objects);
            assert(self@.registry =~= before.registry);
            assert(self@.bigints =~= before.bigints);
            assert forall|a: int, b: int| 0 <= a < b < self@.texts.len() implies
                #[trigger] self@.texts[a] != #[trigger] self@.texts[b] by {
                if b == before.texts.len() {
                    assert(before.texts[a] != t@);
                } else {
                    assert(before.texts[a] != before.texts[b]);
                }
            }
            lemma_closed_with(before, self@);
        }
        i
    }

    /// The number of a Rust string's text.
    pub fn intern_text(&mut self, s: &str) -> (r: usize)
        requires
            old(self).wf(),
        ensures
            final(self).wf(),
            final(self)@ == old(self)@.interned(utf16_of(s@)),
            r == old(self)@.text_id(utf16_of(s@)),
            r < final(self)@.texts.len(),
            final(self)@.texts[r as int] == utf16_of(s@),
    {
        let units: Vec<u16> = utf16(s);
        self.intern(units.as_slice())
    }

    /// The text with the number `n`.
    pub fn text(&self, n: usize) -> (r: &Vec<u16>)
        requires
            n < self@.texts.len(),
        ensures
            r@ == self@.texts[n as int],
    {
        &self.texts[n]
    }

    /// The object with the number `n`.
    pub fn object(&self, n: usize) -> (r: &JsObject)
        requires
            self.wf(),
            n < self@.objects.len(),
        ensures
            r@ == self@.objects[n as int],
            r.named.wf(),
            self@.valid_refs(r@),
    {
        proof {
            assert(self@.valid_refs(self@.objects[n as int]));
        }
        &self.objects[n]
    }

    /// How many objects there are.
    pub fn object_count(&self) -> (r: usize)
        ensures
            r == self@.objects.len(),
    {
        self.objects.len()
    }

    /// Whether a value's number is in range.
    pub fn is_valid(&self, v: JsValue) -> (r: bool)
        ensures
            r == self@.valid(v),
    {
        match v {
            JsValue::Text(n) => n < self.texts.len(),
            JsValue::Object(n) => n < self.objects.len(),
            JsValue::Symbol(n) => n < self.symbols,
            JsValue::BigInt(n) => n < self.bigints.len(),
            _ => true,
        }
    }

    /// How many symbols there are.
    pub fn symbol_count(&self) -> (r: usize)
        ensures
            r == self@.symbols,
    {
        self.symbols
    }

    /// How many texts there are.
    pub fn text_count(&self) -> (r: usize)
        ensures
            r == self@.texts.len(),
    {
        self.texts.len()
    }

    /// Puts an object into the heap.
    pub fn allocate(&mut self, o: JsObject) -> (r: usize)
        requires
            old(self).wf(),
            o.named.wf(),
            old(self)@.valid_refs(o@),
        ensures
            final(self).wf(),
            final(self)@ == old(self)@.with_new(o@),
            r == old(self)@.objects.len(),
            r < final(self)@.objects.len(),
    {
        let ghost before = *self;
        let r: usize = self.objects.len();
        self.objects.push(o);
        proof {
            assert(self@.objects =~= before@.objects.push(o@));
            assert(self@.texts =~= before@.texts);
            assert(self@.registry =~= before@.registry);
            lemma_refs_within(before@, self@, o@);
            lemma_closed_with(before@, self@);
        }
        r
    }

    /// The object with the number `n`, to be changed.
    pub fn object_mut(&mut self, n: usize) -> (r: &mut JsObject)
        requires
            old(self).wf(),
            n < old(self)@.objects.len(),
        ensures
            (*r)@ == old(self)@.objects[n as int],
            r.named.wf(),
            old(self)@.valid_refs((*r)@),
            final(self)@ == old(self)@.with_object(n, (*final(r))@),
            final(r).named.wf() && old(self)@.valid_refs((*final(r))@) ==> final(self).wf(),
    {
        let ghost before = *self;
        let r = &mut self.objects[n];
        proof {
            assert(after_borrow(self).objects@ == before.objects@.update(n as int, *final(r)));
            assert(after_borrow(self)@.objects =~= before@.objects.update(n as int, (*final(r))@));
            assert(after_borrow(self)@.texts =~= before@.texts);
            assert(before@.valid_refs(before@.objects[n as int]));
            lemma_closed_update(before@, n);
            assert(after_borrow(self)@ == before@.with_object(n, (*final(r))@));
        }
        r
    }

    /// Makes a symbol.
    pub fn new_symbol(&mut self) -> (r: usize)
        requires
            old(self).wf(),
            old(self)@.symbols < usize::MAX,
        ensures
            final(self).wf(),
            final(self)@ == (HeapModel { symbols: old(self)@.symbols + 1, ..old(self)@ }),
            r == old(self)@.symbols,
    {
        let ghost before = *self;
        let r: usize = self.symbols;
        self.symbols = r + 1;
        proof {
            assert(self@.texts =~= before@.texts);
            assert(self@.objects =~= before@.objects);
            assert(self@.registry =~= before@.registry);
            assert(self@.bigints =~= before@.bigints);
            assert forall|i: int| 0 <= i < self@.registry.len() implies (
            #[trigger] self@.registry[i]).1 < self@.symbols by {
                assert(before@.registry[i].1 < before@.symbols);
            }
            lemma_closed_with(before@, self@);
        }
        r
    }

    /// The symbol that is shared under a text.
    pub fn shared_symbol(&self, key: &[u16]) -> (r: Option<usize>)
        requires
            self.wf(),
        ensures
            r == self@.symbol_of(key@),
            r matches Some(s) ==> s < self@.symbols,
    {
        let ghost reg = self@.registry;
        let mut i: usize = 0;
        while i < self.registry.len()
            invariant
                self.wf(),
                reg == self@.registry,
                i <= self.registry@.len(),
                first_under(reg, key@, 0) == first_under(reg, key@, i as int),
            decreases self.registry@.len() - i,
        {
            proof {
                assert(reg[i as int] == (self.registry@[i as int].0@, self.registry@[i as int].1));
            }
            if same_units(self.registry[i].0.as_slice(), key) {
                return Some(self.registry[i].1);
            }
            i = i + 1;
        }
        None
    }

    /// The text under which a symbol is shared.
    pub fn symbol_key(&self, symbol: usize) -> (r: Option<Vec<u16>>)
        requires
            self.wf(),
        ensures
            match (r, self@.key_of(symbol)) {
                (Some(t), Some(k)) => t@ == k,
                (None, None) => true,
                _ => false,
            },
    {
        let ghost reg = self@.registry;
        let mut i: usize = 0;
        while i < self.registry.len()
            invariant
                self.wf(),
                reg == self@.registry,
                i <= self.registry@.len(),
                first_of(reg, symbol, 0) == first_of(reg, symbol, i as int),
            decreases self.registry@.len() - i,
        {
            proof {
                assert(reg[i as int] == (self.registry@[i as int].0@, self.registry@[i as int].1));
            }
            if self.registry[i].1 == symbol {
                let t: &Vec<u16> = &self.registry[i].0;
                let copy: Vec<u16> = crate::text::copy_range(t.as_slice(), 0, t.len());
                proof {
                    assert(copy@ =~= t@);
                }
                return Some(copy);
            }
            i = i + 1;
        }
        None
    }

    /// Shares a symbol under a text.
    pub fn share_symbol(&mut self, key: &[u16], symbol: usize)
        requires
            old(self).wf(),
            symbol < old(self)@.symbols,
        ensures
            final(self).wf(),
            final(self)@ == (HeapModel {
                registry: old(self)@.registry.push((key@, symbol)),
                ..old(self)@
            }),
    {
        let ghost before = *self;
        let copy: Vec<u16> = crate::text::copy_range(key, 0, key.len());
        self.registry.push((copy, symbol));
        proof {
            assert(copy@ =~= key@);
            assert(self@.registry =~= before@.registry.push((key@, symbol)));
            assert(self@.texts =~= before@.texts);
            assert(self@.objects =~= before@.objects);
            assert(self@.bigints =~= before@.bigints);
            assert forall|i: int| 0 <= i < self@.registry.len() implies (
            #[trigger] self@.registry[i]).1 < self@.symbols by {
                if i < before@.registry.len() {
                    assert(before@.registry[i].1 < before@.symbols);
                }
            }
            lemma_closed_with(before@, self@);
        }
    }

    /// Puts a big integer into the heap.
    pub fn new_bigint(&mut self, b: BigInt) -> (r: usize)
        requires
            old(self).wf(),
        ensures
            final(self).wf(),
            final(self)@ == (HeapModel {
                bigints: old(self)@.bigints.push((b.sign, b.magnitude_le@)),
                ..old(self)@
            }),
            r == old(self)@.bigints.len(),
    {
        let ghost before = *self;
        let r: usize = self.bigints.len();
        self.bigints.push(b);
        proof {
            assert(self@.bigints =~= before@.bigints.push((b.sign, b.magnitude_le@)));
            assert(self@.texts =~= before@.texts);
            assert(self@.objects =~= before@.objects);
            assert(self@.registry =~= before@.registry);
            lemma_closed_with(before@, self@);
        }
        r
    }

    /// The big integer with the number `n`.
    pub fn bigint(&self, n: usize) -> (r: &BigInt)
        requires
            n < self@.bigints.len(),
        ensures
            (r.sign, r.magnitude_le@) == self@.bigints[n as int],
    {
        &self.bigints[n]
    }
}

} // verus!

//! New objects with data properties of given names.
use vstd::prelude::*;

use crate::heap::{Heap, HeapModel, JsObject, ObjModel, lemma_text_id};
use crate::properties::{Prop, PropBody, distinct_keys, properties_of, shaped};
use crate::text::utf16_of;
use crate::value::{Attrs, JsValue, PropKey};

verus! {

/// The heap with the first `n` of the names as texts.
pub open spec fn with_texts(h: HeapModel, names: Seq<&'static str>, n: int) -> HeapModel
    decreases n,
{
    if n <= 0 {
        h
    } else {
        with_texts(h, names, n - 1).interned(utf16_of(names[n - 1]@))
    }
}

/// Whether no name occurs twice.
pub open spec fn distinct_names(names: Seq<&'static str>) -> bool {
    forall|i: int, j: int|
        #![trigger names[i], names[j]]
        0 <= i < j < names.len() ==> utf16_of(names[i]@) != utf16_of(names[j]@)
}

/// Data properties of the given names and values.
pub open spec fn record_props(
    h: HeapModel,
    names: Seq<&'static str>,
    values: Seq<JsValue>,
    attrs: Attrs,
) -> Seq<Prop> {
    Seq::new(
        names.len(),
        |i: int|
            Prop {
                key: PropKey::Text(h.text_id(utf16_of(names[i]@))),
                attrs,
                body: PropBody::Data(values[i]),
            },
    )
}

/// The heap with a new object that has data properties of the given names and values.
pub open spec fn recorded(
    h: HeapModel,
    base: ObjModel,
    names: Seq<&'static str>,
    values: Seq<JsValue>,
    attrs: Attrs,
) -> HeapModel {
    let h1 = with_texts(h, names, names.len() as int);
    h1.with_new(ObjModel { named: shaped(record_props(h1, names, values, attrs)), ..base })
}

/// Names as texts of the heap change no object.
pub proof fn lemma_with_texts(h: HeapModel, names: Seq<&'static str>, n: int)
    ensures
        with_texts(h, names, n).objects == h.objects,
        with_texts(h, names, n).symbols == h.symbols,
        with_texts(h, names, n).registry == h.registry,
        with_texts(h, names, n).bigints == h.bigints,
        with_texts(h, names, n).answers == h.answers,
        with_texts(h, names, n).sink == h.sink,
        h.texts.is_prefix_of(with_texts(h, names, n).texts),
    decreases n,
{
    if n > 0 {
        lemma_with_texts(h, names, n - 1);
        let g = with_texts(h, names, n - 1);
        assert(g.texts.is_prefix_of(g.interned(utf16_of(names[n - 1]@)).texts));
    }
}

/// The heap with the names as texts has each of them.
pub proof fn lemma_has_texts(h: HeapModel, names: Seq<&'static str>, n: int, i: int)
    requires
        0 <= i < n,
    ensures
        with_texts(h, names, n).has_text(utf16_of(names[i]@)),
    decreases n,
{
    let g = with_texts(h, names, n - 1);
    let t = utf16_of(names[n - 1]@);
    let g1 = g.interned(t);
    if i < n - 1 {
        lemma_has_texts(h, names, n - 1, i);
        let k = choose|k: int|
            0 <= k < g.texts.len() && #[trigger] g.texts[k] == utf16_of(names[i]@);
        assert(g1.texts[k] == g.texts[k]);
    } else if !g.has_text(t) {
        assert(g1.texts[g.texts.len() as int] == t);
    }
}

/// Makes an object that has data properties of the given names and values.
pub fn make_record(
    heap: &mut Heap,
    base: JsObject,
    names: &Vec<&'static str>,
    values: &Vec<JsValue>,
    attrs: Attrs,
) -> (r: usize)
    requires
        old(heap).wf(),
        old(heap)@.valid_refs(base@),
        base.named.wf(),
        names@.len() == values@.len(),
        distinct_names(names@),
        forall|i: int| 0 <= i < values@.len() ==> old(heap)@.valid(#[trigger] values@[i]),
    ensures
        final(heap).wf(),
        final(heap)@ == recorded(old(heap)@, base@, names@, values@, attrs),
        r == old(heap)@.objects.len(),
        r < final(heap)@.objects.len(),
        old(heap)@.extends_to(final(heap)@, old(heap)@.objects.len() as int),
        old(heap)@.within(final(heap)@),
{
    let ghost h = heap@;
    let mut ids: Vec<usize> = Vec::new();
    let mut i: usize = 0;
    while i < names.len()
        invariant
            i <= names@.len(),
            ids@.len() == i,
            heap.wf(),
            heap@ == with_texts(h, names@, i as int),
            h.texts.is_prefix_of(heap@.texts),
            forall|k: int|
                0 <= k < i ==> ids@[k] < heap@.texts.len() && heap@.texts[#[trigger] ids@[k] as int]
                    == utf16_of(names@[k]@),
        decreases names@.len() - i,
    {
        let ghost g = heap@;
        let id: usize = heap.intern_text(names[i]);
        ids.push(id);
        proof {
            assert(g.texts.is_prefix_of(heap@.texts));
            assert forall|k: int| 0 <= k < i + 1 implies ids@[k] < heap@.texts.len()
                && heap@.texts[#[trigger] ids@[k] as int] == utf16_of(names@[k]@) by {
                if k < i {
                    assert(g.texts[ids@[k] as int] == heap@.texts[ids@[k] as int]);
                }
            }
        }
        i = i + 1;
    }
    let ghost h1 = heap@;
    proof {
        lemma_with_texts(h, names@, names@.len() as int);
        heap.lemma_wf();
    }
    let mut props: Vec<Prop> = Vec::new();
    i = 0;
    while i < names.len()
        invariant
            i <= names@.len(),
            ids@.len() == names@.len(),
            values@.len() == names@.len(),
            h1.distinct_texts(),
            forall|k: int|
                0 <= k < names@.len() ==> ids@[k] < h1.texts.len()
                    && h1.texts[#[trigger] ids@[k] as int] == utf16_of(names@[k]@),
            props@ == record_props(h1, names@, values@, attrs).take(i as int),
        decreases names@.len() - i,
    {
        proof {
            lemma_text_id(h1, ids@[i as int] as int);
        }
        props.push(
            Prop { key: PropKey::Text(ids[i]), attrs, body: PropBody::Data(values[i]) },
        );
        proof {
            assert(props@ =~= record_props(h1, names@, values@, attrs).take(i + 1));
        }
        i = i + 1;
    }
    proof {
        let all = record_props(h1, names@, values@, attrs);
        assert(all.take(i as int) =~= all);
        assert forall|k: int| 0 <= k < all.len() implies (#[trigger] all[k]).key == PropKey::Text(
            ids@[k],
        ) by {
            lemma_text_id(h1, ids@[k] as int);
        }
        assert forall|a: int, b: int| 0 <= a < b < all.len() implies #[trigger] all[a].key
            != #[trigger] all[b].key by {
            assert(utf16_of(names@[a]@) != utf16_of(names@[b]@));
        }
        assert(distinct_keys(props@));
    }
    let mut o: JsObject = base;
    o.named = properties_of(&props);
    proof {
        assert(o@ == ObjModel { named: shaped(props@), ..base@ });
        assert forall|k: int| 0 <= k < o@.named.list.len() implies h1.valid_prop(
            #[trigger] o@.named.list[k],
        ) by {
            assert(ids@[k] < h1.texts.len());
            lemma_text_id(h1, ids@[k] as int);
            assert(h.valid(values@[k]));
        }
        crate::heap::lemma_refs_within(h, h1, base@);
        assert(h1.valid_refs(o@));
    }
    heap.allocate(o)
}

} // verus!

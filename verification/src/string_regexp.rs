//! Methods of texts that take regular expressions. Where matches are needed, a method
//! says so, the matches are collected one by one, and a second function makes the result
//! of them.
use vstd::prelude::*;

use crate::array::bare_array;
use crate::convert::{int_value, smi_or_f64, text_of, to_text};
use crate::ctx::{arg, arg_of, valid_args};
use crate::descriptor::{Fault, is_fault};
use crate::double::{below, equal, fadd, feq, flt, from_i64, int_double, sum};
use crate::heap::{Heap, HeapModel, JsObject, ObjModel, plain_object};
use crate::regexp::{
    RegexMatch, flag_set, flags_text, has_flag, last_index, last_index_of, regexp_slots,
    regexp_source_flags, set_last_index, source_text, with_last_index,
};
use crate::string::{
    expand_replacement, expanded, found_from, found_in, heap_ends_in, stands_at, text_result,
    text_value, this_string, utf16_find,
};
use crate::text::{copy_range, is_high, is_low, push_all, to_well_formed, views, well_formed};
use crate::value::{JsValue, Kind, Throw};

verus! {

/// What is left to do for a method.
#[derive(Debug)]
pub enum TextTask {
    /// Nothing: this is the result.
    Done(JsValue),
    /// One match of the expression in the text.
    Exec(usize, Vec<u16>),
    /// The matches of the expression in the text, all of them or the first.
    Collect(usize, Vec<u16>, bool),
}

/// What is left to do for a method, seen from outside.
pub ghost enum TaskModel {
    /// Nothing: this is the result.
    Done(JsValue),
    /// One match of the expression in the text.
    Exec(usize, Seq<u16>),
    /// The matches of the expression in the text, all of them or the first.
    Collect(usize, Seq<u16>, bool),
}

/// Whether a task is the expected one.
pub open spec fn is_task(t: TextTask, m: TaskModel) -> bool {
    match (t, m) {
        (TextTask::Done(a), TaskModel::Done(b)) => a == b,
        (TextTask::Exec(o, s), TaskModel::Exec(p, t)) => o == p && s@ == t,
        (TextTask::Collect(o, s, g), TaskModel::Collect(p, t, k)) => o == p && s@ == t && g == k,
        _ => false,
    }
}

/// Whether a function left the heap and returned the task that are expected.
pub open spec fn task_ends_in(
    after: Heap,
    r: Result<TextTask, Throw>,
    expected: (HeapModel, Result<TaskModel, Fault>),
) -> bool {
    &&& after.wf()
    &&& after@ == expected.0
    &&& r matches Ok(TextTask::Done(v)) ==> after@.valid(v)
    &&& match expected.1 {
        Ok(m) => r is Ok && is_task(r->Ok_0, m),
        Err(f) => r is Err && is_fault(r->Err_0, f),
    }
}

/// The receiver's text, or the error of a method that is called on something else.
pub open spec fn text_receiver(h: HeapModel, this: JsValue, method: Seq<char>) -> Result<
    Seq<u16>,
    Fault,
> {
    match this {
        JsValue::Text(n) => Ok(well_formed(h.texts[n as int])),
        _ => Err(Fault::Text("TypeError: "@ + method + " called on non-string"@)),
    }
}

/// The regular expression that a value is.
pub open spec fn as_regexp_of(h: HeapModel, v: JsValue) -> Option<usize> {
    match v {
        JsValue::Object(o) => if h.objects[o as int].kind == Kind::RegExp {
            Some(o)
        } else {
            None
        },
        _ => None,
    }
}

/// The regular expression that a value is.
fn as_regexp(heap: &Heap, v: JsValue) -> (r: Option<usize>)
    requires
        heap.wf(),
        heap@.valid(v),
    ensures
        r == as_regexp_of(heap@, v),
        r matches Some(o) ==> o < heap@.objects.len() && heap@.objects[o as int].kind
            == Kind::RegExp,
{
    match v {
        JsValue::Object(o) => if heap.object(o).kind == Kind::RegExp {
            Some(o)
        } else {
            None
        },
        _ => None,
    }
}

/// Puts an array into the heap.
fn push_array(heap: &mut Heap, items: Vec<JsValue>) -> (r: JsValue)
    requires
        old(heap).wf(),
        valid_args(old(heap)@, items@),
    ensures
        final(heap).wf(),
        final(heap)@ == old(heap)@.with_new(bare_array(items@)),
        r == JsValue::Object(old(heap)@.objects.len() as usize),
{
    let mut o: JsObject = JsObject::plain(Kind::Array);
    o.elements = items;
    proof {
        assert(o@ == bare_array(items@));
    }
    JsValue::Object(heap.allocate(o))
}

/// A text, or nothing where an argument is missing.
pub open spec fn text_or_empty(h: HeapModel, args: Seq<JsValue>, i: int) -> Seq<u16> {
    if 0 <= i < args.len() {
        text_of(h, args[i])
    } else {
        seq![]
    }
}

/// A text, or nothing where an argument is missing.
pub fn arg_or_empty(heap: &Heap, args: &[JsValue], i: usize) -> (r: Vec<u16>)
    requires
        heap.wf(),
        valid_args(heap@, args@),
    ensures
        r@ == text_or_empty(heap@, args@, i as int),
{
    if i < args.len() {
        to_text(heap, args[i])
    } else {
        let none: Vec<u16> = Vec::new();
        proof {
            assert(none@ =~= Seq::<u16>::empty());
        }
        none
    }
}

// ---------------------------------------------------------------------------
// Collecting matches
// ---------------------------------------------------------------------------

/// Where a match lies, and the texts of its groups.
#[derive(Debug)]
pub struct MatchSpan {
    /// Start of the match.
    pub start: usize,
    /// End of the match.
    pub end: usize,
    /// Texts of the groups 1 to 9, empty where they took no part.
    pub groups: Vec<Vec<u16>>,
}

/// Where a match lies, and the texts of its groups, seen from outside.
pub ghost struct SpanModel {
    /// Start of the match.
    pub start: int,
    /// End of the match.
    pub end: int,
    /// Texts of the groups.
    pub groups: Seq<Seq<u16>>,
}

impl View for MatchSpan {
    type V = SpanModel;

    open spec fn view(&self) -> SpanModel {
        SpanModel { start: self.start as int, end: self.end as int, groups: views(self.groups@) }
    }
}

/// Spans, seen from outside.
pub open spec fn span_models(s: Seq<MatchSpan>) -> Seq<SpanModel> {
    s.map_values(|x: MatchSpan| x@)
}

/// Whether spans lie in a text of the given length, one behind the other.
pub open spec fn in_sequence(s: Seq<SpanModel>, len: int) -> bool {
    &&& forall|i: int|
        0 <= i < s.len() ==> 0 <= (#[trigger] s[i]).start <= s[i].end <= len
    &&& forall|i: int, j: int|
        0 <= i < j < s.len() ==> (#[trigger] s[i]).end <= (#[trigger] s[j]).start
}

/// The first index from `i` on that is not inside a character.
pub open spec fn char_boundary(t: Seq<u16>, i: int) -> int {
    if 0 < i < t.len() && is_low(t[i]) && is_high(t[i - 1]) {
        i + 1
    } else {
        i
    }
}

/// The first index from `i` on that is not inside a character.
fn boundary(t: &[u16], i: usize) -> (r: usize)
    requires
        i <= t@.len(),
    ensures
        r == char_boundary(t@, i as int),
        r <= t@.len(),
{
    if 0 < i && i < t.len() && 0xdc00 <= t[i] && t[i] <= 0xdfff && 0xd800 <= t[i - 1] && t[i - 1]
        <= 0xdbff {
        i + 1
    } else {
        i
    }
}

/// Texts of the groups 1 to 9 of a match.
pub open spec fn group_list(t: Seq<u16>, groups: Seq<Option<(usize, usize)>>) -> Seq<Seq<u16>> {
    Seq::new(
        9,
        |i: int|
            if i < groups.len() {
                match groups[i] {
                    Some((a, b)) => well_formed(t.subrange(a as int, b as int)),
                    None => seq![],
                }
            } else {
                seq![]
            },
    )
}

/// The span of a match.
pub open spec fn span_of(t: Seq<u16>, m: RegexMatch) -> SpanModel {
    SpanModel {
        start: char_boundary(t, m.start as int),
        end: char_boundary(t, m.end as int),
        groups: group_list(t, m.groups@),
    }
}

/// Texts of the groups 1 to 9 of a match.
fn read_groups(t: &[u16], m: &RegexMatch) -> (r: Vec<Vec<u16>>)
    requires
        m.fits(t@.len() as int),
    ensures
        views(r@) == group_list(t@, m.groups@),
{
    let mut out: Vec<Vec<u16>> = Vec::new();
    let mut i: usize = 0;
    let ghost all = group_list(t@, m.groups@);
    proof {
        assert(views(out@) =~= all.take(0));
    }
    while i < 9
        invariant
            m.fits(t@.len() as int),
            i <= 9,
            all == group_list(t@, m.groups@),
            views(out@) == all.take(i as int),
        decreases 9 - i,
    {
        let ghost before = out@;
        let text: Vec<u16> = if i < m.groups.len() {
            proof {
                assert(match m.groups@[i as int] {
                    Some((a, b)) => a <= b <= t@.len(),
                    None => true,
                });
            }
            match m.groups[i] {
                Some((a, b)) => {
                    let part: Vec<u16> = copy_range(t, a, b);
                    to_well_formed(part.as_slice())
                },
                None => Vec::new(),
            }
        } else {
            Vec::new()
        };
        out.push(text);
        proof {
            assert(text@ =~= all[i as int]);
            assert(views(out@) =~= views(before).push(text@));
            assert(views(out@) =~= all.take(i + 1));
        }
        i = i + 1;
    }
    proof {
        assert(all.take(9) =~= all);
    }
    out
}

/// The matches that were found so far.
#[derive(Debug)]
pub struct Matches {
    /// Where they lie.
    pub spans: Vec<MatchSpan>,
    /// The `lastIndex` that the last one left.
    pub start: u64,
}

impl Matches {
    /// No matches.
    pub fn new() -> (r: Matches)
        ensures
            r.spans@.len() == 0,
            r.start == int_double(0),
    {
        Matches { spans: Vec::new(), start: from_i64(0) }
    }
}

/// Whether a match lies behind the last one that was found.
pub open spec fn lies_behind(acc: Matches, t: Seq<u16>, m: RegexMatch) -> bool {
    m.fits(t.len() as int) && (acc.spans@.len() == 0 || acc.spans@[acc.spans@.len() - 1].end
        <= char_boundary(t, m.start as int))
}

/// Whether a match lies behind the last one that was found.
pub fn follows(acc: &Matches, t: &[u16], m: &RegexMatch) -> (r: bool)
    ensures
        r == lies_behind(*acc, t@, *m),
{
    let n: usize = t.len();
    if m.start > m.end || m.end > n {
        return false;
    }
    let mut i: usize = 0;
    while i < m.groups.len()
        invariant
            n == t@.len(),
            i <= m.groups@.len(),
            forall|k: int|
                0 <= k < i ==> match #[trigger] m.groups@[k] {
                    Some((a, b)) => a <= b <= n,
                    None => true,
                },
        decreases m.groups@.len() - i,
    {
        match m.groups[i] {
            Some((a, b)) => {
                if a > b || b > n {
                    proof {
                        assert(m.groups@[i as int] == Some((a, b)));
                    }
                    return false;
                }
            },
            None => {},
        }
        i = i + 1;
    }
    let k: usize = acc.spans.len();
    k == 0 || acc.spans[k - 1].end <= boundary(t, m.start)
}

/// The heap after a match was noted, where the search goes on, and whether it does: a
/// match that did not move `lastIndex` on moves it by one.
pub open spec fn noted(h: HeapModel, o: usize, start: u64, len: int, global: bool) -> (
    HeapModel,
    u64,
    bool,
) {
    let li = last_index_of(h, o);
    let h1 = if below(li, start) || equal(li, start) {
        with_last_index(h, o, sum(start, int_double(1)))
    } else {
        h
    };
    (h1, li, global && !below(int_double(len), li))
}

/// Notes a match, and says whether the search goes on.
pub fn note_match(heap: &mut Heap, re: usize, t: &[u16], acc: &mut Matches, m: &RegexMatch, global: bool) -> (r:
    bool)
    requires
        old(heap).wf(),
        re < old(heap)@.objects.len(),
        old(heap)@.objects[re as int].kind == Kind::RegExp,
        t@.len() < 0x20_0000_0000_0000,
        lies_behind(*old(acc), t@, *m),
        in_sequence(span_models(old(acc).spans@), t@.len() as int),
    ensures
        final(heap).wf(),
        (final(heap)@, final(acc).start, r) == noted(
            old(heap)@,
            re,
            old(acc).start,
            t@.len() as int,
            global,
        ),
        span_models(final(acc).spans@) == span_models(old(acc).spans@).push(span_of(t@, *m)),
        in_sequence(span_models(final(acc).spans@), t@.len() as int),
{
    let ghost before = acc.spans@;
    let span: MatchSpan = MatchSpan {
        start: boundary(t, m.start),
        end: boundary(t, m.end),
        groups: read_groups(t, m),
    };
    acc.spans.push(span);
    proof {
        let a = span_models(before);
        let b = span_models(acc.spans@);
        assert(b =~= a.push(span_of(t@, *m)));
        assert forall|i: int, j: int| 0 <= i < j < b.len() implies (#[trigger] b[i]).end <= (
        #[trigger] b[j]).start by {
            if j == a.len() {
                let last = a.len() - 1;
                assert(b[i] == a[i]);
                assert(a[last] == before[last]@);
                if i < last {
                    assert(a[i].end <= a[last].start);
                    assert(a[last].start <= a[last].end);
                }
            } else {
                assert(b[i] == a[i] && b[j] == a[j]);
            }
        }
        assert forall|i: int| 0 <= i < b.len() implies 0 <= (#[trigger] b[i]).start <= b[i].end
            <= t@.len() by {
            if i < a.len() {
                assert(b[i] == a[i]);
            }
        }
    }
    let li: u64 = last_index(heap, re);
    if flt(li, acc.start) || feq(li, acc.start) {
        set_last_index(heap, re, fadd(acc.start, from_i64(1)));
    }
    acc.start = li;
    global && !flt(from_i64(t.len() as i64), li)
}

// ---------------------------------------------------------------------------
// match and search
// ---------------------------------------------------------------------------

/// What `match` has to do.
pub open spec fn match_task(h: HeapModel, this: JsValue, args: Seq<JsValue>) -> (
    HeapModel,
    Result<TaskModel, Fault>,
) {
    match text_receiver(h, this, "String.prototype.match"@) {
        Err(f) => (h, Err(f)),
        Ok(t) => match as_regexp_of(h, arg_of(args, 0)) {
            Some(re) => (
                h.interned(t),
                Ok(
                    if has_flag(h, re, 0x67) {
                        TaskModel::Collect(re, t, true)
                    } else {
                        TaskModel::Exec(re, t)
                    },
                ),
            ),
            None => {
                let needle = text_or_empty(h, args, 0);
                match found_in(t, needle, 0) {
                    Some(_) => (
                        h.interned(needle).with_new(
                            bare_array(seq![JsValue::Text(h.text_id(needle))]),
                        ),
                        Ok(TaskModel::Done(JsValue::Object(h.objects.len() as usize))),
                    ),
                    None => (h, Ok(TaskModel::Done(JsValue::Null))),
                }
            },
        },
    }
}

/// `String.prototype.match(regexp)` up to the search.
pub fn string_match(heap: &mut Heap, this: JsValue, args: &[JsValue]) -> (r: Result<TextTask, Throw>)
    requires
        old(heap).wf(),
        old(heap)@.valid(this),
        valid_args(old(heap)@, args@),
    ensures
        task_ends_in(*final(heap), r, match_task(old(heap)@, this, args@)),
{
    let n: usize = match this_string(this, "String.prototype.match") {
        Ok(n) => n,
        Err(t) => {
            return Err(t);
        },
    };
    let t: Vec<u16> = to_well_formed(heap.text(n).as_slice());
    match as_regexp(heap, arg(args, 0)) {
        Some(re) => {
            let global: bool = flag_set(heap, re, 0x67);
            let _ = heap.intern(t.as_slice());
            if global {
                Ok(TextTask::Collect(re, t, true))
            } else {
                Ok(TextTask::Exec(re, t))
            }
        },
        None => {
            let needle: Vec<u16> = arg_or_empty(heap, args, 0);
            match utf16_find(t.as_slice(), needle.as_slice(), 0) {
                Some(_) => {
                    let id: usize = heap.intern(needle.as_slice());
                    let mut items: Vec<JsValue> = Vec::new();
                    items.push(JsValue::Text(id));
                    proof {
                        assert(items@ =~= seq![JsValue::Text(id)]);
                    }
                    Ok(TextTask::Done(push_array(heap, items)))
                },
                None => Ok(TextTask::Done(JsValue::Null)),
            }
        },
    }
}

/// The texts of the first `k` spans, and the heap that holds them.
pub open spec fn span_texts(h: HeapModel, t: Seq<u16>, s: Seq<SpanModel>, k: int) -> (
    HeapModel,
    Seq<JsValue>,
)
    decreases k,
{
    if k <= 0 {
        (h, seq![])
    } else {
        let (h1, items) = span_texts(h, t, s, k - 1);
        let x = t.subrange(s[k - 1].start, s[k - 1].end);
        (h1.interned(x), items.push(JsValue::Text(h1.text_id(x))))
    }
}

/// What `match` makes of all matches.
pub open spec fn match_result_of(h: HeapModel, t: Seq<u16>, s: Seq<SpanModel>) -> (
    HeapModel,
    JsValue,
) {
    if s.len() == 0 {
        (h, JsValue::Null)
    } else {
        let (h1, items) = span_texts(h, t, s, s.len() as int);
        (h1.with_new(bare_array(items)), JsValue::Object(h1.objects.len() as usize))
    }
}

/// The result of `match` for all matches.
pub fn finish_match(heap: &mut Heap, t: &[u16], spans: &Vec<MatchSpan>) -> (r: JsValue)
    requires
        old(heap).wf(),
        in_sequence(span_models(spans@), t@.len() as int),
    ensures
        final(heap).wf(),
        (final(heap)@, r) == match_result_of(old(heap)@, t@, span_models(spans@)),
{
    let ghost h = heap@;
    let ghost s = span_models(spans@);
    if spans.len() == 0 {
        return JsValue::Null;
    }
    let mut items: Vec<JsValue> = Vec::new();
    let mut i: usize = 0;
    proof {
        assert(items@ =~= Seq::<JsValue>::empty());
    }
    while i < spans.len()
        invariant
            heap.wf(),
            s == span_models(spans@),
            in_sequence(s, t@.len() as int),
            i <= spans@.len(),
            (heap@, items@) == span_texts(h, t@, s, i as int),
            valid_args(heap@, items@),
        decreases spans@.len() - i,
    {
        let ghost before = heap@;
        proof {
            assert(s[i as int] == spans@[i as int]@);
        }
        let x: Vec<u16> = copy_range(t, spans[i].start, spans[i].end);
        let id: usize = heap.intern(x.as_slice());
        items.push(JsValue::Text(id));
        proof {
            assert forall|k: int| 0 <= k < items@.len() implies heap@.valid(#[trigger] items@[k]) by {
                if k < items@.len() - 1 {
                    assert(before.valid(items@[k]));
                }
            }
        }
        i = i + 1;
    }
    push_array(heap, items)
}

/// What `search` has to do.
pub open spec fn search_task(h: HeapModel, this: JsValue, args: Seq<JsValue>) -> (
    HeapModel,
    Result<TaskModel, Fault>,
) {
    match text_receiver(h, this, "String.prototype.search"@) {
        Err(f) => (h, Err(f)),
        Ok(t) => if args.len() == 0 {
            (h, Ok(TaskModel::Done(int_value(0))))
        } else {
            match as_regexp_of(h, args[0]) {
                Some(re) => (h.interned(t), Ok(TaskModel::Exec(re, t))),
                None => (
                    h,
                    Ok(
                        TaskModel::Done(
                            match found_in(t, text_of(h, args[0]), 0) {
                                Some(i) => int_value(i),
                                None => int_value(-1),
                            },
                        ),
                    ),
                ),
            }
        },
    }
}

/// `String.prototype.search(regexp)` up to the search.
pub fn string_search(heap: &mut Heap, this: JsValue, args: &[JsValue]) -> (r: Result<
    TextTask,
    Throw,
>)
    requires
        old(heap).wf(),
        old(heap)@.valid(this),
        valid_args(old(heap)@, args@),
        this matches JsValue::Text(n) ==> old(heap)@.texts[n as int].len() <= i64::MAX,
    ensures
        task_ends_in(*final(heap), r, search_task(old(heap)@, this, args@)),
{
    let n: usize = match this_string(this, "String.prototype.search") {
        Ok(n) => n,
        Err(t) => {
            return Err(t);
        },
    };
    let t: Vec<u16> = to_well_formed(heap.text(n).as_slice());
    if args.len() == 0 {
        return Ok(TextTask::Done(smi_or_f64(0)));
    }
    match as_regexp(heap, args[0]) {
        Some(re) => {
            let _ = heap.intern(t.as_slice());
            Ok(TextTask::Exec(re, t))
        },
        None => {
            let needle: Vec<u16> = to_text(heap, args[0]);
            Ok(
                TextTask::Done(
                    match utf16_find(t.as_slice(), needle.as_slice(), 0) {
                        Some(i) => smi_or_f64(i as i64),
                        None => smi_or_f64(-1),
                    },
                ),
            )
        },
    }
}

/// The result of `search` for the match that was found.
pub fn finish_search(found: Option<usize>) -> (r: JsValue)
    requires
        found matches Some(i) ==> i <= i64::MAX,
    ensures
        r == match found {
            Some(i) => int_value(i as int),
            None => int_value(-1),
        },
{
    match found {
        Some(i) => smi_or_f64(i as i64),
        None => smi_or_f64(-1),
    }
}

// ---------------------------------------------------------------------------
// replace
// ---------------------------------------------------------------------------

/// A text with the first occurrence of another replaced; an empty one stands at the
/// start.
pub open spec fn replaced_first(t: Seq<u16>, needle: Seq<u16>, with: Seq<u16>) -> Seq<u16> {
    if needle.len() == 0 {
        expanded(with, 0, needle, seq![]) + t
    } else {
        match found_from(t, needle, 0) {
            Some(i) => t.take(i) + expanded(with, 0, needle, seq![]) + t.skip(i + needle.len()),
            None => t,
        }
    }
}

/// What `replace` has to do.
pub open spec fn replace_task(h: HeapModel, this: JsValue, args: Seq<JsValue>) -> (
    HeapModel,
    Result<TaskModel, Fault>,
) {
    match text_receiver(h, this, "String.prototype.replace"@) {
        Err(f) => (h, Err(f)),
        Ok(t) => if args.len() == 0 {
            (h, Ok(TaskModel::Done(this)))
        } else {
            match as_regexp_of(h, args[0]) {
                Some(re) => (h.interned(t), Ok(TaskModel::Collect(re, t, has_flag(h, re, 0x67)))),
                None => {
                    let x = replaced_first(t, text_of(h, args[0]), text_or_empty(h, args, 1));
                    (h.interned(x), Ok(TaskModel::Done(JsValue::Text(h.text_id(x)))))
                },
            }
        },
    }
}

/// Replaces the first occurrence of a text.
fn replace_first_occurrence(t: &[u16], needle: &[u16], with: &[u16]) -> (r: Vec<u16>)
    ensures
        r@ == replaced_first(t@, needle@, with@),
{
    let mut out: Vec<u16> = Vec::new();
    let none: Vec<Vec<u16>> = Vec::new();
    proof {
        assert(views(none@) =~= seq![]);
    }
    if needle.len() == 0 {
        let front: Vec<u16> = expand_replacement(with, needle, &none);
        push_all(&mut out, front.as_slice());
        push_all(&mut out, t);
        proof {
            assert(out@ =~= front@ + t@);
        }
        return out;
    }
    let n: usize = t.len();
    match utf16_find(t, needle, 0) {
        Some(i) => {
            let head: Vec<u16> = copy_range(t, 0, i);
            let middle: Vec<u16> = expand_replacement(with, needle, &none);
            let tail: Vec<u16> = copy_range(t, i + needle.len(), n);
            push_all(&mut out, head.as_slice());
            push_all(&mut out, middle.as_slice());
            push_all(&mut out, tail.as_slice());
            proof {
                assert(out@ =~= t@.take(i as int) + middle@ + t@.skip(i + needle@.len()));
            }
        },
        None => {
            push_all(&mut out, t);
            proof {
                assert(out@ =~= t@);
            }
        },
    }
    out
}

/// `String.prototype.replace(search, replacement)` up to the search.
pub fn string_replace(heap: &mut Heap, this: JsValue, args: &[JsValue]) -> (r: Result<
    TextTask,
    Throw,
>)
    requires
        old(heap).wf(),
        old(heap)@.valid(this),
        valid_args(old(heap)@, args@),
    ensures
        task_ends_in(*final(heap), r, replace_task(old(heap)@, this, args@)),
{
    let n: usize = match this_string(this, "String.prototype.replace") {
        Ok(n) => n,
        Err(t) => {
            return Err(t);
        },
    };
    let t: Vec<u16> = to_well_formed(heap.text(n).as_slice());
    if args.len() == 0 {
        return Ok(TextTask::Done(this));
    }
    match as_regexp(heap, args[0]) {
        Some(re) => {
            let global: bool = flag_set(heap, re, 0x67);
            let _ = heap.intern(t.as_slice());
            Ok(TextTask::Collect(re, t, global))
        },
        None => {
            let needle: Vec<u16> = to_text(heap, args[0]);
            let with: Vec<u16> = arg_or_empty(heap, args, 1);
            let x: Vec<u16> = replace_first_occurrence(
                t.as_slice(),
                needle.as_slice(),
                with.as_slice(),
            );
            Ok(TextTask::Done(JsValue::Text(heap.intern(x.as_slice()))))
        },
    }
}

/// Where the first `k` spans end.
pub open spec fn spans_end(s: Seq<SpanModel>, k: int) -> int {
    if k <= 0 {
        0
    } else {
        s[k - 1].end
    }
}

/// A text up to the end of the `k`-th span, with the spans replaced.
pub open spec fn replaced_spans(t: Seq<u16>, s: Seq<SpanModel>, with: Seq<u16>, k: int) -> Seq<u16>
    decreases k,
{
    if k <= 0 {
        seq![]
    } else {
        let x = s[k - 1];
        replaced_spans(t, s, with, k - 1) + t.subrange(spans_end(s, k - 1), x.start) + expanded(
            with,
            0,
            t.subrange(x.start, x.end),
            x.groups,
        )
    }
}

/// What `replace` makes of the matches: the receiver where there are none.
pub open spec fn replace_result_of(
    h: HeapModel,
    this: JsValue,
    t: Seq<u16>,
    s: Seq<SpanModel>,
    with: Seq<u16>,
) -> (HeapModel, Result<JsValue, Fault>) {
    if s.len() == 0 {
        (h, Ok(this))
    } else {
        text_result(
            h,
            replaced_spans(t, s, with, s.len() as int) + t.skip(spans_end(s, s.len() as int)),
        )
    }
}

/// The result of `replace` for the matches.
pub fn finish_replace(
    heap: &mut Heap,
    this: JsValue,
    t: &[u16],
    spans: &Vec<MatchSpan>,
    with: &[u16],
) -> (r: Result<JsValue, Throw>)
    requires
        old(heap).wf(),
        in_sequence(span_models(spans@), t@.len() as int),
        old(heap)@.valid(this),
    ensures
        heap_ends_in(
            *final(heap),
            r,
            replace_result_of(old(heap)@, this, t@, span_models(spans@), with@),
        ),
{
    let ghost s = span_models(spans@);
    if spans.len() == 0 {
        return Ok(this);
    }
    let mut out: Vec<u16> = Vec::new();
    let mut cursor: usize = 0;
    let mut i: usize = 0;
    proof {
        assert(out@ =~= Seq::<u16>::empty());
    }
    while i < spans.len()
        invariant
            s == span_models(spans@),
            in_sequence(s, t@.len() as int),
            i <= spans@.len(),
            cursor == spans_end(s, i as int),
            cursor <= t@.len(),
            out@ == replaced_spans(t@, s, with@, i as int),
        decreases spans@.len() - i,
    {
        proof {
            assert(s[i as int] == spans@[i as int]@);
            if i > 0 {
                assert(s[i - 1].end <= s[i as int].start);
            }
        }
        let a: usize = spans[i].start;
        let b: usize = spans[i].end;
        let head: Vec<u16> = copy_range(t, cursor, a);
        let whole: Vec<u16> = copy_range(t, a, b);
        let x: Vec<u16> = expand_replacement(with, whole.as_slice(), &spans[i].groups);
        push_all(&mut out, head.as_slice());
        push_all(&mut out, x.as_slice());
        cursor = b;
        i = i + 1;
    }
    let tail: Vec<u16> = copy_range(t, cursor, t.len());
    push_all(&mut out, tail.as_slice());
    proof {
        assert(tail@ =~= t@.skip(cursor as int));
    }
    text_value(heap, out.as_slice())
}

// ---------------------------------------------------------------------------
// split
// ---------------------------------------------------------------------------

/// How many pieces are wanted.
pub open spec fn piece_limit(args: Seq<JsValue>) -> int {
    match arg_of(args, 1) {
        JsValue::Smi(n) => n as int,
        _ => i64::MAX as int,
    }
}

/// How many pieces are wanted.
pub fn split_limit(args: &[JsValue]) -> (r: i64)
    ensures
        r == piece_limit(args@),
{
    match arg(args, 1) {
        JsValue::Smi(n) => n as i64,
        _ => i64::MAX,
    }
}

/// The pieces of a text from `i` on between occurrences of a separator that is not
/// empty.
pub open spec fn pieces(t: Seq<u16>, sep: Seq<u16>, i: int) -> Seq<Seq<u16>>
    decreases t.len() - i,
{
    if i < 0 || i > t.len() || sep.len() == 0 {
        seq![]
    } else {
        match found_from(t, sep, i) {
            Some(k) => if i <= k && k + sep.len() <= t.len() {
                seq![t.subrange(i, k)] + pieces(t, sep, k + sep.len())
            } else {
                seq![t.skip(i)]
            },
            None => seq![t.skip(i)],
        }
    }
}

/// The units of a text from `i` on, each a text of its own.
pub open spec fn single_units(t: Seq<u16>, i: int) -> Seq<Seq<u16>>
    decreases t.len() - i,
{
    if i < 0 || i >= t.len() {
        seq![]
    } else {
        seq![t.subrange(i, i + 1)] + single_units(t, i + 1)
    }
}

/// The pieces between spans: what lies before each of the first `k`.
pub open spec fn pieces_before(t: Seq<u16>, s: Seq<SpanModel>, k: int) -> Seq<Seq<u16>>
    decreases k,
{
    if k <= 0 {
        seq![]
    } else {
        pieces_before(t, s, k - 1).push(t.subrange(spans_end(s, k - 1), s[k - 1].start))
    }
}

/// Texts as values, and the heap that holds them.
pub open spec fn text_items(h: HeapModel, p: Seq<Seq<u16>>, k: int) -> (HeapModel, Seq<JsValue>)
    decreases k,
{
    if k <= 0 {
        (h, seq![])
    } else {
        let (h1, items) = text_items(h, p, k - 1);
        (h1.interned(p[k - 1]), items.push(JsValue::Text(h1.text_id(p[k - 1]))))
    }
}

/// An array of the first texts, as many as are wanted.
pub open spec fn pieces_result(h: HeapModel, p: Seq<Seq<u16>>, limit: int) -> (HeapModel, JsValue) {
    let n = if limit < 0 {
        0
    } else if limit < p.len() {
        limit
    } else {
        p.len() as int
    };
    let (h1, items) = text_items(h, p, n);
    (h1.with_new(bare_array(items)), JsValue::Object(h1.objects.len() as usize))
}

/// An array of the first texts, as many as are wanted.
fn array_of_strings(heap: &mut Heap, p: &Vec<Vec<u16>>, limit: i64) -> (r: JsValue)
    requires
        old(heap).wf(),
    ensures
        final(heap).wf(),
        (final(heap)@, r) == pieces_result(old(heap)@, views(p@), limit as int),
{
    let ghost h = heap@;
    let ghost all = views(p@);
    let n: usize = if limit < 0 {
        0
    } else if (limit as u64) < p.len() as u64 {
        limit as usize
    } else {
        p.len()
    };
    let mut items: Vec<JsValue> = Vec::new();
    let mut i: usize = 0;
    proof {
        assert(items@ =~= Seq::<JsValue>::empty());
    }
    while i < n
        invariant
            heap.wf(),
            all == views(p@),
            i <= n <= p@.len(),
            (heap@, items@) == text_items(h, all, i as int),
            valid_args(heap@, items@),
        decreases n - i,
    {
        let ghost before = heap@;
        proof {
            assert(all[i as int] == p@[i as int]@);
        }
        let id: usize = heap.intern(p[i].as_slice());
        items.push(JsValue::Text(id));
        proof {
            assert forall|k: int| 0 <= k < items@.len() implies heap@.valid(#[trigger] items@[k]) by {
                if k < items@.len() - 1 {
                    assert(before.valid(items@[k]));
                }
            }
        }
        i = i + 1;
    }
    push_array(heap, items)
}

/// The pieces of a text between occurrences of a separator, its units where that is
/// empty.
pub open spec fn split_pieces(t: Seq<u16>, sep: Seq<u16>) -> Seq<Seq<u16>> {
    if sep.len() == 0 {
        single_units(t, 0)
    } else {
        pieces(t, sep, 0)
    }
}

/// The pieces of a text between occurrences of a separator.
fn split_text(t: &[u16], sep: &[u16]) -> (r: Vec<Vec<u16>>)
    ensures
        views(r@) == split_pieces(t@, sep@),
{
    let n: usize = t.len();
    let mut out: Vec<Vec<u16>> = Vec::new();
    let mut i: usize = 0;
    proof {
        let all = split_pieces(t@, sep@);
        assert(views(out@) + all =~= all);
    }
    if sep.len() == 0 {
        while i < n
            invariant
                n == t@.len(),
                i <= n,
                sep@.len() == 0,
                views(out@) + single_units(t@, i as int) == split_pieces(t@, sep@),
            decreases n - i,
        {
            let ghost before = out@;
            let c: Vec<u16> = copy_range(t, i, i + 1);
            out.push(c);
            proof {
                assert(views(out@) =~= views(before).push(c@));
                assert(views(out@) + single_units(t@, i + 1) =~= views(before) + single_units(
                    t@,
                    i as int,
                ));
            }
            i = i + 1;
        }
        proof {
            assert(views(out@) + single_units(t@, i as int) =~= views(out@));
        }
        return out;
    }
    loop
        invariant
            n == t@.len(),
            i <= n,
            sep@.len() > 0,
            views(out@) + pieces(t@, sep@, i as int) == split_pieces(t@, sep@),
        decreases n - i,
    {
        let ghost before = out@;
        match utf16_find(t, sep, i) {
            Some(k) => {
                let c: Vec<u16> = copy_range(t, i, k);
                out.push(c);
                proof {
                    assert(views(out@) =~= views(before).push(c@));
                    assert(views(out@) + pieces(t@, sep@, k + sep@.len()) =~= views(before)
                        + pieces(t@, sep@, i as int));
                }
                i = k + sep.len();
            },
            None => {
                let c: Vec<u16> = copy_range(t, i, n);
                out.push(c);
                proof {
                    assert(c@ =~= t@.skip(i as int));
                    assert(views(out@) =~= views(before).push(c@));
                    assert(views(out@) =~= views(before) + pieces(t@, sep@, i as int));
                }
                return out;
            },
        }
    }
}

/// The expression that a text is split by, and the heap that holds it: a copy that
/// finds all matches where the one that is given does not.
pub open spec fn splitter_of(h: HeapModel, re: usize) -> (HeapModel, usize) {
    if has_flag(h, re, 0x67) {
        (h, re)
    } else {
        let s = source_text(h, re);
        let f = flags_text(h, re).push(0x67u16);
        let h1 = h.interned(s);
        let h2 = h1.interned(f);
        (
            h2.with_new(
                ObjModel {
                    inner: regexp_slots(h.text_id(s), h1.text_id(f), JsValue::Smi(0)),
                    ..plain_object(Kind::RegExp)
                },
            ),
            h.objects.len() as usize,
        )
    }
}

/// What `split` has to do.
pub open spec fn split_task(h: HeapModel, this: JsValue, args: Seq<JsValue>) -> (
    HeapModel,
    Result<TaskModel, Fault>,
) {
    match text_receiver(h, this, "String.prototype.split"@) {
        Err(f) => (h, Err(f)),
        Ok(t) => if args.len() == 0 {
            let (h1, v) = pieces_result(h, seq![t], i64::MAX as int);
            (h1, Ok(TaskModel::Done(v)))
        } else {
            match as_regexp_of(h, args[0]) {
                Some(re) => {
                    let (h1, k) = splitter_of(h, re);
                    (h1.interned(t), Ok(TaskModel::Collect(k, t, true)))
                },
                None => {
                    let (h1, v) = pieces_result(
                        h,
                        split_pieces(t, text_of(h, args[0])),
                        piece_limit(args),
                    );
                    (h1, Ok(TaskModel::Done(v)))
                },
            }
        },
    }
}

/// The expression that a text is split by.
fn splitter(heap: &mut Heap, re: usize) -> (r: usize)
    requires
        old(heap).wf(),
        re < old(heap)@.objects.len(),
        old(heap)@.objects[re as int].kind == Kind::RegExp,
    ensures
        final(heap).wf(),
        (final(heap)@, r) == splitter_of(old(heap)@, re),
{
    if flag_set(heap, re, 0x67) {
        return re;
    }
    let (source, mut flags) = regexp_source_flags(heap, re);
    flags.push(0x67);
    let s: usize = heap.intern(source.as_slice());
    let ghost h1 = heap@;
    let f: usize = heap.intern(flags.as_slice());
    let mut o: JsObject = JsObject::plain(Kind::RegExp);
    o.inner.push(JsValue::Text(s));
    o.inner.push(JsValue::Text(f));
    o.inner.push(JsValue::Smi(0));
    proof {
        assert(o.inner@ =~= regexp_slots(s, f, JsValue::Smi(0)));
        assert(o@ == ObjModel {
            inner: regexp_slots(s, f, JsValue::Smi(0)),
            ..plain_object(Kind::RegExp)
        });
        assert(heap@.valid_refs(o@));
    }
    heap.allocate(o)
}

/// `String.prototype.split(separator, limit)` up to the search.
pub fn string_split(heap: &mut Heap, this: JsValue, args: &[JsValue]) -> (r: Result<TextTask, Throw>)
    requires
        old(heap).wf(),
        old(heap)@.valid(this),
        valid_args(old(heap)@, args@),
    ensures
        task_ends_in(*final(heap), r, split_task(old(heap)@, this, args@)),
{
    let n: usize = match this_string(this, "String.prototype.split") {
        Ok(n) => n,
        Err(t) => {
            return Err(t);
        },
    };
    let t: Vec<u16> = to_well_formed(heap.text(n).as_slice());
    if args.len() == 0 {
        let mut one: Vec<Vec<u16>> = Vec::new();
        let ghost whole = t@;
        one.push(t);
        proof {
            assert(views(one@) =~= seq![whole]);
        }
        return Ok(TextTask::Done(array_of_strings(heap, &one, i64::MAX)));
    }
    match as_regexp(heap, args[0]) {
        Some(re) => {
            let k: usize = splitter(heap, re);
            let _ = heap.intern(t.as_slice());
            Ok(TextTask::Collect(k, t, true))
        },
        None => {
            let sep: Vec<u16> = to_text(heap, args[0]);
            let parts: Vec<Vec<u16>> = split_text(t.as_slice(), sep.as_slice());
            Ok(TextTask::Done(array_of_strings(heap, &parts, split_limit(args))))
        },
    }
}

/// The result of `split` for the matches: what lies between them.
pub fn finish_split(heap: &mut Heap, t: &[u16], spans: &Vec<MatchSpan>, limit: i64) -> (r: JsValue)
    requires
        old(heap).wf(),
        in_sequence(span_models(spans@), t@.len() as int),
    ensures
        final(heap).wf(),
        (final(heap)@, r) == ({
            let s = span_models(spans@);
            pieces_result(
                old(heap)@,
                pieces_before(t@, s, s.len() as int).push(t@.skip(spans_end(s, s.len() as int))),
                limit as int,
            )
        }),
{
    let ghost s = span_models(spans@);
    let mut parts: Vec<Vec<u16>> = Vec::new();
    let mut cursor: usize = 0;
    let mut i: usize = 0;
    proof {
        assert(views(parts@) =~= Seq::<Seq<u16>>::empty());
    }
    while i < spans.len()
        invariant
            s == span_models(spans@),
            in_sequence(s, t@.len() as int),
            i <= spans@.len(),
            cursor == spans_end(s, i as int),
            cursor <= t@.len(),
            views(parts@) == pieces_before(t@, s, i as int),
        decreases spans@.len() - i,
    {
        proof {
            assert(s[i as int] == spans@[i as int]@);
            if i > 0 {
                assert(s[i - 1].end <= s[i as int].start);
            }
        }
        let ghost before = parts@;
        let c: Vec<u16> = copy_range(t, cursor, spans[i].start);
        parts.push(c);
        proof {
            assert(views(parts@) =~= views(before).push(c@));
        }
        cursor = spans[i].end;
        i = i + 1;
    }
    let ghost before = parts@;
    let tail: Vec<u16> = copy_range(t, cursor, t.len());
    parts.push(tail);
    proof {
        assert(tail@ =~= t@.skip(cursor as int));
        assert(views(parts@) =~= views(before).push(tail@));
    }
    array_of_strings(heap, &parts, limit)
}

/// Texts from `i` on with a separator between them.
pub open spec fn glued(p: Seq<Seq<u16>>, sep: Seq<u16>, i: int) -> Seq<u16>
    decreases p.len() - i,
{
    if i < 0 || i >= p.len() {
        seq![]
    } else if i + 1 == p.len() {
        p[i]
    } else {
        p[i] + sep + glued(p, sep, i + 1)
    }
}

proof fn lemma_glued_tail(head: Seq<u16>, p: Seq<Seq<u16>>, sep: Seq<u16>, i: int)
    requires
        0 <= i,
    ensures
        glued(seq![head] + p, sep, i + 1) == glued(p, sep, i),
    decreases p.len() - i,
{
    if i < p.len() {
        assert((seq![head] + p)[i + 1] == p[i]);
        lemma_glued_tail(head, p, sep, i + 1);
    }
}

/// Where a text is found it stands.
proof fn lemma_found_from(t: Seq<u16>, sep: Seq<u16>, i: int)
    requires
        0 <= i,
        found_from(t, sep, i) is Some,
    ensures
        i <= found_from(t, sep, i).unwrap(),
        stands_at(t, sep, found_from(t, sep, i).unwrap()),
    decreases t.len() + 1 - i,
{
    if !stands_at(t, sep, i) {
        lemma_found_from(t, sep, i + 1);
    }
}

proof fn lemma_pieces_glued(t: Seq<u16>, sep: Seq<u16>, i: int)
    requires
        0 <= i <= t.len(),
        sep.len() > 0,
    ensures
        pieces(t, sep, i).len() > 0,
        glued(pieces(t, sep, i), sep, 0) == t.skip(i),
    decreases t.len() - i,
{
    let p = pieces(t, sep, i);
    match found_from(t, sep, i) {
        Some(k) => {
            lemma_found_from(t, sep, i);
            if i <= k && k + sep.len() <= t.len() {
                let j = k + sep.len();
                let rest = pieces(t, sep, j);
                lemma_pieces_glued(t, sep, j);
                lemma_glued_tail(t.subrange(i, k), rest, sep, 0);
                assert(p[0] == t.subrange(i, k));
                assert(t.subrange(i, k) + sep + t.skip(j) =~= t.skip(i)) by {
                    assert(t.subrange(k, j) == sep);
                }
            }
        },
        None => {},
    }
}

proof fn lemma_units_glued(t: Seq<u16>, i: int)
    requires
        0 <= i <= t.len(),
    ensures
        glued(single_units(t, i), seq![], 0) == t.skip(i),
        i < t.len() ==> single_units(t, i).len() > 0,
    decreases t.len() - i,
{
    if i < t.len() {
        let head = t.subrange(i, i + 1);
        let rest = single_units(t, i + 1);
        lemma_units_glued(t, i + 1);
        lemma_glued_tail(head, rest, seq![], 0);
        assert(single_units(t, i)[0] == head);
        if i + 1 < t.len() {
            assert(head + Seq::<u16>::empty() + t.skip(i + 1) =~= t.skip(i));
        } else {
            assert(rest.len() == 0);
            assert(head =~= t.skip(i));
        }
    } else {
        assert(t.skip(i) =~= Seq::<u16>::empty());
    }
}

/// The pieces that `split` makes of a text, with the separator between them, are the text.
pub proof fn law_split_pieces(t: Seq<u16>, sep: Seq<u16>)
    ensures
        glued(split_pieces(t, sep), sep, 0) == t,
{
    assert(t.skip(0) =~= t);
    if sep.len() == 0 {
        lemma_units_glued(t, 0);
        assert(sep =~= Seq::<u16>::empty());
    } else {
        lemma_pieces_glued(t, sep, 0);
    }
}

} // verus!

//! Where the values of a record stand inside the texts of a laid-out prototype.
use vstd::prelude::*;
use vstd::utf8::encode_utf8;

use crate::bindings::{find, find_from, found_stands};
use crate::text::{chars_of, same, texts};

verus! {

broadcast use vstd::string::group_string_axioms;

/// A stretch of a text, from character `start` to character `end`: how many bytes it has, and the
/// first value that is written there.
#[derive(Clone, Copy, Debug, PartialEq, Eq, Structural)]
pub struct Span {
    pub start: usize,
    pub end: usize,
    pub bytes: usize,
    pub first: usize,
}

/// The bytes of a text.
pub open spec fn byte_len(s: Seq<char>) -> usize {
    encode_utf8(s).len() as usize
}

/// The value with number `i` is the first of its kind.
pub open spec fn is_first(values: Seq<Seq<char>>, i: int) -> bool {
    forall|k: int| 0 <= k < i ==> #[trigger] values[k] != values[i]
}

/// The numbers of the values that read `v`, among the first `n`.
pub open spec fn slots_reading(values: Seq<Seq<char>>, v: Seq<char>, n: int) -> Seq<int>
    decreases n,
{
    if n <= 0 {
        Seq::empty()
    } else if values[n - 1] == v {
        slots_reading(values, v, n - 1).push(n - 1)
    } else {
        slots_reading(values, v, n - 1)
    }
}

/// Where a value stands in a text, when it stands there once only. Occurrences do not overlap.
pub open spec fn only_place(text: Seq<char>, v: Seq<char>) -> Option<int> {
    match find_from(text, v, 0) {
        Some(a) => if find_from(text, v, a + v.len()) is None {
            Some(a)
        } else {
            None
        },
        None => None,
    }
}

/// The stretch of a text that the value with number `i` claims: the value is long enough, stands
/// there once only, and is the first of its kind.
pub open spec fn claim(text: Seq<char>, values: Seq<Seq<char>>, i: int) -> Option<Span> {
    let v = values[i];
    match only_place(text, v) {
        Some(a) => if byte_len(v) >= 4 && v.len() > 0 && is_first(values, i) {
            Some(
                Span {
                    start: a as usize,
                    end: (a + v.len()) as usize,
                    bytes: byte_len(v),
                    first: i as usize,
                },
            )
        } else {
            None
        },
        None => None,
    }
}

/// What a list of stretches is ordered by.
#[derive(Clone, Copy, Debug, PartialEq, Eq, Structural)]
pub enum SpanOrder {
    /// The longest first, of equally long ones the leftmost.
    Rank,
    /// The leftmost first.
    Start,
}

/// Whether `a` goes before `b`.
pub open spec fn goes_before(order: SpanOrder, a: Span, b: Span) -> bool {
    match order {
        SpanOrder::Rank => a.bytes > b.bytes || (a.bytes == b.bytes && a.start < b.start),
        SpanOrder::Start => a.start < b.start,
    }
}

/// Where `c` goes among the first `n` of an ordered list.
pub open spec fn slot_for(order: SpanOrder, list: Seq<Span>, c: Span, n: int) -> int
    decreases n,
{
    if n <= 0 {
        0
    } else if goes_before(order, c, list[n - 1]) {
        slot_for(order, list, c, n - 1)
    } else {
        n
    }
}

/// An ordered list with `c` put in.
pub open spec fn with_span(order: SpanOrder, list: Seq<Span>, c: Span) -> Seq<Span> {
    list.insert(slot_for(order, list, c, list.len() as int), c)
}

/// The claims of the first `n` values, the longest first.
pub open spec fn ranked_claims(text: Seq<char>, values: Seq<Seq<char>>, n: int) -> Seq<Span>
    decreases n,
{
    if n <= 0 {
        Seq::empty()
    } else {
        match claim(text, values, n - 1) {
            Some(c) => with_span(SpanOrder::Rank, ranked_claims(text, values, n - 1), c),
            None => ranked_claims(text, values, n - 1),
        }
    }
}

/// Two stretches share a character.
pub open spec fn overlap(a: Span, b: Span) -> bool {
    a.start < b.end && b.start < a.end
}

/// A stretch shares a character with one of a list.
pub open spec fn overlaps_any(list: Seq<Span>, c: Span) -> bool {
    exists|i: int| 0 <= i < list.len() && overlap(c, #[trigger] list[i])
}

/// The first `n` stretches of a list without those that overlap an earlier one, from left to right.
pub open spec fn granted(ranked: Seq<Span>, n: int) -> Seq<Span>
    decreases n,
{
    if n <= 0 {
        Seq::empty()
    } else {
        let before = granted(ranked, n - 1);
        if overlaps_any(before, ranked[n - 1]) {
            before
        } else {
            with_span(SpanOrder::Start, before, ranked[n - 1])
        }
    }
}

/// The stretches of a text that are values. A text that is a value as a whole is one stretch.
/// Else the longest claims are granted first, and a claim on a character that is taken is not.
pub open spec fn value_spans(text: Seq<char>, values: Seq<Seq<char>>) -> Seq<Span> {
    let whole = slots_reading(values, text, values.len() as int);
    if text.len() > 0 && whole.len() > 0 {
        seq![
            Span {
                start: 0,
                end: text.len() as usize,
                bytes: byte_len(text),
                first: whole[0] as usize,
            },
        ]
    } else {
        let ranked = ranked_claims(text, values, values.len() as int);
        granted(ranked, ranked.len() as int)
    }
}

// ---------------------------------------------------------------------------------------------
// Computing the stretches
// ---------------------------------------------------------------------------------------------
fn before(order: SpanOrder, a: Span, b: Span) -> (r: bool)
    ensures
        r == goes_before(order, a, b),
{
    match order {
        SpanOrder::Rank => a.bytes > b.bytes || (a.bytes == b.bytes && a.start < b.start),
        SpanOrder::Start => a.start < b.start,
    }
}

fn insert_span(order: SpanOrder, list: &mut Vec<Span>, c: Span)
    ensures
        final(list)@ == with_span(order, old(list)@, c),
{
    let mut k: usize = list.len();
    while k > 0 && before(order, c, list[k - 1])
        invariant
            k <= list@.len(),
            slot_for(order, list@, c, k as int) == slot_for(order, list@, c, list@.len() as int),
        decreases k,
    {
        k -= 1;
    }
    list.insert(k, c);
}

fn overlapping(list: &Vec<Span>, c: Span) -> (r: bool)
    ensures
        r == overlaps_any(list@, c),
{
    let mut i: usize = 0;
    while i < list.len()
        invariant
            i <= list@.len(),
            forall|k: int| 0 <= k < i ==> !overlap(c, #[trigger] list@[k]),
        decreases list@.len() - i,
    {
        if c.start < list[i].end && list[i].start < c.end {
            return true;
        }
        i += 1;
    }
    false
}

/// The numbers of the values that read `v`.
pub(crate) fn slots_of(values: &Vec<String>, v: &str) -> (out: Vec<usize>)
    ensures
        out@.len() == slots_reading(texts(values@), v@, values@.len() as int).len(),
        forall|k: int|
            0 <= k < out@.len() ==> (#[trigger] out@[k]) as int == slots_reading(
                texts(values@),
                v@,
                values@.len() as int,
            )[k] && out@[k] < values@.len() && values@[out@[k] as int]@ == v@,
{
    let ghost all = texts(values@);
    let mut out: Vec<usize> = Vec::new();
    let mut i: usize = 0;
    while i < values.len()
        invariant
            i <= values@.len(),
            all == texts(values@),
            out@.len() == slots_reading(all, v@, i as int).len(),
            forall|k: int|
                0 <= k < out@.len() ==> (#[trigger] out@[k]) as int == slots_reading(
                    all,
                    v@,
                    i as int,
                )[k] && out@[k] < values@.len() && values@[out@[k] as int]@ == v@,
        decreases values@.len() - i,
    {
        proof {
            assert(all[i as int] == values@[i as int]@);
        }
        if same(&values[i], v) {
            out.push(i);
        }
        i += 1;
    }
    out
}

fn first_of_kind(values: &Vec<String>, i: usize) -> (r: bool)
    requires
        i < values@.len(),
    ensures
        r == is_first(texts(values@), i as int),
{
    let ghost all = texts(values@);
    let mut k: usize = 0;
    proof {
        assert(all[i as int] == values@[i as int]@);
    }
    while k < i
        invariant
            k <= i < values@.len(),
            all == texts(values@),
            all[i as int] == values@[i as int]@,
            forall|m: int| 0 <= m < k ==> #[trigger] all[m] != all[i as int],
        decreases i - k,
    {
        proof {
            assert(all[k as int] == values@[k as int]@);
        }
        if same(&values[k], &values[i]) {
            return false;
        }
        k += 1;
    }
    true
}

fn claim_of(text: &Vec<char>, values: &Vec<String>, i: usize) -> (r: Option<Span>)
    requires
        i < values@.len(),
    ensures
        r == claim(text@, texts(values@), i as int),
{
    let v = chars_of(&values[i]);
    let bytes: usize = values[i].as_str().len();
    proof {
        assert(texts(values@)[i as int] == values@[i as int]@);
        found_stands(text@, v@, 0);
    }
    let a: usize = match find(text, &v, 0) {
        Some(a) => a,
        None => {
            return None;
        },
    };
    let len: usize = text.len();
    if find(text, &v, a + v.len()).is_some() {
        return None;
    }
    if bytes < 4 || v.len() == 0 || !first_of_kind(values, i) {
        return None;
    }
    Some(Span { start: a, end: a + v.len(), bytes, first: i })
}

/// The stretches of a text that are values.
pub(crate) fn text_spans(text: &str, values: &Vec<String>) -> (out: Vec<Span>)
    ensures
        out@ == value_spans(text@, texts(values@)),
{
    let chars = chars_of(text);
    let whole = slots_of(values, text);
    let mut out: Vec<Span> = Vec::new();
    if chars.len() > 0 && whole.len() > 0 {
        out.push(
            Span { start: 0, end: chars.len(), bytes: text.len(), first: whole[0] },
        );
        proof {
            assert(out@ =~= value_spans(text@, texts(values@)));
        }
        return out;
    }
    let mut ranked: Vec<Span> = Vec::new();
    let mut i: usize = 0;
    while i < values.len()
        invariant
            i <= values@.len(),
            chars@ == text@,
            ranked@ == ranked_claims(text@, texts(values@), i as int),
        decreases values@.len() - i,
    {
        match claim_of(&chars, values, i) {
            Some(c) => insert_span(SpanOrder::Rank, &mut ranked, c),
            None => {},
        }
        i += 1;
    }
    let mut k: usize = 0;
    while k < ranked.len()
        invariant
            k <= ranked@.len(),
            out@ == granted(ranked@, k as int),
        decreases ranked@.len() - k,
    {
        if !overlapping(&out, ranked[k]) {
            insert_span(SpanOrder::Start, &mut out, ranked[k]);
        }
        k += 1;
    }
    out
}

// ---------------------------------------------------------------------------------------------
// What holds of the stretches
// ---------------------------------------------------------------------------------------------
/// A stretch lies in the text and reads its value.
pub open spec fn reads_value(text: Seq<char>, values: Seq<Seq<char>>, c: Span) -> bool {
    &&& c.start < c.end <= text.len()
    &&& c.first < values.len()
    &&& text.subrange(c.start as int, c.end as int) == values[c.first as int]
}

/// Every stretch of a list reads its value.
pub open spec fn all_read(text: Seq<char>, values: Seq<Seq<char>>, list: Seq<Span>) -> bool {
    forall|i: int| 0 <= i < list.len() ==> reads_value(text, values, #[trigger] list[i])
}

/// Each stretch of a list ends before the next ones start.
pub open spec fn in_line(list: Seq<Span>) -> bool {
    forall|i: int, j: int|
        0 <= i < j < list.len() ==> (#[trigger] list[i]).end <= (#[trigger] list[j]).start
}

proof fn slot_in_range(order: SpanOrder, list: Seq<Span>, c: Span, n: int)
    requires
        0 <= n <= list.len(),
    ensures
        0 <= slot_for(order, list, c, n) <= n,
        forall|k: int|
            slot_for(order, list, c, n) <= k < n ==> goes_before(order, c, #[trigger] list[k]),
        slot_for(order, list, c, n) > 0 ==> !goes_before(
            order,
            c,
            list[slot_for(order, list, c, n) - 1],
        ),
    decreases n,
{
    if n > 0 && goes_before(order, c, list[n - 1]) {
        slot_in_range(order, list, c, n - 1);
    }
}

proof fn insert_reads(
    order: SpanOrder,
    text: Seq<char>,
    values: Seq<Seq<char>>,
    list: Seq<Span>,
    c: Span,
)
    requires
        all_read(text, values, list),
        reads_value(text, values, c),
    ensures
        all_read(text, values, with_span(order, list, c)),
{
    slot_in_range(order, list, c, list.len() as int);
    let k = slot_for(order, list, c, list.len() as int);
    let now = with_span(order, list, c);
    assert forall|i: int| 0 <= i < now.len() implies reads_value(
        text,
        values,
        #[trigger] now[i],
    ) by {
        if i < k {
            assert(now[i] == list[i]);
        } else if i > k {
            assert(now[i] == list[i - 1]);
        }
    }
}

proof fn claims_read(text: Seq<char>, values: Seq<Seq<char>>, n: int)
    requires
        0 <= n <= values.len(),
        text.len() <= usize::MAX,
        values.len() <= usize::MAX,
    ensures
        all_read(text, values, ranked_claims(text, values, n)),
    decreases n,
{
    if n > 0 {
        claims_read(text, values, n - 1);
        match claim(text, values, n - 1) {
            Some(c) => {
                found_stands(text, values[n - 1], 0);
                assert(reads_value(text, values, c));
                insert_reads(
                    SpanOrder::Rank,
                    text,
                    values,
                    ranked_claims(text, values, n - 1),
                    c,
                );
            },
            None => {},
        }
    }
}

proof fn insert_in_line(list: Seq<Span>, c: Span)
    requires
        in_line(list),
        forall|i: int| 0 <= i < list.len() ==> (#[trigger] list[i]).start < list[i].end,
        c.start < c.end,
        !overlaps_any(list, c),
    ensures
        in_line(with_span(SpanOrder::Start, list, c)),
{
    slot_in_range(SpanOrder::Start, list, c, list.len() as int);
    let k = slot_for(SpanOrder::Start, list, c, list.len() as int);
    let now = with_span(SpanOrder::Start, list, c);
    assert forall|i: int| 0 <= i < list.len() implies !overlap(c, #[trigger] list[i]) by {}
    assert forall|i: int, j: int| 0 <= i < j < now.len() implies (#[trigger] now[i]).end <= (
    #[trigger] now[j]).start by {
        if i == k {
            assert(now[j] == list[j - 1]);
            assert(goes_before(SpanOrder::Start, c, list[j - 1]));
            assert(!overlap(c, list[j - 1]));
        } else if j == k {
            assert(now[i] == list[i]);
            assert(!overlap(c, list[i]));
            assert(!overlap(c, list[k - 1]));
            if i < k - 1 {
                assert(list[i].end <= list[k - 1].start);
            }
        } else {
            let a = if i < k {
                i
            } else {
                i - 1
            };
            let b = if j < k {
                j
            } else {
                j - 1
            };
            assert(now[i] == list[a] && now[j] == list[b]);
        }
    }
}

proof fn granted_hold(text: Seq<char>, values: Seq<Seq<char>>, ranked: Seq<Span>, n: int)
    requires
        0 <= n <= ranked.len(),
        all_read(text, values, ranked),
    ensures
        all_read(text, values, granted(ranked, n)),
        in_line(granted(ranked, n)),
    decreases n,
{
    if n > 0 {
        granted_hold(text, values, ranked, n - 1);
        let before = granted(ranked, n - 1);
        let c = ranked[n - 1];
        assert(reads_value(text, values, c));
        if !overlaps_any(before, c) {
            insert_reads(SpanOrder::Start, text, values, before, c);
            assert forall|i: int| 0 <= i < before.len() implies (#[trigger] before[i]).start
                < before[i].end by {
                assert(reads_value(text, values, before[i]));
            }
            insert_in_line(before, c);
        }
    }
}

proof fn first_reading(values: Seq<Seq<char>>, v: Seq<char>, n: int)
    requires
        0 <= n <= values.len(),
    ensures
        forall|k: int|
            0 <= k < slots_reading(values, v, n).len() ==> 0 <= (#[trigger] slots_reading(
                values,
                v,
                n,
            )[k]) < n && values[slots_reading(values, v, n)[k]] == v,
        forall|i: int|
            0 <= i < n && #[trigger] values[i] == v ==> slots_reading(values, v, n).contains(i),
    decreases n,
{
    if n > 0 {
        first_reading(values, v, n - 1);
        let before = slots_reading(values, v, n - 1);
        let now = slots_reading(values, v, n);
        assert forall|i: int| 0 <= i < n && #[trigger] values[i] == v implies now.contains(i) by {
            if i < n - 1 {
                let k = choose|k: int| 0 <= k < before.len() && before[k] == i;
                assert(now[k] == i);
            } else {
                assert(now[now.len() - 1] == i);
            }
        }
    }
}

/// The stretches of a text that are values follow each other from left to right, share no
/// character, and each reads the value that it stands for.
pub proof fn value_spans_are_sound(text: Seq<char>, values: Seq<Seq<char>>)
    requires
        text.len() <= usize::MAX,
        values.len() <= usize::MAX,
    ensures
        all_read(text, values, value_spans(text, values)),
        in_line(value_spans(text, values)),
{
    let whole = slots_reading(values, text, values.len() as int);
    first_reading(values, text, values.len() as int);
    if text.len() > 0 && whole.len() > 0 {
        assert(text.subrange(0, text.len() as int) =~= text);
        let first = whole[0];
        assert(values[first] == text);
    } else {
        let ranked = ranked_claims(text, values, values.len() as int);
        claims_read(text, values, values.len() as int);
        granted_hold(text, values, ranked, ranked.len() as int);
    }
}

/// The numbers that `slots_reading` gives are those of the values that read `v`, and no others.
pub proof fn slots_reading_are_all(values: Seq<Seq<char>>, v: Seq<char>)
    ensures
        forall|k: int|
            0 <= k < slots_reading(values, v, values.len() as int).len() ==> 0 <= (
            #[trigger] slots_reading(values, v, values.len() as int)[k]) < values.len()
                && values[slots_reading(values, v, values.len() as int)[k]] == v,
        forall|i: int|
            0 <= i < values.len() && #[trigger] values[i] == v ==> slots_reading(
                values,
                v,
                values.len() as int,
            ).contains(i),
{
    first_reading(values, v, values.len() as int);
}

} // verus!

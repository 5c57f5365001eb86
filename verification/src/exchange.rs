//! What a record of other values changes in the texts of a prototype.
use vstd::prelude::*;
use vstd::utf8::encode_utf8;

use crate::bindings::{find_from, found_stands};
use crate::bytes::{
    byte_slice, char_at, is_boundary, offset_ends, offset_leads_back, places_keep_order,
};
use crate::command::{CommandView, DocumentView};
use crate::edits::{
    claim, goes_before, granted, is_first, overlap, overlaps_any, ranked_claims, reads_value,
    slot_for, slots_reading, slots_reading_are_all, value_spans, value_spans_are_sound, Span,
    SpanOrder,
};
use crate::flow::{
    all_patches, drawn, edit_for, is_compiled, page_patches, page_scan, patch_uses, patch_views,
    patches_on, space_count, text_edits, written_constraint, CompiledFlowRecordProgram,
    CompiledTextConstraint, LineAlign, PatchView, META_COMPILED_TEXT_CONSTRAINT_KEY,
};
use crate::geometry::Pt;
use crate::graphics::{keeps_to_itself, saved_at};
use crate::record::{
    agree, bound_texts, breaks_line, built, compiled_slots, cursor, edit_applies, is_line_break,
    keeps_layout, new_width, overrides_match_counts, page_overrides, patch_applies, prototype_edit,
    rebuilt, record_applies,
};
use crate::text::{stands_at, texts};

verus! {

broadcast use vstd::string::group_string_axioms;

// ---------------------------------------------------------------------------------------------
// Where the new values stand
// ---------------------------------------------------------------------------------------------
/// The character of the prototype's text at which edit `e` starts.
pub open spec fn edit_from(t: PatchView, e: int) -> int {
    char_at(t.text, t.edits[e].start)
}

/// The character of the prototype's text at which edit `e` ends.
pub open spec fn edit_to(t: PatchView, e: int) -> int {
    char_at(t.text, t.edits[e].end)
}

/// The new value at edit `e`: that of the values it stands for.
pub open spec fn new_value(t: PatchView, values: Seq<Seq<char>>, e: int) -> Seq<char> {
    values[t.edits[e].slots[0]]
}

/// How many characters the first `n` edits add to the text.
pub open spec fn growth(t: PatchView, values: Seq<Seq<char>>, n: int) -> int
    decreases n,
{
    if n <= 0 {
        0
    } else {
        growth(t, values, n - 1) + new_value(t, values, n - 1).len() - (edit_to(t, n - 1)
            - edit_from(t, n - 1))
    }
}

/// Where the prototype's text goes on behind the first `e` edits.
pub open spec fn gap_from(t: PatchView, e: int) -> int {
    if e <= 0 {
        0
    } else {
        edit_to(t, e - 1)
    }
}

/// Where the prototype's text stops for edit `e`, or ends.
pub open spec fn gap_to(t: PatchView, e: int) -> int {
    if e >= t.edits.len() {
        t.text.len() as int
    } else {
        edit_from(t, e)
    }
}

/// At edit `e`, moved by as much as the edits before it have added, the text reads the new value,
/// whichever of the values that the edit stands for is asked.
pub open spec fn shows_value(t: PatchView, values: Seq<Seq<char>>, b: Seq<char>, e: int) -> bool {
    let at = edit_from(t, e) + growth(t, values, e);
    let end = at + new_value(t, values, e).len();
    &&& 0 <= at <= end <= b.len()
    &&& forall|m: int|
        0 <= m < t.edits[e].slots.len() ==> b.subrange(at, end)
            == values[#[trigger] t.edits[e].slots[m]]
}

/// Between edit `e` and the one before it, the text reads as the prototype does.
pub open spec fn keeps_gap(t: PatchView, values: Seq<Seq<char>>, b: Seq<char>, e: int) -> bool {
    let from = gap_from(t, e);
    let to = gap_to(t, e);
    let moved = growth(t, values, e);
    &&& 0 <= from <= to <= t.text.len()
    &&& 0 <= from + moved <= to + moved <= b.len()
    &&& b.subrange(from + moved, to + moved) == t.text.subrange(from, to)
}

/// The text is that of the prototype with the new value in place of each edit, and nothing else.
pub open spec fn is_exchanged(t: PatchView, values: Seq<Seq<char>>, b: Seq<char>) -> bool {
    &&& b.len() == t.text.len() + growth(t, values, t.edits.len() as int)
    &&& forall|e: int| 0 <= e < t.edits.len() ==> #[trigger] shows_value(t, values, b, e)
    &&& forall|e: int| 0 <= e <= t.edits.len() ==> #[trigger] keeps_gap(t, values, b, e)
}

proof fn built_length(t: PatchView, old_values: Seq<Seq<char>>, values: Seq<Seq<char>>, n: int)
    requires
        patch_applies(t, old_values, values),
        0 <= n <= t.edits.len(),
    ensures
        is_boundary(t.text, cursor(t.edits, n)),
        char_at(t.text, cursor(t.edits, n)) == gap_from(t, n),
        0 <= gap_from(t, n) <= t.text.len(),
        n < t.edits.len() ==> gap_from(t, n) <= edit_from(t, n) <= edit_to(t, n) <= t.text.len(),
        built(t.text, t.edits, values, n).len() == gap_from(t, n) + growth(t, values, n),
    decreases n,
{
    if n > 0 {
        built_length(t, old_values, values, n - 1);
        assert(edit_applies(t.text, t.edits, old_values, values, n - 1));
        places_keep_order(t.text, cursor(t.edits, n - 1), t.edits[n - 1].start);
        places_keep_order(t.text, t.edits[n - 1].start, t.edits[n - 1].end);
    } else {
        offset_ends(t.text);
        offset_leads_back(t.text, 0);
    }
    if n < t.edits.len() {
        assert(edit_applies(t.text, t.edits, old_values, values, n));
        places_keep_order(t.text, cursor(t.edits, n), t.edits[n].start);
        places_keep_order(t.text, t.edits[n].start, t.edits[n].end);
    }
}

proof fn built_goes_on(t: PatchView, values: Seq<Seq<char>>, i: int, n: int)
    requires
        0 <= i <= n,
    ensures
        built(t.text, t.edits, values, i).len() <= built(t.text, t.edits, values, n).len(),
        built(t.text, t.edits, values, n).take(built(t.text, t.edits, values, i).len() as int)
            == built(t.text, t.edits, values, i),
    decreases n,
{
    let before = built(t.text, t.edits, values, i);
    let all = built(t.text, t.edits, values, n);
    if i < n {
        built_goes_on(t, values, i, n - 1);
        let short = built(t.text, t.edits, values, n - 1);
        let gap = byte_slice(t.text, cursor(t.edits, n - 1), t.edits[n - 1].start);
        assert(all == short + gap + values[t.edits[n - 1].slots[0]]);
        assert(all.take(before.len() as int) =~= short.take(before.len() as int));
    } else {
        assert(all.take(all.len() as int) =~= all);
    }
}

proof fn exchange_holds(t: PatchView, old_values: Seq<Seq<char>>, values: Seq<Seq<char>>)
    requires
        patch_applies(t, old_values, values),
    ensures
        is_exchanged(t, values, rebuilt(t.text, t.edits, values)),
{
    let n = t.edits.len() as int;
    let b = rebuilt(t.text, t.edits, values);
    let all = built(t.text, t.edits, values, n);
    built_length(t, old_values, values, n);
    assert forall|e: int| 0 <= e < n implies #[trigger] shows_value(t, values, b, e) && keeps_gap(
        t,
        values,
        b,
        e,
    ) by {
        built_length(t, old_values, values, e);
        built_length(t, old_values, values, e + 1);
        built_goes_on(t, values, e + 1, n);
        let before = built(t.text, t.edits, values, e);
        let now = built(t.text, t.edits, values, e + 1);
        let gap = byte_slice(t.text, cursor(t.edits, e), t.edits[e].start);
        let v = new_value(t, values, e);
        assert(now == before + gap + v);
        assert(gap == t.text.subrange(gap_from(t, e), edit_from(t, e)));
        assert(b.take(now.len() as int) =~= now);
        let at = edit_from(t, e) + growth(t, values, e);
        assert(b.subrange(at, at + v.len()) =~= now.subrange(at, at + v.len()));
        assert(now.subrange(at, at + v.len()) =~= v);
        let from = gap_from(t, e) + growth(t, values, e);
        assert(b.subrange(from, at) =~= now.subrange(from, at));
        assert(now.subrange(from, at) =~= gap);
        assert(edit_applies(t.text, t.edits, old_values, values, e));
    }
    assert(keeps_gap(t, values, b, n)) by {
        let from = gap_from(t, n) + growth(t, values, n);
        assert(b == all + t.text.skip(gap_from(t, n)));
        assert(b.subrange(from, b.len() as int) =~= t.text.subrange(
            gap_from(t, n),
            t.text.len() as int,
        ));
    }
    assert forall|e: int| 0 <= e <= n implies #[trigger] keeps_gap(t, values, b, e) by {
        if e < n {
            assert(shows_value(t, values, b, e));
        }
    }
}

/// A record that is taken changes the values in the texts and nothing else: at every edit the bound
/// text reads the new value, moved by what the edits before it have added, and between the edits it
/// reads as the prototype does.
pub proof fn bound_texts_are_exchanged(
    p: CompiledFlowRecordProgram,
    values: Seq<Seq<char>>,
    k: int,
)
    requires
        is_compiled(p),
        record_applies(p, values),
        0 <= k < p.patches@.len(),
    ensures
        is_exchanged(patch_views(p.patches@)[k], values, bound_texts(p, values)[k]),
{
    let t = patch_views(p.patches@)[k];
    assert(patch_applies(t, texts(p.prototype_values@), values));
    exchange_holds(t, texts(p.prototype_values@), values);
}

proof fn same_growth(t: PatchView, a: Seq<Seq<char>>, b: Seq<Seq<char>>, odd: int, n: int)
    requires
        0 <= n <= t.edits.len(),
        forall|e: int|
            0 <= e < t.edits.len() && e != odd ==> (#[trigger] new_value(t, a, e)).len()
                == new_value(t, b, e).len(),
    ensures
        growth(t, a, n) - growth(t, b, n) == if 0 <= odd < n {
            new_value(t, a, odd).len() - new_value(t, b, odd).len()
        } else {
            0
        },
    decreases n,
{
    if n > 0 {
        same_growth(t, a, b, odd, n - 1);
        assert(new_value(t, a, n - 1).len() >= 0);
    }
}

/// Two records that differ in a value that an edit shows give different texts, as long as the
/// values at all the other edits of that text are equally long. So it is where the records differ
/// in one value only, and where all their values are equally long.
pub proof fn other_values_give_other_texts(
    p: CompiledFlowRecordProgram,
    a: Seq<Seq<char>>,
    b: Seq<Seq<char>>,
    k: int,
    odd: int,
)
    requires
        is_compiled(p),
        record_applies(p, a),
        record_applies(p, b),
        0 <= k < p.patches@.len(),
        forall|e: int|
            0 <= e < patch_views(p.patches@)[k].edits.len() && e != odd ==> (#[trigger] new_value(
                patch_views(p.patches@)[k],
                a,
                e,
            )).len() == new_value(patch_views(p.patches@)[k], b, e).len(),
        exists|e: int|
            0 <= e < patch_views(p.patches@)[k].edits.len() && #[trigger] new_value(
                patch_views(p.patches@)[k],
                a,
                e,
            ) != new_value(patch_views(p.patches@)[k], b, e),
    ensures
        bound_texts(p, a)[k] != bound_texts(p, b)[k],
{
    let t = patch_views(p.patches@)[k];
    let n = t.edits.len() as int;
    let x = bound_texts(p, a)[k];
    let y = bound_texts(p, b)[k];
    let e = choose|e: int|
        0 <= e < n && #[trigger] new_value(t, a, e) != new_value(t, b, e);
    bound_texts_are_exchanged(p, a, k);
    bound_texts_are_exchanged(p, b, k);
    if x == y {
        same_growth(t, a, b, odd, n);
        same_growth(t, a, b, odd, e);
        assert(shows_value(t, a, x, e));
        assert(shows_value(t, b, y, e));
        assert(patch_applies(t, texts(p.prototype_values@), a));
        assert(edit_applies(t.text, t.edits, texts(p.prototype_values@), a, e));
        assert(t.edits[e].slots[0] == t.edits[e].slots[0]);
    }
}

// ---------------------------------------------------------------------------------------------
// Which records are taken
// ---------------------------------------------------------------------------------------------
/// One of the texts shows the value with this number.
pub open spec fn is_shown(p: CompiledFlowRecordProgram, i: int) -> bool {
    exists|k: int, e: int|
        0 <= k < p.patches@.len() && 0 <= e < patch_views(p.patches@)[k].edits.len()
            && #[trigger] patch_views(p.patches@)[k].edits[e].slots.contains(i)
}

/// A record is taken if and only if it has as many values as the prototype, leaves every value that
/// no text shows as it was, and exchanges the values that one place stands for all for the same.
pub proof fn records_are_taken(p: CompiledFlowRecordProgram, values: Seq<Seq<char>>)
    requires
        is_compiled(p),
    ensures
        record_applies(p, values) <==> {
            let old_values = texts(p.prototype_values@);
            let patches = patch_views(p.patches@);
            &&& values.len() == old_values.len()
            &&& forall|i: int|
                0 <= i < values.len() && !is_shown(p, i) ==> #[trigger] values[i] == old_values[i]
            &&& forall|k: int, e: int, m: int|
                0 <= k < patches.len() && 0 <= e < patches[k].edits.len() && 0 <= m
                    < patches[k].edits[e].slots.len() ==> values[#[trigger] patches[k].edits[e].slots[m]]
                    == values[patches[k].edits[e].slots[0]]
        },
{
    let old_values = texts(p.prototype_values@);
    let patches = patch_views(p.patches@);
    assert(p.prototype_values.len() == old_values.len());
    let one = forall|k: int, e: int, m: int|
        0 <= k < patches.len() && 0 <= e < patches[k].edits.len() && 0 <= m
            < patches[k].edits[e].slots.len() ==> values[#[trigger] patches[k].edits[e].slots[m]]
            == values[patches[k].edits[e].slots[0]];
    let kept = forall|i: int|
        0 <= i < values.len() && !is_shown(p, i) ==> #[trigger] values[i] == old_values[i];
    if values.len() == old_values.len() {
        assert forall|i: int| 0 <= i < values.len() implies p.patched_values@[i] == is_shown(
            p,
            i,
        ) by {
            if is_shown(p, i) {
                let (k, e) = choose|k: int, e: int|
                    0 <= k < p.patches@.len() && 0 <= e < patches[k].edits.len()
                        && #[trigger] patches[k].edits[e].slots.contains(i);
                assert(patch_uses(patches[k], i));
            }
        }
    }
    if record_applies(p, values) {
        assert forall|i: int| 0 <= i < values.len() && !is_shown(p, i) implies #[trigger] values[i]
            == old_values[i] by {
            assert(!p.patched_values@[i]);
        }
        assert forall|k: int, e: int, m: int|
            0 <= k < patches.len() && 0 <= e < patches[k].edits.len() && 0 <= m
                < patches[k].edits[e].slots.len() implies values[#[trigger] patches[k].edits[e].slots[m]]
            == values[patches[k].edits[e].slots[0]] by {
            assert(patch_applies(patches[k], old_values, values));
            assert(edit_applies(patches[k].text, patches[k].edits, old_values, values, e));
        }
    }
    if values.len() == old_values.len() && kept && one {
        assert forall|k: int| 0 <= k < patches.len() implies patch_applies(
            #[trigger] patches[k],
            old_values,
            values,
        ) by {
            compiled_slots(p, k);
            let t = patches[k];
            assert(t.edits == text_edits(t.text, old_values));
            assert(t.text == p.patches@[k].prototype_text@);
            assert(p.patches@[k].prototype_text@.len() <= usize::MAX);
            assert forall|e: int| 0 <= e < t.edits.len() implies #[trigger] edit_applies(
                t.text,
                t.edits,
                old_values,
                values,
                e,
            ) by {
                prototype_edit(t.text, old_values, e);
                assert(agree(values, t.edits[e].slots));
            }
        }
        assert forall|i: int|
            0 <= i < values.len() && !(#[trigger] p.patched_values@[i]) implies values[i]
            == old_values[i] by {
            assert(!is_shown(p, i));
        }
    }
}

// ---------------------------------------------------------------------------------------------
// Which values are found
// ---------------------------------------------------------------------------------------------
/// The value stands in the text at character `a`, and neither before nor behind.
pub open spec fn stands_once(text: Seq<char>, v: Seq<char>, a: int) -> bool {
    &&& stands_at(text, v, a)
    &&& forall|b: int| b < a || b >= a + v.len() ==> !#[trigger] stands_at(text, v, b)
}

proof fn claim_is_made(text: Seq<char>, values: Seq<Seq<char>>, i: int, a: int)
    requires
        0 <= i < values.len(),
        text.len() <= usize::MAX,
        encode_utf8(values[i]).len() >= 4,
        encode_utf8(values[i]).len() <= usize::MAX,
        is_first(values, i),
        stands_once(text, values[i], a),
    ensures
        claim(text, values, i) matches Some(c) && c.start == a && c.end == a + values[i].len()
            && c.bytes == encode_utf8(values[i]).len(),
{
    let v = values[i];
    if v.len() == 0 {
        assert(v =~= Seq::empty());
        assert(encode_utf8(v) =~= Seq::empty());
    }
    found_stands(text, v, 0);
    match find_from(text, v, 0) {
        Some(b) => {
            assert(stands_at(text, v, b));
            if b != a {
                assert(!stands_at(text, v, b) || b >= a);
                assert(b < a + v.len());
                assert(stands_at(text, v, a));
            }
            found_stands(text, v, a + v.len());
            match find_from(text, v, a + v.len()) {
                Some(c) => {
                    assert(stands_at(text, v, c));
                },
                None => {},
            }
        },
        None => {
            assert(stands_at(text, v, a));
        },
    }
}

spec fn falls(list: Seq<Span>) -> bool {
    forall|i: int, j: int| 0 <= i <= j < list.len() ==> (#[trigger] list[i]).bytes >= (#[trigger] list[j]).bytes
}

proof fn slot_splits(order: SpanOrder, list: Seq<Span>, c: Span, n: int)
    requires
        0 <= n <= list.len(),
    ensures
        0 <= slot_for(order, list, c, n) <= n,
        forall|k: int|
            slot_for(order, list, c, n) <= k < n ==> goes_before(order, c, #[trigger] list[k]),
        slot_for(order, list, c, n) > 0 ==> !goes_before(
            order,
            c,
            list[slot_for(order, list, c, n) - 1],
        ),
    decreases n,
{
    if n > 0 && goes_before(order, c, list[n - 1]) {
        slot_splits(order, list, c, n - 1);
    }
}

proof fn claims_fall(text: Seq<char>, values: Seq<Seq<char>>, n: int)
    requires
        0 <= n <= values.len(),
    ensures
        falls(ranked_claims(text, values, n)),
        forall|i: int|
            0 <= i < n && (#[trigger] claim(text, values, i)) is Some ==> ranked_claims(
                text,
                values,
                n,
            ).contains(claim(text, values, i)->0),
    decreases n,
{
    if n > 0 {
        claims_fall(text, values, n - 1);
        let list = ranked_claims(text, values, n - 1);
        match claim(text, values, n - 1) {
            Some(c) => {
                slot_splits(SpanOrder::Rank, list, c, list.len() as int);
                let s = slot_for(SpanOrder::Rank, list, c, list.len() as int);
                let now = list.insert(s, c);
                assert(now[s] == c);
                assert forall|i: int, j: int| 0 <= i <= j < now.len() implies (#[trigger] now[i]).bytes
                    >= (#[trigger] now[j]).bytes by {
                    let a = if i < s {
                        i
                    } else {
                        i - 1
                    };
                    let b = if j < s {
                        j
                    } else {
                        j - 1
                    };
                    if i != s {
                        assert(now[i] == list[a]);
                    }
                    if j != s {
                        assert(now[j] == list[b]);
                    }
                    if i < s && j == s {
                        assert(list[i].bytes >= list[s - 1].bytes);
                    }
                }
                assert forall|i: int|
                    0 <= i < n && (#[trigger] claim(text, values, i)) is Some implies now.contains(
                    claim(text, values, i)->0,
                ) by {
                    if i < n - 1 {
                        let x = claim(text, values, i)->0;
                        let k = choose|k: int| 0 <= k < list.len() && list[k] == x;
                        if k < s {
                            assert(now[k] == x);
                        } else {
                            assert(now[k + 1] == x);
                        }
                    }
                }
            },
            None => {},
        }
    }
}

/// One of the stretches is `c`, or shares a character with it and has at least as many bytes.
pub open spec fn is_served(list: Seq<Span>, c: Span) -> bool {
    exists|k: int|
        0 <= k < list.len() && ((#[trigger] list[k]) == c || overlap(c, list[k]) && list[k].bytes
            >= c.bytes)
}

proof fn granted_serve(ranked: Seq<Span>, n: int)
    requires
        0 <= n <= ranked.len(),
        falls(ranked),
    ensures
        forall|i: int| 0 <= i < n ==> is_served(granted(ranked, n), #[trigger] ranked[i]),
        forall|k: int|
            0 <= k < granted(ranked, n).len() ==> exists|i: int|
                0 <= i < n && ranked[i] == (#[trigger] granted(ranked, n)[k]),
    decreases n,
{
    if n > 0 {
        granted_serve(ranked, n - 1);
        let before = granted(ranked, n - 1);
        let now = granted(ranked, n);
        let c = ranked[n - 1];
        if overlaps_any(before, c) {
            let k = choose|k: int| 0 <= k < before.len() && overlap(c, #[trigger] before[k]);
            let i = choose|i: int| 0 <= i < n - 1 && ranked[i] == before[k];
            assert(ranked[i].bytes >= ranked[n - 1].bytes);
            assert(now[k] == before[k]);
            assert(is_served(now, c));
        } else {
            slot_splits(SpanOrder::Start, before, c, before.len() as int);
            let s = slot_for(SpanOrder::Start, before, c, before.len() as int);
            assert(now == before.insert(s, c));
            assert(now[s] == c);
            assert forall|i: int| 0 <= i < n implies is_served(now, #[trigger] ranked[i]) by {
                if i < n - 1 {
                    let x = ranked[i];
                    assert(is_served(before, x));
                    let k = choose|k: int|
                        0 <= k < before.len() && ((#[trigger] before[k]) == x || overlap(x, before[k])
                            && before[k].bytes >= x.bytes);
                    if k < s {
                        assert(now[k] == before[k]);
                    } else {
                        assert(now[k + 1] == before[k]);
                    }
                }
            }
            assert forall|k: int| 0 <= k < now.len() implies exists|i: int|
                0 <= i < n && ranked[i] == (#[trigger] now[k]) by {
                if k == s {
                    assert(ranked[n - 1] == now[k]);
                } else {
                    let b = if k < s {
                        k
                    } else {
                        k - 1
                    };
                    assert(now[k] == before[b]);
                    let i = choose|i: int| 0 <= i < n - 1 && ranked[i] == before[b];
                    assert(ranked[i] == now[k]);
                }
            }
        }
    }
}

/// A text that is one of the values as a whole is exchanged as a whole.
pub proof fn whole_texts_are_found(text: Seq<char>, values: Seq<Seq<char>>, i: int)
    requires
        0 <= i < values.len(),
        text == values[i],
        0 < text.len() <= usize::MAX,
        values.len() <= usize::MAX,
    ensures
        value_spans(text, values).len() == 1,
        value_spans(text, values)[0].start == 0,
        value_spans(text, values)[0].end == text.len(),
        values[value_spans(text, values)[0].first as int] == text,
{
    slots_reading_are_all(values, text);
    let whole = slots_reading(values, text, values.len() as int);
    assert(whole.contains(i));
    assert(values[whole[0]] == text);
}

/// A value of at least four bytes that stands once in a longer text is found there, unless another
/// value with as many bytes or more takes one of its characters.
pub proof fn longest_values_are_found(text: Seq<char>, values: Seq<Seq<char>>, i: int, a: int)
    requires
        0 <= i < values.len(),
        text.len() <= usize::MAX,
        values.len() <= usize::MAX,
        4 <= encode_utf8(values[i]).len() <= usize::MAX,
        is_first(values, i),
        stands_once(text, values[i], a),
        forall|j: int| 0 <= j < values.len() ==> #[trigger] values[j] != text,
    ensures
        exists|k: int|
            0 <= k < value_spans(text, values).len() && {
                let s = #[trigger] value_spans(text, values)[k];
                ||| s.start == a && s.end == a + values[i].len() && s.first == i
                ||| s.start < a + values[i].len() && a < s.end && s.bytes >= encode_utf8(
                    values[i],
                ).len()
            },
{
    slots_reading_are_all(values, text);
    let whole = slots_reading(values, text, values.len() as int);
    if whole.len() > 0 {
        assert(values[whole[0]] == text);
    }
    let n = values.len() as int;
    let ranked = ranked_claims(text, values, n);
    claim_is_made(text, values, i, a);
    claims_fall(text, values, n);
    let c = claim(text, values, i)->0;
    granted_serve(ranked, ranked.len() as int);
    assert(ranked.contains(c));
    let r = choose|r: int| 0 <= r < ranked.len() && ranked[r] == c;
    let spans = value_spans(text, values);
    assert(spans == granted(ranked, ranked.len() as int));
    assert(is_served(spans, ranked[r]));
    let k = choose|k: int|
        0 <= k < spans.len() && ((#[trigger] spans[k]) == c || overlap(c, spans[k]) && spans[k].bytes
            >= c.bytes);
    assert(spans[k].start <= spans[k].start);
}

// ---------------------------------------------------------------------------------------------
// Which texts are exchanged, and where they go
// ---------------------------------------------------------------------------------------------
proof fn scan_finds(cs: Seq<CommandView>, n: int, page: int, values: Seq<Seq<char>>, i: int)
    requires
        0 <= i < n <= cs.len(),
        drawn(cs[i]) is Some,
        text_edits((drawn(cs[i])->0).1, values).len() > 0,
    ensures
        exists|k: int|
            0 <= k < page_scan(cs, n, page, values).patches.len() && {
                let t = #[trigger] page_scan(cs, n, page, values).patches[k];
                t.page == page && t.command == i
            },
    decreases n,
{
    let now = page_scan(cs, n, page, values).patches;
    let before = page_scan(cs, n - 1, page, values).patches;
    if i < n - 1 {
        scan_finds(cs, n - 1, page, values, i);
        let k = choose|k: int|
            0 <= k < before.len() && (#[trigger] before[k]).page == page && before[k].command == i;
        assert(now[k] == before[k]);
    } else {
        assert(now[now.len() - 1].command == i);
    }
}

proof fn scan_keeps_order(cs: Seq<CommandView>, n: int, page: int, values: Seq<Seq<char>>)
    requires
        0 <= n <= cs.len(),
    ensures
        forall|k: int|
            0 <= k < page_scan(cs, n, page, values).patches.len() ==> {
                let t = #[trigger] page_scan(cs, n, page, values).patches[k];
                t.page == page && 0 <= t.command < n
            },
        forall|j: int, k: int|
            0 <= j < k < page_scan(cs, n, page, values).patches.len() ==> (#[trigger] page_scan(
                cs,
                n,
                page,
                values,
            ).patches[j]).command < (#[trigger] page_scan(cs, n, page, values).patches[k]).command,
    decreases n,
{
    if n > 0 {
        scan_keeps_order(cs, n - 1, page, values);
    }
}

/// Patch `a` stands before patch `b` in the document.
pub open spec fn is_before(a: PatchView, b: PatchView) -> bool {
    a.page < b.page || (a.page == b.page && a.command < b.command)
}

proof fn patches_find(d: DocumentView, n: int, values: Seq<Seq<char>>, page: int, i: int)
    requires
        0 <= page < n <= d.pages.len(),
        0 <= i < d.pages[page].len(),
        drawn(d.pages[page][i]) is Some,
        text_edits((drawn(d.pages[page][i])->0).1, values).len() > 0,
    ensures
        exists|k: int|
            0 <= k < all_patches(d, n, values).len() && {
                let t = #[trigger] all_patches(d, n, values)[k];
                t.page == page && t.command == i
            },
    decreases n,
{
    let before = all_patches(d, n - 1, values);
    let more = page_patches(d.pages[n - 1], n - 1, values);
    let now = all_patches(d, n, values);
    if page < n - 1 {
        patches_find(d, n - 1, values, page, i);
        let k = choose|k: int|
            0 <= k < before.len() && (#[trigger] before[k]).page == page && before[k].command == i;
        assert(now[k] == before[k]);
    } else {
        scan_finds(d.pages[page], d.pages[page].len() as int, page, values, i);
        let k = choose|k: int|
            0 <= k < more.len() && (#[trigger] more[k]).page == page && more[k].command == i;
        assert(now[before.len() + k] == more[k]);
    }
}

proof fn patches_keep_order(d: DocumentView, n: int, values: Seq<Seq<char>>)
    requires
        0 <= n <= d.pages.len(),
    ensures
        forall|k: int|
            0 <= k < all_patches(d, n, values).len() ==> 0 <= (#[trigger] all_patches(
                d,
                n,
                values,
            )[k]).page < n,
        forall|j: int, k: int|
            0 <= j < k < all_patches(d, n, values).len() ==> is_before(
                #[trigger] all_patches(d, n, values)[j],
                #[trigger] all_patches(d, n, values)[k],
            ),
    decreases n,
{
    if n > 0 {
        patches_keep_order(d, n - 1, values);
        let before = all_patches(d, n - 1, values);
        let more = page_patches(d.pages[n - 1], n - 1, values);
        let now = all_patches(d, n, values);
        scan_keeps_order(d.pages[n - 1], d.pages[n - 1].len() as int, n - 1, values);
        assert forall|k: int| 0 <= k < now.len() implies 0 <= (#[trigger] now[k]).page < n by {
            if k >= before.len() {
                assert(now[k] == more[k - before.len()]);
            } else {
                assert(now[k] == before[k]);
            }
        }
        assert forall|j: int, k: int| 0 <= j < k < now.len() implies is_before(
            #[trigger] now[j],
            #[trigger] now[k],
        ) by {
            if j < before.len() {
                assert(now[j] == before[j]);
            } else {
                assert(now[j] == more[j - before.len()]);
            }
            if k < before.len() {
                assert(now[k] == before[k]);
            } else {
                assert(now[k] == more[k - before.len()]);
            }
        }
    }
}

/// Every text of the prototype in which a value is found gets one patch, and the patches stand in
/// the order of the texts.
pub proof fn shown_values_are_patched(p: CompiledFlowRecordProgram)
    requires
        is_compiled(p),
    ensures
        forall|page: int, i: int|
            0 <= page < p.document@.pages.len() && 0 <= i < p.document@.pages[page].len() && {
                let c = #[trigger] p.document@.pages[page][i];
                drawn(c) is Some && value_spans((drawn(c)->0).1, texts(p.prototype_values@)).len() > 0
            } ==> exists|k: int|
                0 <= k < p.patches@.len() && {
                    let t = #[trigger] patch_views(p.patches@)[k];
                    t.page == page && t.command == i
                },
        forall|j: int, k: int|
            0 <= j < k < p.patches@.len() ==> is_before(
                #[trigger] patch_views(p.patches@)[j],
                #[trigger] patch_views(p.patches@)[k],
            ),
{
    let d = p.document@;
    let values = texts(p.prototype_values@);
    let n = d.pages.len() as int;
    patches_keep_order(d, n, values);
    assert forall|page: int, i: int|
        0 <= page < d.pages.len() && 0 <= i < d.pages[page].len() && {
            let c = #[trigger] d.pages[page][i];
            drawn(c) is Some && value_spans((drawn(c)->0).1, values).len() > 0
        } implies exists|k: int|
        0 <= k < p.patches@.len() && {
            let t = #[trigger] patch_views(p.patches@)[k];
            t.page == page && t.command == i
        } by {
        patches_find(d, n, values, page, i);
        let k = choose|k: int|
            0 <= k < all_patches(d, n, values).len() && {
                let t = #[trigger] all_patches(d, n, values)[k];
                t.page == page && t.command == i
            };
        assert(patch_views(p.patches@)[k] == all_patches(d, n, values)[k]);
    }
}

/// Every patch of a page is drawn there, in the order of the patches, with its new text in place of
/// the command that drew the old one.
pub proof fn patches_are_drawn(
    d: DocumentView,
    patches: Seq<PatchView>,
    new_texts: Seq<Seq<char>>,
    old_measured: Seq<Pt>,
    measured: Seq<Pt>,
    page: int,
    n: int,
)
    requires
        0 <= n <= patches.len(),
    ensures
        forall|k: int|
            0 <= k < n && (#[trigger] patches[k]).page == page ==> {
                let all = page_overrides(d, patches, new_texts, old_measured, measured, page, n);
                let at = patches_on(patches.take(k), page) as int;
                &&& at < all.len()
                &&& all[at].command == patches[k].command
                &&& all[at].text == new_texts[k]
                &&& all[at].transformed == patches[k].transformed
                &&& all[at].snap <==> (patches[k].constraint matches Some(c)
                    && c.css_pixel_snap_metrics)
            },
        page_overrides(d, patches, new_texts, old_measured, measured, page, n).len() == patches_on(
            patches.take(n),
            page,
        ),
    decreases n,
{
    overrides_match_counts(d, patches, new_texts, old_measured, measured, page, n);
    if n > 0 {
        patches_are_drawn(d, patches, new_texts, old_measured, measured, page, n - 1);
        overrides_match_counts(d, patches, new_texts, old_measured, measured, page, n - 1);
    }
}

/// A text keeps to the edge of its line: it starts where the line starts, ends where the line ends,
/// or stands in its middle, as it is aligned. One that is wider than the line starts where the line
/// starts.
pub proof fn lines_are_aligned(c: CompiledTextConstraint, width: Pt)
    requires
        0 <= width.milli,
        0 <= c.position_max_width.milli <= 0x4000_0000_0000_0000,
        -0x2000_0000_0000_0000 <= c.origin_x.milli <= 0x2000_0000_0000_0000,
    ensures
        ({
            let x = c.line_x(width).milli;
            let start = c.origin_x.milli as int;
            let end = start + c.position_max_width.milli;
            &&& c.align != LineAlign::Right && c.align != LineAlign::Center ==> x == start
            &&& c.align == LineAlign::Right && width.milli <= c.position_max_width.milli ==> x
                + width.milli == end
            &&& c.align == LineAlign::Center && width.milli <= c.position_max_width.milli ==> 2 * x
                + width.milli <= start + end <= 2 * x + width.milli + 1
            &&& width.milli > c.position_max_width.milli ==> x == start
        }),
{
}

// ---------------------------------------------------------------------------------------------
// Widths
// ---------------------------------------------------------------------------------------------
/// The length can be counted with.
pub open spec fn is_small(p: Pt) -> bool {
    -0x1_0000_0000_0000 <= p.milli <= 0x1_0000_0000_0000
}

/// A text with spacing is wider by one letter space between each two characters and one word space
/// for each space. It is never narrower than nothing.
pub proof fn spacing_widens_texts(c: CompiledTextConstraint, base: Pt, text: Seq<char>)
    requires
        is_small(base),
        -1_000_000 <= c.letter_spacing.milli <= 1_000_000,
        -1_000_000 <= c.word_spacing.milli <= 1_000_000,
        1 <= text.len() <= 1_000_000,
    ensures
        ({
            let gaps = text.len() - 1;
            let natural = base.milli + c.letter_spacing.milli * gaps + c.word_spacing.milli
                * space_count(text);
            let w = c.spaced_width(base, text).milli;
            &&& natural >= 0 ==> w == natural
            &&& natural < 0 ==> w == 0
        }),
{
    spaces_are_characters(text);
    let gaps = text.len() - 1;
    let spaces = space_count(text) as int;
    let l = c.letter_spacing.milli as int;
    let w = c.word_spacing.milli as int;
    assert(-1_000_000_000_000 <= l * gaps <= 1_000_000_000_000) by (nonlinear_arith)
        requires
            -1_000_000 <= l <= 1_000_000,
            0 <= gaps <= 1_000_000,
    ;
    assert(-1_000_000_000_000 <= w * spaces <= 1_000_000_000_000) by (nonlinear_arith)
        requires
            -1_000_000 <= w <= 1_000_000,
            0 <= spaces <= 1_000_000,
    ;
    assert(gaps == 0 ==> l * gaps == 0) by (nonlinear_arith);
}

proof fn spaces_are_characters(text: Seq<char>)
    ensures
        space_count(text) <= text.len(),
    decreases text.len(),
{
    if text.len() > 0 {
        spaces_are_characters(text.drop_last());
    }
}

/// A new text is as much wider or narrower in the layout as it is when measured, as long as it keeps
/// some width: what the layout added to the old text is added to the new one. An unchanged text
/// keeps its width.
pub proof fn widths_follow_the_measures(
    c: CompiledTextConstraint,
    old_text: Seq<char>,
    text: Seq<char>,
    old_measured: Pt,
    measured: Pt,
)
    requires
        is_small(c.old_width),
        is_small(old_measured),
        is_small(measured),
        old_measured.milli >= 0,
        measured.milli >= 0,
        c.letter_spacing.milli == 0,
        c.word_spacing.milli == 0,
    ensures
        ({
            let w = new_width(c, old_text, text, old_measured, measured).milli;
            let grown = c.old_width.milli + measured.milli - old_measured.milli;
            &&& text == old_text ==> w == c.old_width.milli
            &&& text != old_text && grown >= 0 ==> w == grown
            &&& text != old_text && grown < 0 ==> w == 0
        }),
{
    assert(forall|n: int| #[trigger] (0 * n) == 0) by (nonlinear_arith);
}

/// The text would break its line or move to a tab stop.
pub open spec fn is_broken(text: Seq<char>) -> bool {
    text.contains('\n') || text.contains('\r') || text.contains('\t')
}

/// Which new texts keep the layout: the old one always; one that the layout noted, where it breaks
/// no line, stays within a hundredth of a point of the width that it may take, and keeps its width
/// exactly where less than half a point was left; any other one, where it measures as the old one
/// did.
pub proof fn layouts_are_kept(p: PatchView, text: Seq<char>, old_measured: Pt, measured: Pt)
    requires
        p.constraint matches Some(c) ==> is_small(c.guard_max_width) && is_small(c.old_width),
    ensures
        keeps_layout(p, text, old_measured, measured) <==> {
            ||| text == p.text
            ||| p.constraint is None && measured == old_measured
            ||| p.constraint matches Some(c) && {
                let w = new_width(c, p.text, text, old_measured, measured).milli;
                &&& !is_broken(text)
                &&& w <= c.guard_max_width.milli + 10
                &&& c.guard_max_width.milli - c.old_width.milli < 500 ==> w == c.old_width.milli
            }
        },
{
    assert(breaks_line(text) == is_broken(text)) by {
        if breaks_line(text) {
            let i = choose|i: int| 0 <= i < text.len() && is_line_break(#[trigger] text[i]);
            assert(text.contains(text[i]));
        }
        if is_broken(text) {
            let c = if text.contains('\n') {
                '\n'
            } else if text.contains('\r') {
                '\r'
            } else {
                '\t'
            };
            let i = choose|i: int| 0 <= i < text.len() && text[i] == c;
            assert(is_line_break(text[i]));
        }
    }
}

// ---------------------------------------------------------------------------------------------
// Fonts and constraints
// ---------------------------------------------------------------------------------------------
/// A font that is set holds for every text behind it, up to the next one and as long as no state is
/// saved or restored.
pub proof fn fonts_hold_until_changed(
    cs: Seq<CommandView>,
    j: int,
    i: int,
    page: int,
    values: Seq<Seq<char>>,
)
    requires
        0 <= j < i <= cs.len(),
        forall|k: int|
            j < k < i ==> !(#[trigger] cs[k] is SetFontName) && !(cs[k] is SetFontSize)
                && !(cs[k] is SaveState) && !(cs[k] is RestoreState),
    ensures
        cs[j] matches CommandView::SetFontName(name) ==> page_scan(cs, i, page, values).font_name
            == name,
        cs[j] matches CommandView::SetFontSize(size) ==> page_scan(cs, i, page, values).font_size
            == size,
        page_scan(cs, i, page, values).saved == page_scan(cs, j + 1, page, values).saved,
    decreases i - j,
{
    if j + 1 < i {
        fonts_hold_until_changed(cs, j, i - 1, page, values);
        assert(!(cs[i - 1] is SetFontName));
    }
}

proof fn fonts_are_saved(
    cs: Seq<CommandView>,
    a: int,
    n: int,
    inner: Seq<CommandView>,
    page: int,
    values: Seq<Seq<char>>,
)
    requires
        0 <= a,
        0 <= n <= inner.len(),
        a + 1 + inner.len() <= cs.len(),
        cs[a] is SaveState,
        forall|k: int| 0 <= k < inner.len() ==> #[trigger] inner[k] == cs[a + 1 + k],
        keeps_to_itself(inner),
    ensures
        ({
            let start = page_scan(cs, a, page, values);
            let now = page_scan(cs, a + 1 + n, page, values);
            let depth = start.saved.len() as int;
            &&& now.saved.len() == depth + 1 + saved_at(inner, n)
            &&& now.saved.take(depth) == start.saved
            &&& now.saved[depth] == (start.font_name, start.font_size)
        }),
    decreases n,
{
    let start = page_scan(cs, a, page, values);
    let depth = start.saved.len() as int;
    let now = page_scan(cs, a + 1 + n, page, values);
    if n > 0 {
        fonts_are_saved(cs, a, n - 1, inner, page, values);
        let before = page_scan(cs, a + n, page, values);
        assert(inner[n - 1] == cs[a + n]);
        if inner[n - 1] is RestoreState {
            assert(saved_at(inner, n - 1) > 0);
        }
        assert(now.saved.take(depth) =~= before.saved.take(depth));
    } else {
        assert(now.saved.take(depth) =~= start.saved);
    }
}

/// A state that is saved and restored gives back the font: behind the restore, texts have the font
/// that they had before the save, whatever was set between the two.
pub proof fn restored_states_give_back_the_font(
    cs: Seq<CommandView>,
    a: int,
    b: int,
    page: int,
    values: Seq<Seq<char>>,
)
    requires
        0 <= a < b < cs.len(),
        cs[a] is SaveState,
        cs[b] is RestoreState,
        keeps_to_itself(cs.subrange(a + 1, b)),
        saved_at(cs.subrange(a + 1, b), b - a - 1) == 0,
    ensures
        page_scan(cs, b + 1, page, values).font_name == page_scan(cs, a, page, values).font_name,
        page_scan(cs, b + 1, page, values).font_size == page_scan(cs, a, page, values).font_size,
        page_scan(cs, b + 1, page, values).saved == page_scan(cs, a, page, values).saved,
{
    let inner = cs.subrange(a + 1, b);
    fonts_are_saved(cs, a, b - a - 1, inner, page, values);
    let now = page_scan(cs, b, page, values);
    let start = page_scan(cs, a, page, values);
    assert(now.saved.drop_last() =~= now.saved.take(start.saved.len() as int));
}

/// A constraint that is noted belongs to the next text, and to no other: a text behind which no
/// constraint was noted since the text before it has none.
pub proof fn constraints_belong_to_the_next_text(
    cs: Seq<CommandView>,
    j: int,
    i: int,
    page: int,
    values: Seq<Seq<char>>,
)
    requires
        0 <= j < i <= cs.len(),
        forall|k: int|
            j < k < i ==> drawn(#[trigger] cs[k]) is None && !(cs[k] matches CommandView::Meta {
                key,
                value,
            } && key == META_COMPILED_TEXT_CONSTRAINT_KEY@),
    ensures
        cs[j] matches CommandView::Meta { key, value } ==> key == META_COMPILED_TEXT_CONSTRAINT_KEY@
            ==> page_scan(cs, i, page, values).pending == written_constraint(value),
        drawn(cs[j]) is Some ==> page_scan(cs, i, page, values).pending is None,
    decreases i - j,
{
    if j + 1 < i {
        constraints_belong_to_the_next_text(cs, j, i - 1, page, values);
        assert(drawn(cs[i - 1]) is None);
    }
}

/// A patch takes the font and the constraint that hold where its text is drawn.
pub proof fn patches_take_what_holds(
    cs: Seq<CommandView>,
    i: int,
    page: int,
    values: Seq<Seq<char>>,
)
    requires
        0 <= i < cs.len(),
        drawn(cs[i]) is Some,
        text_edits((drawn(cs[i])->0).1, values).len() > 0,
    ensures
        ({
            let held = page_scan(cs, i, page, values);
            let all = page_scan(cs, i + 1, page, values).patches;
            let t = all.last();
            &&& all.drop_last() == held.patches
            &&& all.len() == held.patches.len() + 1
            &&& t.page == page && t.command == i
            &&& t.font_name == held.font_name
            &&& t.font_size == held.font_size
            &&& t.constraint == held.pending
            &&& t.text == (drawn(cs[i])->0).1
            &&& t.transformed == (cs[i] is DrawStringTransformed)
        }),
{
    assert(page_scan(cs, i + 1, page, values).patches.drop_last() =~= page_scan(
        cs,
        i,
        page,
        values,
    ).patches);
}

/// Every edit of a text stands where the text reads a value, and stands for all values that read so
/// and for no other one.
pub proof fn edits_stand_for_what_they_read(text: Seq<char>, values: Seq<Seq<char>>, e: int)
    requires
        0 <= e < text_edits(text, values).len(),
        text.len() <= usize::MAX,
        values.len() <= usize::MAX,
    ensures
        ({
            let edit = text_edits(text, values)[e];
            let read = text.subrange(char_at(text, edit.start), char_at(text, edit.end));
            &&& is_boundary(text, edit.start) && is_boundary(text, edit.end)
            &&& edit.start <= edit.end
            &&& edit.slots.len() > 0
            &&& read.len() > 0
            &&& forall|m: int|
                0 <= m < edit.slots.len() ==> 0 <= #[trigger] edit.slots[m] < values.len()
                    && values[edit.slots[m]] == read
            &&& forall|i: int|
                0 <= i < values.len() && #[trigger] values[i] == read ==> edit.slots.contains(i)
        }),
{
    prototype_edit(text, values, e);
    let edit = text_edits(text, values)[e];
    let spans = value_spans(text, values);
    let v = values[spans[e].first as int];
    value_spans_are_sound(text, values);
    assert(reads_value(text, values, spans[e]));
    slots_reading_are_all(values, v);
    assert(edit == edit_for(text, values, spans[e]));
    assert(edit.slots == slots_reading(values, v, values.len() as int));
    assert(values[edit.slots[0]] == v);
    assert(text.subrange(char_at(text, edit.start), char_at(text, edit.end)) == v);
}

} // verus!

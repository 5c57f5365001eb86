//! Instantiating a compiled record with the values of another one.
use vstd::prelude::*;

use crate::bytes::{
    byte_offset, byte_slice, char_at, is_boundary, offset_ends, offset_grows, offset_leads_back,
    place_of_byte, places_keep_order,
};
use crate::command::{models, Command, CommandView, Document, DocumentView};
use crate::edits::{
    reads_value, slots_reading, slots_reading_are_all, value_spans, value_spans_are_sound,
};
use crate::flow::{
    all_patches, as_numbers, compile_page, drawn, edit_for, edit_views, is_compiled, page_patches,
    page_scan, patch_uses, patch_views, patches_on, some_patch_uses, text_edits, texts_countable,
    CompiledFlowRecordProgram, CompiledFlowTextPatch, CompiledTextConstraint, EditView, PatchView,
};
use crate::geometry::{pt, Pt};
use crate::text::{chars_of, same, slice_chars, text_of, texts};

verus! {

broadcast use vstd::string::group_string_axioms;

// ---------------------------------------------------------------------------------------------
// What holds of compiled patches
// ---------------------------------------------------------------------------------------------
/// A patch exchanges the values in a text that the document draws.
pub open spec fn is_patch_of(d: DocumentView, values: Seq<Seq<char>>, p: PatchView) -> bool {
    &&& 0 <= p.page < d.pages.len()
    &&& 0 <= p.command < d.pages[p.page].len()
    &&& drawn(d.pages[p.page][p.command]) == Some((p.transformed, p.text))
    &&& p.edits == text_edits(p.text, values)
    &&& p.edits.len() > 0
}

proof fn scan_patches(d: DocumentView, page: int, n: int, values: Seq<Seq<char>>)
    requires
        0 <= page < d.pages.len(),
        0 <= n <= d.pages[page].len(),
    ensures
        forall|k: int|
            0 <= k < page_scan(d.pages[page], n, page, values).patches.len() ==> {
                let p = #[trigger] page_scan(d.pages[page], n, page, values).patches[k];
                is_patch_of(d, values, p) && p.page == page
            },
    decreases n,
{
    if n > 0 {
        scan_patches(d, page, n - 1, values);
    }
}

/// Every patch of a compiled record exchanges the values in a text that the prototype draws.
pub proof fn compiled_patches(d: DocumentView, n: int, values: Seq<Seq<char>>)
    requires
        0 <= n <= d.pages.len(),
    ensures
        forall|k: int|
            0 <= k < all_patches(d, n, values).len() ==> is_patch_of(
                d,
                values,
                #[trigger] all_patches(d, n, values)[k],
            ),
    decreases n,
{
    if n > 0 {
        compiled_patches(d, n - 1, values);
        scan_patches(d, n - 1, d.pages[n - 1].len() as int, values);
        let before = all_patches(d, n - 1, values);
        let more = page_patches(d.pages[n - 1], n - 1, values);
        assert forall|k: int| 0 <= k < all_patches(d, n, values).len() implies is_patch_of(
            d,
            values,
            #[trigger] all_patches(d, n, values)[k],
        ) by {
            if k < before.len() {
                assert(all_patches(d, n, values)[k] == before[k]);
            } else {
                assert(all_patches(d, n, values)[k] == more[k - before.len()]);
            }
        }
    }
}

// ---------------------------------------------------------------------------------------------
// Compiling a document
// ---------------------------------------------------------------------------------------------
fn patch_names(p: &CompiledFlowTextPatch, slot: usize) -> (r: bool)
    ensures
        r == patch_uses(p@, slot as int),
{
    let mut e: usize = 0;
    while e < p.edits.len()
        invariant
            e <= p.edits@.len(),
            forall|k: int| 0 <= k < e ==> !(#[trigger] p@.edits[k]).slots.contains(slot as int),
        decreases p.edits@.len() - e,
    {
        let edit = &p.edits[e];
        let mut m: usize = 0;
        proof {
            assert(p@.edits[e as int].slots == as_numbers(edit.value_slots@));
        }
        while m < edit.value_slots.len()
            invariant
                m <= edit.value_slots@.len(),
                e < p.edits@.len(),
                p@.edits[e as int].slots == as_numbers(edit.value_slots@),
                forall|k: int| 0 <= k < m ==> (#[trigger] edit.value_slots@[k]) != slot,
            decreases edit.value_slots@.len() - m,
        {
            if edit.value_slots[m] == slot {
                proof {
                    assert(p@.edits[e as int].slots[m as int] == slot);
                    assert(p@.edits[e as int].slots.contains(slot as int));
                }
                return true;
            }
            m += 1;
        }
        proof {
            assert forall|k: int| 0 <= k < p@.edits[e as int].slots.len() implies p@.edits[e as int].slots[k]
                != slot by {
                assert(edit.value_slots@[k] != slot);
            }
        }
        e += 1;
    }
    false
}

fn any_patch_names(patches: &Vec<CompiledFlowTextPatch>, slot: usize) -> (r: bool)
    ensures
        r == some_patch_uses(patch_views(patches@), slot as int),
{
    let mut k: usize = 0;
    while k < patches.len()
        invariant
            k <= patches@.len(),
            forall|m: int|
                0 <= m < k ==> !patch_uses(#[trigger] patch_views(patches@)[m], slot as int),
        decreases patches@.len() - k,
    {
        proof {
            assert(patch_views(patches@)[k as int] == patches@[k as int]@);
        }
        if patch_names(&patches[k], slot) {
            return true;
        }
        k += 1;
    }
    false
}

fn count_on_page(patches: &Vec<CompiledFlowTextPatch>, page: usize) -> (r: usize)
    ensures
        r == patches_on(patch_views(patches@), page as int),
{
    let ghost all = patch_views(patches@);
    let mut r: usize = 0;
    let mut k: usize = 0;
    proof {
        assert(all.take(0) =~= Seq::empty());
    }
    while k < patches.len()
        invariant
            k <= patches@.len(),
            all == patch_views(patches@),
            r <= k,
            r == patches_on(all.take(k as int), page as int),
        decreases patches@.len() - k,
    {
        proof {
            assert(all.take(k + 1).drop_last() =~= all.take(k as int));
            assert(all.take(k + 1).last() == patches@[k as int]@);
        }
        if patches[k].page == page {
            r = r + 1;
        }
        k += 1;
    }
    proof {
        assert(all.take(all.len() as int) =~= all);
    }
    r
}

impl CompiledFlowRecordProgram {
    /// Compiles a laid-out prototype and the values that it was laid out with.
    pub fn compile(document: Document, values: Vec<String>) -> (p: Self)
        ensures
            is_compiled(p),
            p.document == document,
            p.prototype_values == values,
    {
        let ghost names = texts(values@);
        let ghost d = document@;
        let mut patches: Vec<CompiledFlowTextPatch> = Vec::new();
        let mut page: usize = 0;
        proof {
            assert(patch_views(patches@) =~= Seq::empty());
        }
        while page < document.pages.len()
            invariant
                page <= document.pages@.len(),
                names == texts(values@),
                d == document@,
                texts_countable(patches@),
                patch_views(patches@) == all_patches(d, page as int, names),
            decreases document.pages@.len() - page,
        {
            proof {
                assert(d.pages[page as int] == models(document.pages@[page as int].commands@));
            }
            compile_page(&document.pages[page].commands, page, &values, &mut patches);
            page += 1;
        }
        let ghost views = patch_views(patches@);
        let mut patched_values: Vec<bool> = Vec::new();
        let mut i: usize = 0;
        while i < values.len()
            invariant
                i <= values@.len(),
                views == patch_views(patches@),
                patched_values@.len() == i,
                forall|k: int|
                    0 <= k < i ==> (#[trigger] patched_values@[k]) == some_patch_uses(views, k),
            decreases values@.len() - i,
        {
            patched_values.push(any_patch_names(&patches, i));
            i += 1;
        }
        let mut page_patch_counts: Vec<usize> = Vec::new();
        let mut k: usize = 0;
        while k < document.pages.len()
            invariant
                k <= document.pages@.len(),
                views == patch_views(patches@),
                page_patch_counts@.len() == k,
                forall|m: int|
                    0 <= m < k ==> (#[trigger] page_patch_counts@[m]) == patches_on(views, m),
            decreases document.pages@.len() - k,
        {
            page_patch_counts.push(count_on_page(&patches, k));
            k += 1;
        }
        CompiledFlowRecordProgram {
            document,
            prototype_values: values,
            patches,
            page_patch_counts,
            patched_values,
        }
    }
}

// ---------------------------------------------------------------------------------------------
// Binding texts
// ---------------------------------------------------------------------------------------------
/// All values with the given numbers read as the first of them.
pub open spec fn agree(values: Seq<Seq<char>>, slots: Seq<int>) -> bool {
    forall|m: int| 0 <= m < slots.len() ==> values[#[trigger] slots[m]] == values[slots[0]]
}

/// The byte up to which the text before an edit has been read.
pub open spec fn cursor(edits: Seq<EditView>, e: int) -> int {
    if e <= 0 {
        0
    } else {
        edits[e - 1].end
    }
}

/// An edit can be carried out: it follows the one before, reads the old value, and all values that
/// it stands for are exchanged for the same new one.
pub open spec fn edit_applies(
    text: Seq<char>,
    edits: Seq<EditView>,
    old_values: Seq<Seq<char>>,
    values: Seq<Seq<char>>,
    e: int,
) -> bool {
    let edit = edits[e];
    &&& cursor(edits, e) <= edit.start <= edit.end
    &&& is_boundary(text, edit.start)
    &&& is_boundary(text, edit.end)
    &&& edit.slots.len() > 0
    &&& agree(values, edit.slots)
    &&& agree(old_values, edit.slots)
    &&& byte_slice(text, edit.start, edit.end) == old_values[edit.slots[0]]
}

/// The text up to the end of the edit before number `n`, with the new values.
pub open spec fn built(
    text: Seq<char>,
    edits: Seq<EditView>,
    values: Seq<Seq<char>>,
    n: int,
) -> Seq<char>
    decreases n,
{
    if n <= 0 {
        Seq::empty()
    } else {
        built(text, edits, values, n - 1) + byte_slice(
            text,
            cursor(edits, n - 1),
            edits[n - 1].start,
        ) + values[edits[n - 1].slots[0]]
    }
}

/// The text with the new values.
pub open spec fn rebuilt(text: Seq<char>, edits: Seq<EditView>, values: Seq<Seq<char>>) -> Seq<
    char,
> {
    built(text, edits, values, edits.len() as int) + text.skip(
        char_at(text, cursor(edits, edits.len() as int)),
    )
}

/// Every edit of a patch can be carried out.
pub open spec fn patch_applies(
    p: PatchView,
    old_values: Seq<Seq<char>>,
    values: Seq<Seq<char>>,
) -> bool {
    forall|e: int|
        0 <= e < p.edits.len() ==> #[trigger] edit_applies(p.text, p.edits, old_values, values, e)
}

/// The record can take these values: as many as the prototype has, equal where no text of the
/// prototype shows them, and every edit can be carried out.
pub open spec fn record_applies(p: CompiledFlowRecordProgram, values: Seq<Seq<char>>) -> bool {
    let old_values = texts(p.prototype_values@);
    let patches = patch_views(p.patches@);
    &&& values.len() == old_values.len()
    &&& forall|i: int|
        0 <= i < values.len() && !(#[trigger] p.patched_values@[i]) ==> values[i] == old_values[i]
    &&& forall|k: int|
        0 <= k < patches.len() ==> patch_applies(#[trigger] patches[k], old_values, values)
}

/// The texts of the patches with the new values.
pub open spec fn bound_texts(p: CompiledFlowRecordProgram, values: Seq<Seq<char>>) -> Seq<
    Seq<char>,
> {
    let patches = patch_views(p.patches@);
    Seq::new(patches.len(), |k: int| rebuilt(patches[k].text, patches[k].edits, values))
}

fn values_agree(values: &Vec<String>, slots: &Vec<usize>) -> (r: bool)
    requires
        forall|m: int| 0 <= m < slots@.len() ==> (#[trigger] slots@[m]) < values@.len(),
        slots@.len() > 0,
    ensures
        r == agree(texts(values@), as_numbers(slots@)),
{
    let ghost names = texts(values@);
    let ghost numbers = as_numbers(slots@);
    let first = &values[slots[0]];
    let mut m: usize = 0;
    proof {
        assert(numbers[0] == slots@[0]);
        assert(names[numbers[0]] == values@[slots@[0] as int]@);
    }
    while m < slots.len()
        invariant
            m <= slots@.len(),
            names == texts(values@),
            numbers == as_numbers(slots@),
            slots@.len() > 0,
            names[numbers[0]] == first@,
            forall|k: int| 0 <= k < slots@.len() ==> (#[trigger] slots@[k]) < values@.len(),
            forall|k: int| 0 <= k < m ==> names[#[trigger] numbers[k]] == names[numbers[0]],
        decreases slots@.len() - m,
    {
        proof {
            assert(slots@[m as int] < values@.len());
            assert(numbers[m as int] == slots@[m as int]);
            assert(names[numbers[m as int]] == values@[slots@[m as int] as int]@);
        }
        if !same(&values[slots[m]], first) {
            return false;
        }
        m += 1;
    }
    true
}

fn bind_patch(
    p: &CompiledFlowTextPatch,
    old_values: &Vec<String>,
    values: &Vec<String>,
) -> (r: Option<String>)
    requires
        values@.len() == old_values@.len(),
        forall|e: int, m: int|
            0 <= e < p.edits@.len() && 0 <= m < p.edits@[e].value_slots@.len() ==> (
            #[trigger] p.edits@[e].value_slots@[m]) < values@.len(),
        p.edits@.len() > 0,
    ensures
        match r {
            Some(t) => patch_applies(p@, texts(old_values@), texts(values@)) && t@ == rebuilt(
                p@.text,
                p@.edits,
                texts(values@),
            ),
            None => !patch_applies(p@, texts(old_values@), texts(values@)),
        },
{
    let text = chars_of(&p.prototype_text);
    let ghost edits = p@.edits;
    let ghost old_names = texts(old_values@);
    let ghost names = texts(values@);
    let mut out: Vec<char> = Vec::new();
    let mut at_byte: usize = 0;
    let mut at: usize = 0;
    let mut e: usize = 0;
    proof {
        offset_ends(text@);
        offset_leads_back(text@, 0);
    }
    while e < p.edits.len()
        invariant
            e <= p.edits@.len(),
            edits == p@.edits,
            text@ == p@.text,
            old_names == texts(old_values@),
            names == texts(values@),
            values@.len() == old_values@.len(),
            forall|k: int, m: int|
                0 <= k < p.edits@.len() && 0 <= m < p.edits@[k].value_slots@.len() ==> (
                #[trigger] p.edits@[k].value_slots@[m]) < values@.len(),
            at_byte == cursor(edits, e as int),
            at <= text@.len(),
            at_byte == byte_offset(text@, at as int),
            at == char_at(text@, at_byte as int),
            forall|k: int|
                0 <= k < e ==> #[trigger] edit_applies(p@.text, edits, old_names, names, k),
            out@ == built(p@.text, edits, names, e as int),
        decreases p.edits@.len() - e,
    {
        let edit = &p.edits[e];
        let slots = &edit.value_slots;
        proof {
            assert(edits[e as int].slots == as_numbers(slots@));
            assert(as_numbers(slots@).len() == slots@.len());
            assert forall|m: int| 0 <= m < slots@.len() implies (#[trigger] slots@[m])
                < values@.len() by {
                assert(p.edits@[e as int].value_slots@[m] < values@.len());
            }
        }
        if edit.start < at_byte || edit.end < edit.start || slots.len() == 0 {
            proof {
                assert(!edit_applies(p@.text, edits, old_names, names, e as int));
            }
            return None;
        }
        let (start, end): (usize, usize) = match (
            place_of_byte(&text, edit.start),
            place_of_byte(&text, edit.end),
        ) {
            (Some(a), Some(b)) => (a, b),
            _ => {
                proof {
                    assert(!edit_applies(p@.text, edits, old_names, names, e as int));
                }
                return None;
            },
        };
        proof {
            if start < at {
                offset_grows(text@, start as int, at as int);
            }
            if end < start {
                offset_grows(text@, end as int, start as int);
            }
        }
        let first: usize = slots[0];
        proof {
            assert(edits[e as int].slots[0] == first);
            assert(names[first as int] == values@[first as int]@);
            assert(old_names[first as int] == old_values@[first as int]@);
        }
        let here = text_of(&slice_chars(&text, start, end));
        if !values_agree(values, slots) || !values_agree(old_values, slots) || !same(
            &here,
            &old_values[first],
        ) {
            proof {
                assert(!edit_applies(p@.text, edits, old_names, names, e as int));
            }
            return None;
        }
        proof {
            assert(edit_applies(p@.text, edits, old_names, names, e as int));
        }
        let mut gap = slice_chars(&text, at, start);
        out.append(&mut gap);
        let mut value = chars_of(&values[first]);
        out.append(&mut value);
        at_byte = edit.end;
        at = end;
        e += 1;
    }
    let mut tail = slice_chars(&text, at, text.len());
    proof {
        assert(text@.subrange(at as int, text@.len() as int) =~= text@.skip(at as int));
    }
    out.append(&mut tail);
    Some(text_of(&out))
}

/// The numbers of values that a compiled patch names are those of the record.
pub(crate) proof fn compiled_slots(p: CompiledFlowRecordProgram, k: int)
    requires
        is_compiled(p),
        0 <= k < p.patches@.len(),
    ensures
        p.patches@[k].edits@.len() > 0,
        is_patch_of(p.document@, texts(p.prototype_values@), patch_views(p.patches@)[k]),
        forall|e: int, m: int|
            0 <= e < p.patches@[k].edits@.len() && 0 <= m < p.patches@[k].edits@[e].value_slots@.len()
                ==> (#[trigger] p.patches@[k].edits@[e].value_slots@[m])
                < p.prototype_values@.len(),
{
    let values = texts(p.prototype_values@);
    let d = p.document@;
    compiled_patches(d, d.pages.len() as int, values);
    let view = patch_views(p.patches@)[k];
    assert(is_patch_of(d, values, view));
    assert(edit_views(p.patches@[k].edits@).len() == p.patches@[k].edits@.len());
    assert forall|e: int, m: int|
        0 <= e < p.patches@[k].edits@.len() && 0 <= m < p.patches@[k].edits@[e].value_slots@.len()
            implies (#[trigger] p.patches@[k].edits@[e].value_slots@[m])
        < p.prototype_values@.len() by {
        let edit = view.edits[e];
        let spans = value_spans(view.text, values);
        assert(edit == edit_for(view.text, values, spans[e]));
        slots_reading_are_all(values, values[spans[e].first as int]);
        assert(edit.slots[m] == p.patches@[k].edits@[e].value_slots@[m]);
    }
}

impl CompiledFlowRecordProgram {
    /// The texts of the patches with the values of another record, when it can take them.
    pub fn bind(&self, values: &Vec<String>) -> (r: Option<Vec<String>>)
        requires
            is_compiled(*self),
        ensures
            match r {
                Some(t) => record_applies(*self, texts(values@)) && texts(t@) == bound_texts(
                    *self,
                    texts(values@),
                ),
                None => !record_applies(*self, texts(values@)),
            },
    {
        let ghost names = texts(values@);
        let ghost old_names = texts(self.prototype_values@);
        let ghost patches = patch_views(self.patches@);
        proof {
            assert(names.len() == values@.len());
            assert(old_names.len() == self.prototype_values@.len());
        }
        if values.len() != self.prototype_values.len() {
            return None;
        }
        let mut i: usize = 0;
        while i < values.len()
            invariant
                i <= values@.len(),
                names == texts(values@),
                old_names == texts(self.prototype_values@),
                values@.len() == self.prototype_values@.len(),
                self.patched_values@.len() == values@.len(),
                forall|k: int|
                    0 <= k < i && !(#[trigger] self.patched_values@[k]) ==> names[k]
                        == old_names[k],
            decreases values@.len() - i,
        {
            proof {
                assert(names[i as int] == values@[i as int]@);
                assert(old_names[i as int] == self.prototype_values@[i as int]@);
            }
            if !self.patched_values[i] && !same(&values[i], &self.prototype_values[i]) {
                return None;
            }
            i += 1;
        }
        let mut out: Vec<String> = Vec::new();
        let mut k: usize = 0;
        while k < self.patches.len()
            invariant
                k <= self.patches@.len(),
                is_compiled(*self),
                names == texts(values@),
                old_names == texts(self.prototype_values@),
                patches == patch_views(self.patches@),
                values@.len() == self.prototype_values@.len(),
                out@.len() == k,
                forall|m: int|
                    0 <= m < k ==> patch_applies(#[trigger] patches[m], old_names, names)
                        && out@[m]@ == rebuilt(patches[m].text, patches[m].edits, names),
            decreases self.patches@.len() - k,
        {
            proof {
                compiled_slots(*self, k as int);
                assert(patches[k as int] == self.patches@[k as int]@);
            }
            match bind_patch(&self.patches[k], &self.prototype_values, values) {
                Some(t) => {
                    out.push(t);
                },
                None => {
                    return None;
                },
            }
            k += 1;
        }
        proof {
            assert(texts(out@) =~= bound_texts(*self, names)) by {
                assert forall|m: int| 0 <= m < out@.len() implies texts(out@)[m] == bound_texts(
                    *self,
                    names,
                )[m] by {
                    assert(patch_applies(patches[m], old_names, names));
                }
            }
        }
        Some(out)
    }
}

// ---------------------------------------------------------------------------------------------
// Placing texts
// ---------------------------------------------------------------------------------------------
/// A text breaks its line.
pub open spec fn breaks_line(s: Seq<char>) -> bool {
    exists|i: int| 0 <= i < s.len() && is_line_break(#[trigger] s[i])
}

/// A character that ends or tabs a line.
pub open spec fn is_line_break(c: char) -> bool {
    c == '\n' || c == '\r' || c == '\t'
}

/// The width that a new text takes. The difference between the width of the layout and the
/// measurement of the old text is kept for the new one.
pub open spec fn new_width(
    c: CompiledTextConstraint,
    old_text: Seq<char>,
    text: Seq<char>,
    old_measured: Pt,
    measured: Pt,
) -> Pt {
    if text == old_text {
        c.old_width
    } else {
        let bias = c.old_width.minus(c.spaced_width(old_measured, old_text));
        c.spaced_width(measured, text).plus(bias).larger(pt(0))
    }
}

/// The new text keeps the layout: it is the old one, or it stays on its line within the width that
/// the layout allows. Where the layout left less than half a point, and where it noted nothing,
/// the width must not change.
pub open spec fn keeps_layout(
    p: PatchView,
    text: Seq<char>,
    old_measured: Pt,
    measured: Pt,
) -> bool {
    text == p.text || match p.constraint {
        Some(c) => {
            let width = new_width(c, p.text, text, old_measured, measured);
            &&& !breaks_line(text)
            &&& width.milli <= c.guard_max_width.plus(pt(10)).milli
            &&& width == c.old_width || c.guard_max_width.minus(c.old_width).larger(pt(0)).milli
                >= 500
        },
        None => measured == old_measured,
    }
}

/// The horizontal place of a drawn text.
pub open spec fn drawn_x(c: CommandView) -> Pt {
    match c {
        CommandView::DrawString { x, y, text } => x,
        CommandView::DrawStringTransformed { x, y, text, matrix } => x,
        _ => pt(0),
    }
}

/// A text that takes the place of one of the prototype.
#[verifier::ext_equal]
pub struct OverrideView {
    pub command: int,
    pub transformed: bool,
    pub x: Pt,
    pub snap: bool,
    pub text: Seq<char>,
}

/// A text that takes the place of one of the prototype. Where `snap` is set, the paint phase is
/// still to be applied to `x`.
pub struct FlowTextOverride {
    pub command: usize,
    pub transformed: bool,
    pub x: Pt,
    pub snap: bool,
    pub text: String,
}

impl View for FlowTextOverride {
    type V = OverrideView;

    open spec fn view(&self) -> OverrideView {
        OverrideView {
            command: self.command as int,
            transformed: self.transformed,
            x: self.x,
            snap: self.snap,
            text: self.text@,
        }
    }
}

impl FlowTextOverride {
    /// Where the text is drawn: where it starts in its line, with the paint phase applied where the
    /// text is snapped. `paint` is the paint phase.
    pub fn painted_x<F: Fn(Pt) -> Pt>(&self, paint: F) -> (r: Pt)
        requires
            self.snap ==> call_requires(paint, (self.x,)),
        ensures
            if self.snap {
                call_ensures(paint, (self.x,), r)
            } else {
                r == self.x
            },
    {
        if self.snap {
            paint(self.x)
        } else {
            self.x
        }
    }
}

/// The overrides of a list.
pub open spec fn override_views(v: Seq<FlowTextOverride>) -> Seq<OverrideView> {
    Seq::new(v.len(), |i: int| v[i]@)
}

/// The override that a patch gives.
pub open spec fn override_of(
    d: DocumentView,
    p: PatchView,
    text: Seq<char>,
    old_measured: Pt,
    measured: Pt,
) -> OverrideView {
    match p.constraint {
        Some(c) => {
            let width = new_width(c, p.text, text, old_measured, measured);
            let position = width.plus(c.old_position_width.minus(c.old_width)).larger(pt(0));
            OverrideView {
                command: p.command,
                transformed: p.transformed,
                x: c.line_x(position),
                snap: c.css_pixel_snap_metrics,
                text,
            }
        },
        None => OverrideView {
            command: p.command,
            transformed: p.transformed,
            x: drawn_x(d.pages[p.page][p.command]),
            snap: false,
            text,
        },
    }
}

/// The overrides of a page, from the first `n` patches.
pub open spec fn page_overrides(
    d: DocumentView,
    patches: Seq<PatchView>,
    new_texts: Seq<Seq<char>>,
    old_measured: Seq<Pt>,
    measured: Seq<Pt>,
    page: int,
    n: int,
) -> Seq<OverrideView>
    decreases n,
{
    if n <= 0 {
        Seq::empty()
    } else {
        let before = page_overrides(d, patches, new_texts, old_measured, measured, page, n - 1);
        if patches[n - 1].page == page {
            before.push(
                override_of(
                    d,
                    patches[n - 1],
                    new_texts[n - 1],
                    old_measured[n - 1],
                    measured[n - 1],
                ),
            )
        } else {
            before
        }
    }
}

/// Every new text keeps the layout.
pub open spec fn all_keep_layout(
    patches: Seq<PatchView>,
    new_texts: Seq<Seq<char>>,
    old_measured: Seq<Pt>,
    measured: Seq<Pt>,
) -> bool {
    forall|k: int|
        0 <= k < patches.len() ==> keeps_layout(
            #[trigger] patches[k],
            new_texts[k],
            old_measured[k],
            measured[k],
        )
}

fn has_line_break(s: &Vec<char>) -> (r: bool)
    ensures
        r == breaks_line(s@),
{
    let mut i: usize = 0;
    while i < s.len()
        invariant
            i <= s@.len(),
            forall|k: int| 0 <= k < i ==> !is_line_break(#[trigger] s@[k]),
        decreases s@.len() - i,
    {
        if s[i] == '\n' || s[i] == '\r' || s[i] == '\t' {
            proof {
                assert(is_line_break(s@[i as int]));
            }
            return true;
        }
        i += 1;
    }
    false
}

fn width_of(
    c: CompiledTextConstraint,
    old_text: &str,
    text: &str,
    old_measured: Pt,
    measured: Pt,
) -> (r: Pt)
    ensures
        r == new_width(c, old_text@, text@, old_measured, measured),
{
    if same(text, old_text) {
        c.old_width
    } else {
        let bias = c.old_width.minus(c.measured_width(old_measured, old_text));
        c.measured_width(measured, text).plus(bias).larger(Pt::zero())
    }
}

fn layout_kept(p: &CompiledFlowTextPatch, text: &str, old_measured: Pt, measured: Pt) -> (r: bool)
    ensures
        r == keeps_layout(p@, text@, old_measured, measured),
{
    if same(text, &p.prototype_text) {
        return true;
    }
    match p.constraint {
        Some(c) => {
            let width = width_of(c, &p.prototype_text, text, old_measured, measured);
            let slack = c.guard_max_width.minus(c.old_width).larger(Pt::zero());
            !has_line_break(&chars_of(text)) && width.milli <= c.guard_max_width.plus(
                Pt { milli: 10 },
            ).milli && (width == c.old_width || slack.milli >= 500)
        },
        None => measured == old_measured,
    }
}

impl CompiledFlowRecordProgram {
    fn place(&self, k: usize, text: &str, old_measured: Pt, measured: Pt) -> (r: FlowTextOverride)
        requires
            is_compiled(*self),
            k < self.patches@.len(),
        ensures
            r@ == override_of(
                self.document@,
                patch_views(self.patches@)[k as int],
                text@,
                old_measured,
                measured,
            ),
    {
        let p = &self.patches[k];
        proof {
            compiled_slots(*self, k as int);
            assert(patch_views(self.patches@)[k as int] == p@);
            assert(self.document@.pages[p.page as int] == models(
                self.document.pages@[p.page as int].commands@,
            ));
        }
        match p.constraint {
            Some(c) => {
                let width = width_of(c, &p.prototype_text, text, old_measured, measured);
                let position = width.plus(c.old_position_width.minus(c.old_width)).larger(
                    Pt::zero(),
                );
                FlowTextOverride {
                    command: p.command,
                    transformed: p.transformed,
                    x: c.unsnapped_x(position),
                    snap: c.css_pixel_snap_metrics,
                    text: text.to_owned(),
                }
            },
            None => {
                let x = match &self.document.pages[p.page].commands[p.command] {
                    Command::DrawString { x, y: _, text: _ } => *x,
                    Command::DrawStringTransformed { x, y: _, text: _, matrix: _ } => *x,
                    _ => Pt::zero(),
                };
                FlowTextOverride {
                    command: p.command,
                    transformed: p.transformed,
                    x,
                    snap: false,
                    text: text.to_owned(),
                }
            },
        }
    }

    fn overrides_on(
        &self,
        page: usize,
        new_texts: &Vec<String>,
        old_measured: &Vec<Pt>,
        measured: &Vec<Pt>,
    ) -> (out: Vec<FlowTextOverride>)
        requires
            is_compiled(*self),
            new_texts@.len() == self.patches@.len(),
            old_measured@.len() == self.patches@.len(),
            measured@.len() == self.patches@.len(),
        ensures
            override_views(out@) == page_overrides(
                self.document@,
                patch_views(self.patches@),
                texts(new_texts@),
                old_measured@,
                measured@,
                page as int,
                self.patches@.len() as int,
            ),
    {
        let ghost patches = patch_views(self.patches@);
        let ghost names = texts(new_texts@);
        let mut out: Vec<FlowTextOverride> = Vec::new();
        let mut k: usize = 0;
        proof {
            assert(override_views(out@) =~= Seq::empty());
        }
        while k < self.patches.len()
            invariant
                k <= self.patches@.len(),
                is_compiled(*self),
                patches == patch_views(self.patches@),
                names == texts(new_texts@),
                new_texts@.len() == self.patches@.len(),
                old_measured@.len() == self.patches@.len(),
                measured@.len() == self.patches@.len(),
                override_views(out@) == page_overrides(
                    self.document@,
                    patches,
                    names,
                    old_measured@,
                    measured@,
                    page as int,
                    k as int,
                ),
            decreases self.patches@.len() - k,
        {
            proof {
                assert(patches[k as int] == self.patches@[k as int]@);
                assert(names[k as int] == new_texts@[k as int]@);
            }
            if self.patches[k].page == page {
                let placed = self.place(k, &new_texts[k], old_measured[k], measured[k]);
                let ghost held = override_views(out@);
                let ghost view = placed@;
                out.push(placed);
                proof {
                    assert(override_views(out@) =~= held.push(view));
                }
            }
            k += 1;
        }
        out
    }

    /// The texts that take the place of those of the prototype, page by page, for the values of
    /// another record; nothing when the record cannot take them or when a new text would change
    /// the layout. `old_measured` and `measured` are the widths of the glyphs of the old and of
    /// the new texts of the patches, as `bind` gives them.
    pub fn instantiate(
        &self,
        values: &Vec<String>,
        old_measured: &Vec<Pt>,
        measured: &Vec<Pt>,
    ) -> (r: Option<Vec<Vec<FlowTextOverride>>>)
        requires
            is_compiled(*self),
            old_measured@.len() == self.patches@.len(),
            measured@.len() == self.patches@.len(),
        ensures
            match r {
                Some(pages) => {
                    let patches = patch_views(self.patches@);
                    let new_texts = bound_texts(*self, texts(values@));
                    &&& record_applies(*self, texts(values@))
                    &&& all_keep_layout(patches, new_texts, old_measured@, measured@)
                    &&& pages@.len() == self.document.pages@.len()
                    &&& forall|p: int|
                        0 <= p < pages@.len() ==> override_views((#[trigger] pages@[p])@)
                            == page_overrides(
                            self.document@,
                            patches,
                            new_texts,
                            old_measured@,
                            measured@,
                            p,
                            patches.len() as int,
                        )
                },
                None => !record_applies(*self, texts(values@)) || !all_keep_layout(
                    patch_views(self.patches@),
                    bound_texts(*self, texts(values@)),
                    old_measured@,
                    measured@,
                ),
            },
    {
        let ghost patches = patch_views(self.patches@);
        let new_texts = match self.bind(values) {
            Some(t) => t,
            None => {
                return None;
            },
        };
        let ghost names = bound_texts(*self, texts(values@));
        proof {
            assert(texts(new_texts@).len() == new_texts@.len());
            assert(names.len() == self.patches@.len());
        }
        let mut k: usize = 0;
        while k < self.patches.len()
            invariant
                k <= self.patches@.len(),
                patches == patch_views(self.patches@),
                texts(new_texts@) == names,
                new_texts@.len() == self.patches@.len(),
                names == bound_texts(*self, texts(values@)),
                old_measured@.len() == self.patches@.len(),
                measured@.len() == self.patches@.len(),
                forall|m: int|
                    0 <= m < k ==> keeps_layout(
                        #[trigger] patches[m],
                        names[m],
                        old_measured@[m],
                        measured@[m],
                    ),
            decreases self.patches@.len() - k,
        {
            proof {
                assert(patches[k as int] == self.patches@[k as int]@);
                assert(names[k as int] == new_texts@[k as int]@);
            }
            if !layout_kept(&self.patches[k], &new_texts[k], old_measured[k], measured[k]) {
                return None;
            }
            k += 1;
        }
        let mut pages: Vec<Vec<FlowTextOverride>> = Vec::new();
        let mut p: usize = 0;
        while p < self.document.pages.len()
            invariant
                p <= self.document.pages@.len(),
                is_compiled(*self),
                patches == patch_views(self.patches@),
                texts(new_texts@) == names,
                new_texts@.len() == self.patches@.len(),
                old_measured@.len() == self.patches@.len(),
                measured@.len() == self.patches@.len(),
                pages@.len() == p,
                forall|m: int|
                    0 <= m < p ==> override_views((#[trigger] pages@[m])@) == page_overrides(
                        self.document@,
                        patches,
                        names,
                        old_measured@,
                        measured@,
                        m,
                        patches.len() as int,
                    ),
            decreases self.document.pages@.len() - p,
        {
            pages.push(self.overrides_on(p, &new_texts, old_measured, measured));
            p += 1;
        }
        Some(pages)
    }
}

// ---------------------------------------------------------------------------------------------
// Laws
// ---------------------------------------------------------------------------------------------
pub(crate) proof fn prototype_edit(text: Seq<char>, values: Seq<Seq<char>>, e: int)
    requires
        0 <= e < text_edits(text, values).len(),
        text.len() <= usize::MAX,
        values.len() <= usize::MAX,
    ensures
        edit_applies(text, text_edits(text, values), values, values, e),
        values[text_edits(text, values)[e].slots[0]] == byte_slice(
            text,
            text_edits(text, values)[e].start,
            text_edits(text, values)[e].end,
        ),
{
    value_spans_are_sound(text, values);
    let spans = value_spans(text, values);
    let edits = text_edits(text, values);
    let c = spans[e];
    assert(reads_value(text, values, c));
    let v = values[c.first as int];
    let slots = edits[e].slots;
    slots_reading_are_all(values, v);
    assert(values[c.first as int] == v);
    assert(slots.contains(c.first as int));
    assert forall|m: int| 0 <= m < slots.len() implies values[#[trigger] slots[m]] == v by {
        assert(slots == slots_reading(values, v, values.len() as int));
    }
    offset_leads_back(text, c.start as int);
    offset_leads_back(text, c.end as int);
    offset_grows(text, c.start as int, c.end as int);
    if e > 0 {
        assert(reads_value(text, values, spans[e - 1]));
        assert(spans[e - 1].end <= spans[e].start);
        offset_grows(text, spans[e - 1].end as int, c.start as int);
    } else {
        offset_ends(text);
        offset_grows(text, 0, c.start as int);
    }
}

proof fn prototype_built(text: Seq<char>, values: Seq<Seq<char>>, n: int)
    requires
        0 <= n <= text_edits(text, values).len(),
        text.len() <= usize::MAX,
        values.len() <= usize::MAX,
    ensures
        is_boundary(text, cursor(text_edits(text, values), n)),
        built(text, text_edits(text, values), values, n) == text.take(
            char_at(text, cursor(text_edits(text, values), n)),
        ),
    decreases n,
{
    let edits = text_edits(text, values);
    if n > 0 {
        prototype_built(text, values, n - 1);
        prototype_edit(text, values, n - 1);
        let a = char_at(text, cursor(edits, n - 1));
        let b = char_at(text, edits[n - 1].start);
        let c = char_at(text, edits[n - 1].end);
        places_keep_order(text, cursor(edits, n - 1), edits[n - 1].start);
        places_keep_order(text, edits[n - 1].start, edits[n - 1].end);
        assert(text.take(a) + text.subrange(a, b) + text.subrange(b, c) =~= text.take(c));
    } else {
        offset_ends(text);
        offset_leads_back(text, 0);
        assert(text.take(0) =~= Seq::empty());
    }
}

/// A compiled record takes the values of its own prototype, and gives back the texts of the
/// prototype.
pub proof fn prototype_instantiates(p: CompiledFlowRecordProgram)
    requires
        is_compiled(p),
    ensures
        record_applies(p, texts(p.prototype_values@)),
        forall|k: int|
            0 <= k < p.patches@.len() ==> (#[trigger] bound_texts(
                p,
                texts(p.prototype_values@),
            )[k]) == patch_views(p.patches@)[k].text,
        forall|old_measured: Seq<Pt>, measured: Seq<Pt>|
            all_keep_layout(
                patch_views(p.patches@),
                bound_texts(p, texts(p.prototype_values@)),
                old_measured,
                measured,
            ),
{
    let values = texts(p.prototype_values@);
    let patches = patch_views(p.patches@);
    let new_texts = bound_texts(p, values);
    assert(p.prototype_values.len() == values.len());
    assert forall|k: int| 0 <= k < patches.len() implies patch_applies(
        #[trigger] patches[k],
        values,
        values,
    ) && new_texts[k] == patches[k].text by {
        compiled_slots(p, k);
        let t = patches[k].text;
        assert(patches[k].edits == text_edits(t, values));
        assert(t == p.patches@[k].prototype_text@);
        assert(p.patches@[k].prototype_text@.len() <= usize::MAX);
        assert forall|e: int| 0 <= e < patches[k].edits.len() implies #[trigger] edit_applies(
            t,
            patches[k].edits,
            values,
            values,
            e,
        ) by {
            prototype_edit(t, values, e);
        }
        let n = patches[k].edits.len() as int;
        prototype_built(t, values, n);
        let a = char_at(t, cursor(patches[k].edits, n));
        assert(0 <= a <= t.len());
        assert(t.take(a) + t.skip(a) =~= t);
    }
    assert forall|old_measured: Seq<Pt>, measured: Seq<Pt>|
        all_keep_layout(patches, new_texts, old_measured, measured) by {
        assert forall|k: int| 0 <= k < patches.len() implies keeps_layout(
            #[trigger] patches[k],
            new_texts[k],
            old_measured[k],
            measured[k],
        ) by {
            assert(patch_applies(patches[k], values, values));
        }
    }
}

/// Each page gets as many texts as it has patches.
pub proof fn overrides_match_counts(
    d: DocumentView,
    patches: Seq<PatchView>,
    new_texts: Seq<Seq<char>>,
    old_measured: Seq<Pt>,
    measured: Seq<Pt>,
    page: int,
    n: int,
)
    requires
        0 <= n <= patches.len(),
    ensures
        page_overrides(d, patches, new_texts, old_measured, measured, page, n).len() == patches_on(
            patches.take(n),
            page,
        ),
    decreases n,
{
    if n > 0 {
        overrides_match_counts(d, patches, new_texts, old_measured, measured, page, n - 1);
        assert(patches.take(n).drop_last() =~= patches.take(n - 1));
    }
}

} // verus!

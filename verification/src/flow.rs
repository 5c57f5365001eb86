//! Compiled records: a laid-out prototype whose texts are exchanged for the values of another
//! record, as long as the exchange cannot change the layout.
use vstd::prelude::*;
use vstd::utf8::encode_utf8;

use crate::bytes::{byte_count, byte_offset, offset_of};
use crate::command::{models, Command, CommandView, Document, DocumentView};
use crate::edits::{
    all_read, reads_value, slots_of, slots_reading, text_spans, value_spans, value_spans_are_sound,
    Span,
};
use crate::geometry::{pt, Pt};
use crate::shrink::note;
use crate::text::{char_rows, chars_of, parse_i64, same, split_chars, split_on, text_of, texts};

verus! {

broadcast use vstd::string::group_string_axioms;

/// The note that carries a text constraint.
pub const META_COMPILED_TEXT_CONSTRAINT_KEY: &'static str = "fb.flow.text_constraint";

// ---------------------------------------------------------------------------------------------
// Constraints
// ---------------------------------------------------------------------------------------------
/// How a text stands in its line.
#[derive(Clone, Copy, Debug, PartialEq, Eq, Structural)]
pub enum LineAlign {
    Left,
    Center,
    Right,
    Justify,
}

/// What the layout knew about a text: where its line starts, how wide it may become, how wide it
/// was, its spacing and its alignment.
#[derive(Clone, Copy, Debug, PartialEq, Eq, Structural)]
pub struct CompiledTextConstraint {
    pub origin_x: Pt,
    pub position_max_width: Pt,
    pub old_position_width: Pt,
    pub guard_max_width: Pt,
    pub old_width: Pt,
    pub letter_spacing: Pt,
    pub word_spacing: Pt,
    pub css_pixel_snap_metrics: bool,
    pub align: LineAlign,
}

/// The length that a text writes in thousandths of a point.
pub open spec fn written_pt(s: Seq<char>) -> Option<Pt> {
    match crate::shrink::number(s) {
        Some(n) => Some(Pt { milli: n as i64 }),
        None => None,
    }
}

/// The flag that a text writes.
pub open spec fn written_flag(s: Seq<char>) -> Option<bool> {
    if s == "0"@ {
        Some(false)
    } else if s == "1"@ {
        Some(true)
    } else {
        None
    }
}

/// The alignment that a text writes.
pub open spec fn written_align(s: Seq<char>) -> Option<LineAlign> {
    if s == "l"@ {
        Some(LineAlign::Left)
    } else if s == "c"@ {
        Some(LineAlign::Center)
    } else if s == "r"@ {
        Some(LineAlign::Right)
    } else if s == "j"@ {
        Some(LineAlign::Justify)
    } else {
        None
    }
}

/// The constraint that a text writes: nine fields with colons between them, seven lengths, a flag
/// and an alignment.
pub open spec fn written_constraint(s: Seq<char>) -> Option<CompiledTextConstraint> {
    let f = split_on(s, ':');
    if f.len() == 9 && written_pt(f[0]) is Some && written_pt(f[1]) is Some && written_pt(
        f[2],
    ) is Some && written_pt(f[3]) is Some && written_pt(f[4]) is Some && written_pt(f[5]) is Some
        && written_pt(f[6]) is Some && written_flag(f[7]) is Some && written_align(f[8]) is Some {
        Some(
            CompiledTextConstraint {
                origin_x: written_pt(f[0])->0,
                position_max_width: written_pt(f[1])->0,
                old_position_width: written_pt(f[2])->0,
                guard_max_width: written_pt(f[3])->0,
                old_width: written_pt(f[4])->0,
                letter_spacing: written_pt(f[5])->0,
                word_spacing: written_pt(f[6])->0,
                css_pixel_snap_metrics: written_flag(f[7])->0,
                align: written_align(f[8])->0,
            },
        )
    } else {
        None
    }
}

fn read_pt(s: &Vec<char>) -> (r: Option<Pt>)
    ensures
        r == written_pt(s@),
{
    match parse_i64(s) {
        Some(milli) => Some(Pt { milli }),
        None => None,
    }
}

/// How many spaces a text has.
pub open spec fn space_count(s: Seq<char>) -> nat
    decreases s.len(),
{
    if s.len() == 0 {
        0
    } else {
        space_count(s.drop_last()) + (if s.last() == ' ' {
            1nat
        } else {
            0nat
        })
    }
}

/// The smaller of a count and the largest 32-bit number.
pub open spec fn capped(n: int) -> int {
    if n > i32::MAX {
        i32::MAX as int
    } else {
        n
    }
}

/// A length as often as `n` says.
pub open spec fn times(p: Pt, n: int) -> Pt {
    pt(p.milli * capped(n))
}

fn multiply(p: Pt, n: usize) -> (r: Pt)
    ensures
        r == times(p, n as int),
{
    let k: i128 = if n > i32::MAX as usize {
        i32::MAX as i128
    } else {
        n as i128
    };
    let m: i128 = p.milli as i128;
    proof {
        assert(-0x8000_0000_0000_0000 * 0x8000_0000 <= m * k <= 0x8000_0000_0000_0000 * 0x8000_0000)
            by (nonlinear_arith)
            requires
                -0x8000_0000_0000_0000 <= m <= 0x7fff_ffff_ffff_ffff,
                0 <= k <= 0x7fff_ffff,
        ;
    }
    let n128: i128 = m * k;
    if n128 > i64::MAX as i128 {
        Pt { milli: i64::MAX }
    } else if n128 < i64::MIN as i128 {
        Pt { milli: i64::MIN }
    } else {
        Pt { milli: n128 as i64 }
    }
}

impl CompiledTextConstraint {
    /// Reads a constraint from its notation.
    pub fn parse(value: &str) -> (r: Option<Self>)
        ensures
            r == written_constraint(value@),
    {
        let f = split_chars(&chars_of(value), ':');
        proof {
            assert(char_rows(f@).len() == f@.len());
        }
        if f.len() != 9 {
            return None;
        }
        proof {
            assert forall|k: int| 0 <= k < 9 implies #[trigger] char_rows(f@)[k] == f@[k]@ by {}
            assert(char_rows(f@)[0] == f@[0]@ && char_rows(f@)[1] == f@[1]@ && char_rows(f@)[2]
                == f@[2]@ && char_rows(f@)[3] == f@[3]@ && char_rows(f@)[4] == f@[4]@);
            assert(char_rows(f@)[5] == f@[5]@ && char_rows(f@)[6] == f@[6]@ && char_rows(f@)[7]
                == f@[7]@ && char_rows(f@)[8] == f@[8]@);
        }
        let flag_text = text_of(&f[7]);
        let align_text = text_of(&f[8]);
        let flag = if same(&flag_text, "0") {
            false
        } else if same(&flag_text, "1") {
            true
        } else {
            return None;
        };
        let align = if same(&align_text, "l") {
            LineAlign::Left
        } else if same(&align_text, "c") {
            LineAlign::Center
        } else if same(&align_text, "r") {
            LineAlign::Right
        } else if same(&align_text, "j") {
            LineAlign::Justify
        } else {
            return None;
        };
        match (read_pt(&f[0]), read_pt(&f[1]), read_pt(&f[2]), read_pt(&f[3])) {
            (
                Some(origin_x),
                Some(position_max_width),
                Some(old_position_width),
                Some(guard_max_width),
            ) => match (read_pt(&f[4]), read_pt(&f[5]), read_pt(&f[6])) {
                (Some(old_width), Some(letter_spacing), Some(word_spacing)) => Some(
                    CompiledTextConstraint {
                        origin_x,
                        position_max_width,
                        old_position_width,
                        guard_max_width,
                        old_width,
                        letter_spacing,
                        word_spacing,
                        css_pixel_snap_metrics: flag,
                        align,
                    },
                ),
                _ => None,
            },
            _ => None,
        }
    }

    /// The width of a text with its spacing: `base` for the glyphs, letter spacing between each two
    /// characters, word spacing for each space.
    pub open spec fn spaced_width(self, base: Pt, text: Seq<char>) -> Pt {
        let letters = if text.len() > 1 {
            times(self.letter_spacing, text.len() - 1)
        } else {
            pt(0)
        };
        base.plus(letters).plus(times(self.word_spacing, space_count(text) as int)).larger(pt(0))
    }

    /// The width of a text with its spacing.
    pub fn measured_width(self, base: Pt, text: &str) -> (r: Pt)
        ensures
            r == self.spaced_width(base, text@),
    {
        let chars = chars_of(text);
        let letters = if chars.len() > 1 {
            multiply(self.letter_spacing, chars.len() - 1)
        } else {
            Pt::zero()
        };
        let mut spaces: usize = 0;
        let mut i: usize = 0;
        proof {
            assert(chars@.take(0) =~= Seq::empty());
        }
        while i < chars.len()
            invariant
                i <= chars@.len(),
                spaces <= i,
                spaces == space_count(chars@.take(i as int)),
            decreases chars@.len() - i,
        {
            proof {
                assert(chars@.take(i + 1).drop_last() =~= chars@.take(i as int));
            }
            if chars[i] == ' ' {
                spaces = spaces + 1;
            }
            i += 1;
        }
        proof {
            assert(chars@.take(chars@.len() as int) =~= chars@);
        }
        base.plus(letters).plus(multiply(self.word_spacing, spaces)).larger(Pt::zero())
    }

    /// Where a text of the given width starts in its line, before any snapping.
    pub open spec fn line_x(self, position_width: Pt) -> Pt {
        let remaining = self.position_max_width.minus(position_width).larger(pt(0));
        match self.align {
            LineAlign::Right => self.origin_x.plus(remaining),
            LineAlign::Center => self.origin_x.plus(remaining.part(1, 2)),
            _ => self.origin_x,
        }
    }

    /// Where a text of the given width starts in its line, before any snapping.
    pub fn unsnapped_x(self, position_width: Pt) -> (r: Pt)
        ensures
            r == self.line_x(position_width),
    {
        let remaining = self.position_max_width.minus(position_width).larger(Pt::zero());
        match self.align {
            LineAlign::Right => self.origin_x.plus(remaining),
            LineAlign::Center => self.origin_x.plus(remaining.mul_ratio(1, 2)),
            _ => self.origin_x,
        }
    }

    /// Where a text of the given width starts in its line. `paint` is the paint phase of the text:
    /// it is applied to the start itself, so that a text of another width gets its own phase.
    pub fn aligned_x<F: Fn(Pt) -> Pt>(self, position_width: Pt, paint: F) -> (r: Pt)
        requires
            call_requires(paint, (self.line_x(position_width),)),
        ensures
            if self.css_pixel_snap_metrics {
                call_ensures(paint, (self.line_x(position_width),), r)
            } else {
                r == self.line_x(position_width)
            },
    {
        let x = self.unsnapped_x(position_width);
        if self.css_pixel_snap_metrics {
            paint(x)
        } else {
            x
        }
    }
}

// ---------------------------------------------------------------------------------------------
// Programs
// ---------------------------------------------------------------------------------------------
/// A stretch of a text that is exchanged for a value, from byte `start` to byte `end`, and all
/// values that it stands for.
pub struct CompiledFlowTextEdit {
    pub start: usize,
    pub end: usize,
    pub value_slots: Vec<usize>,
}

/// A text of the prototype in which values are exchanged.
pub struct CompiledFlowTextPatch {
    pub page: usize,
    pub command: usize,
    pub transformed: bool,
    pub prototype_text: String,
    pub edits: Vec<CompiledFlowTextEdit>,
    pub font_name: String,
    pub font_size: Pt,
    pub constraint: Option<CompiledTextConstraint>,
}

/// A laid-out prototype with its patches.
pub struct CompiledFlowRecordProgram {
    pub document: Document,
    pub prototype_values: Vec<String>,
    pub patches: Vec<CompiledFlowTextPatch>,
    pub page_patch_counts: Vec<usize>,
    pub patched_values: Vec<bool>,
}

/// An edit as plain numbers.
#[verifier::ext_equal]
pub struct EditView {
    pub start: int,
    pub end: int,
    pub slots: Seq<int>,
}

/// A patch as plain sequences.
#[verifier::ext_equal]
pub struct PatchView {
    pub page: int,
    pub command: int,
    pub transformed: bool,
    pub text: Seq<char>,
    pub edits: Seq<EditView>,
    pub font_name: Seq<char>,
    pub font_size: Pt,
    pub constraint: Option<CompiledTextConstraint>,
}

/// Numbers as mathematical ones.
pub open spec fn as_numbers(v: Seq<usize>) -> Seq<int> {
    Seq::new(v.len(), |i: int| v[i] as int)
}

/// The edits of a list.
pub open spec fn edit_views(v: Seq<CompiledFlowTextEdit>) -> Seq<EditView> {
    Seq::new(
        v.len(),
        |i: int|
            EditView {
                start: v[i].start as int,
                end: v[i].end as int,
                slots: as_numbers(v[i].value_slots@),
            },
    )
}

impl View for CompiledFlowTextPatch {
    type V = PatchView;

    open spec fn view(&self) -> PatchView {
        PatchView {
            page: self.page as int,
            command: self.command as int,
            transformed: self.transformed,
            text: self.prototype_text@,
            edits: edit_views(self.edits@),
            font_name: self.font_name@,
            font_size: self.font_size,
            constraint: self.constraint,
        }
    }
}

/// The patches of a list.
pub open spec fn patch_views(v: Seq<CompiledFlowTextPatch>) -> Seq<PatchView> {
    Seq::new(v.len(), |i: int| v[i]@)
}

/// The edit that exchanges a stretch: it stands for every value that reads as the stretch does.
pub open spec fn edit_for(text: Seq<char>, values: Seq<Seq<char>>, c: Span) -> EditView {
    EditView {
        start: byte_offset(text, c.start as int),
        end: byte_offset(text, c.end as int),
        slots: slots_reading(values, values[c.first as int], values.len() as int),
    }
}

/// The edits of a text.
pub open spec fn text_edits(text: Seq<char>, values: Seq<Seq<char>>) -> Seq<EditView> {
    let spans = value_spans(text, values);
    Seq::new(spans.len(), |i: int| edit_for(text, values, spans[i]))
}

impl CompiledFlowRecordProgram {
    /// The edits of a text: the stretches that are values of the record.
    pub fn text_edits(text: &str, values: &Vec<String>) -> (out: Vec<CompiledFlowTextEdit>)
        ensures
            edit_views(out@) == text_edits(text@, texts(values@)),
    {
        let spans = text_spans(text, values);
        let chars = chars_of(text);
        let count: usize = values.len();
        let length: usize = chars.len();
        let bytes: usize = byte_count(text);
        let ghost names = texts(values@);
        proof {
            value_spans_are_sound(text@, names);
        }
        let mut out: Vec<CompiledFlowTextEdit> = Vec::new();
        let mut i: usize = 0;
        while i < spans.len()
            invariant
                i <= spans@.len(),
                names == texts(values@),
                chars@ == text@,
                bytes == encode_utf8(text@).len(),
                spans@ == value_spans(text@, names),
                all_read(text@, names, spans@),
                out@.len() == i,
                edit_views(out@) == text_edits(text@, names).take(i as int),
            decreases spans@.len() - i,
        {
            let c = spans[i];
            proof {
                assert(reads_value(text@, names, spans@[i as int]));
                assert(names[c.first as int] == values@[c.first as int]@);
            }
            let value_slots = slots_of(values, &values[c.first]);
            let ghost held = edit_views(out@);
            proof {
                let want = slots_reading(names, names[c.first as int], names.len() as int);
                assert(as_numbers(value_slots@) =~= want) by {
                    assert forall|k: int| 0 <= k < value_slots@.len() implies as_numbers(
                        value_slots@,
                    )[k] == want[k] by {
                        assert(value_slots@[k] as int == want[k]);
                    }
                }
            }
            let start: usize = offset_of(&chars, c.start);
            let end: usize = offset_of(&chars, c.end);
            let edit = CompiledFlowTextEdit { start, end, value_slots };
            out.push(edit);
            proof {
                let all = text_edits(text@, names);
                assert(all.take(i + 1) =~= all.take(i as int).push(all[i as int]));
                assert(edit_views(out@) =~= held.push(all[i as int]));
            }
            i += 1;
        }
        proof {
            let all = text_edits(text@, names);
            assert(all.take(all.len() as int) =~= all);
        }
        out
    }
}

// ---------------------------------------------------------------------------------------------
// Compiling
// ---------------------------------------------------------------------------------------------
/// What is known while the commands of a page are read.
#[verifier::ext_equal]
pub struct PageScan {
    pub font_name: Seq<char>,
    pub font_size: Pt,
    pub saved: Seq<(Seq<char>, Pt)>,
    pub pending: Option<CompiledTextConstraint>,
    pub patches: Seq<PatchView>,
}

/// The scan at the start of a page: twelve points of Helvetica.
pub open spec fn fresh_scan() -> PageScan {
    PageScan {
        font_name: "Helvetica"@,
        font_size: pt(12_000),
        saved: Seq::empty(),
        pending: None,
        patches: Seq::empty(),
    }
}

/// The text that a command draws, and whether it draws it under a matrix.
pub open spec fn drawn(c: CommandView) -> Option<(bool, Seq<char>)> {
    match c {
        CommandView::DrawString { x, y, text } => Some((false, text)),
        CommandView::DrawStringTransformed { x, y, text, matrix } => Some((true, text)),
        _ => None,
    }
}

/// The scan after one more command. Fonts follow the graphics state; a constraint belongs to the
/// next text, which becomes a patch when it holds a value.
pub open spec fn scan_step(
    s: PageScan,
    c: CommandView,
    page: int,
    command: int,
    values: Seq<Seq<char>>,
) -> PageScan {
    match drawn(c) {
        Some((transformed, text)) => {
            let edits = text_edits(text, values);
            PageScan {
                pending: None,
                patches: if edits.len() == 0 {
                    s.patches
                } else {
                    s.patches.push(
                        PatchView {
                            page,
                            command,
                            transformed,
                            text,
                            edits,
                            font_name: s.font_name,
                            font_size: s.font_size,
                            constraint: s.pending,
                        },
                    )
                },
                font_name: s.font_name,
                font_size: s.font_size,
                saved: s.saved,
            }
        },
        None => match c {
            CommandView::SaveState => PageScan {
                saved: s.saved.push((s.font_name, s.font_size)),
                font_name: s.font_name,
                font_size: s.font_size,
                pending: s.pending,
                patches: s.patches,
            },
            CommandView::RestoreState => if s.saved.len() > 0 {
                PageScan {
                    font_name: s.saved.last().0,
                    font_size: s.saved.last().1,
                    saved: s.saved.drop_last(),
                    pending: s.pending,
                    patches: s.patches,
                }
            } else {
                s
            },
            CommandView::SetFontName(name) => PageScan {
                font_name: name,
                font_size: s.font_size,
                saved: s.saved,
                pending: s.pending,
                patches: s.patches,
            },
            CommandView::SetFontSize(size) => PageScan {
                font_name: s.font_name,
                font_size: size,
                saved: s.saved,
                pending: s.pending,
                patches: s.patches,
            },
            CommandView::Meta { key, value } => if key == META_COMPILED_TEXT_CONSTRAINT_KEY@ {
                PageScan {
                    font_name: s.font_name,
                    font_size: s.font_size,
                    saved: s.saved,
                    pending: written_constraint(value),
                    patches: s.patches,
                }
            } else {
                s
            },
            _ => s,
        },
    }
}

/// The scan after the first `n` commands of a page.
pub open spec fn page_scan(cs: Seq<CommandView>, n: int, page: int, values: Seq<Seq<char>>) -> PageScan
    decreases n,
{
    if n <= 0 {
        fresh_scan()
    } else {
        scan_step(page_scan(cs, n - 1, page, values), cs[n - 1], page, n - 1, values)
    }
}

/// The patches of a page.
pub open spec fn page_patches(cs: Seq<CommandView>, page: int, values: Seq<Seq<char>>) -> Seq<
    PatchView,
> {
    page_scan(cs, cs.len() as int, page, values).patches
}

/// The patches of the first `n` pages.
pub open spec fn all_patches(d: DocumentView, n: int, values: Seq<Seq<char>>) -> Seq<PatchView>
    decreases n,
{
    if n <= 0 {
        Seq::empty()
    } else {
        all_patches(d, n - 1, values) + page_patches(d.pages[n - 1], n - 1, values)
    }
}

/// A patch exchanges the value with this number.
pub open spec fn patch_uses(p: PatchView, slot: int) -> bool {
    exists|e: int| 0 <= e < p.edits.len() && (#[trigger] p.edits[e]).slots.contains(slot)
}

/// One of the patches exchanges the value with this number.
pub open spec fn some_patch_uses(patches: Seq<PatchView>, slot: int) -> bool {
    exists|k: int| 0 <= k < patches.len() && patch_uses(#[trigger] patches[k], slot)
}

/// How many patches a page has.
pub open spec fn patches_on(patches: Seq<PatchView>, page: int) -> nat
    decreases patches.len(),
{
    if patches.len() == 0 {
        0
    } else {
        patches_on(patches.drop_last(), page) + (if patches.last().page == page {
            1nat
        } else {
            0nat
        })
    }
}

/// The program `p` is compiled from the prototype that it holds.
pub open spec fn is_compiled(p: CompiledFlowRecordProgram) -> bool {
    let values = texts(p.prototype_values@);
    let d = p.document@;
    let patches = patch_views(p.patches@);
    &&& patches == all_patches(d, d.pages.len() as int, values)
    &&& p.patched_values@.len() == values.len()
    &&& forall|i: int|
        0 <= i < values.len() ==> (#[trigger] p.patched_values@[i]) == some_patch_uses(patches, i)
    &&& texts_countable(p.patches@)
    &&& p.page_patch_counts@.len() == d.pages.len()
    &&& forall|i: int|
        0 <= i < d.pages.len() ==> (#[trigger] p.page_patch_counts@[i]) == patches_on(patches, i)
}

/// The texts of the patches can be counted.
pub open spec fn texts_countable(patches: Seq<CompiledFlowTextPatch>) -> bool {
    forall|k: int|
        0 <= k < patches.len() ==> (#[trigger] patches[k]).prototype_text@.len() <= usize::MAX
}

pub(crate) fn compile_page(
    list: &Vec<Command>,
    page: usize,
    values: &Vec<String>,
    patches: &mut Vec<CompiledFlowTextPatch>,
)
    requires
        texts_countable(old(patches)@),
    ensures
        patch_views(final(patches)@) == patch_views(old(patches)@) + page_patches(
            models(list@),
            page as int,
            texts(values@),
        ),
        texts_countable(final(patches)@),
{
    let ghost cs = models(list@);
    let ghost names = texts(values@);
    let ghost start = patch_views(patches@);
    let mut font_name = "Helvetica".to_owned();
    let mut font_size = Pt { milli: 12_000 };
    let mut saved: Vec<(String, Pt)> = Vec::new();
    let mut pending: Option<CompiledTextConstraint> = None;
    let mut i: usize = 0;
    proof {
        assert(saved_views(saved@) =~= Seq::empty());
        assert(start + Seq::<PatchView>::empty() =~= start);
    }
    while i < list.len()
        invariant
            i <= list@.len(),
            cs == models(list@),
            names == texts(values@),
            texts_countable(patches@),
            font_name@ == page_scan(cs, i as int, page as int, names).font_name,
            font_size == page_scan(cs, i as int, page as int, names).font_size,
            saved_views(saved@) == page_scan(cs, i as int, page as int, names).saved,
            pending == page_scan(cs, i as int, page as int, names).pending,
            patch_views(patches@) == start + page_scan(cs, i as int, page as int, names).patches,
        decreases list@.len() - i,
    {
        let c = &list[i];
        let ghost s = page_scan(cs, i as int, page as int, names);
        proof {
            assert(cs[i as int] == c.model());
            assert(saved_views(saved@).len() == saved@.len());
        }
        match c {
            Command::SaveState => {
                saved.push((font_name.clone(), font_size));
                proof {
                    assert(saved_views(saved@) =~= s.saved.push((s.font_name, s.font_size)));
                }
            },
            Command::RestoreState => {
                let ghost held = saved@;
                match saved.pop() {
                    Some((name, size)) => {
                        proof {
                            assert(saved_views(held)[held.len() - 1] == (name@, size));
                            assert(saved_views(saved@) =~= s.saved.drop_last());
                        }
                        font_name = name;
                        font_size = size;
                    },
                    None => {},
                }
            },
            Command::SetFontName(name) => {
                font_name = name.clone();
            },
            Command::SetFontSize(size) => {
                font_size = *size;
            },
            Command::Meta { key, value } => {
                if same(key, META_COMPILED_TEXT_CONSTRAINT_KEY) {
                    pending = CompiledTextConstraint::parse(value);
                }
            },
            Command::DrawString { x: _, y: _, text } => {
                let constraint = pending;
                pending = None;
                push_patch(
                    patches,
                    page,
                    i,
                    false,
                    text,
                    values,
                    &font_name,
                    font_size,
                    constraint,
                );
                proof {
                    patch_step(start, s, cs[i as int], page as int, i as int, names);
                }
            },
            Command::DrawStringTransformed { x: _, y: _, text, matrix: _ } => {
                let constraint = pending;
                pending = None;
                push_patch(
                    patches,
                    page,
                    i,
                    true,
                    text,
                    values,
                    &font_name,
                    font_size,
                    constraint,
                );
                proof {
                    patch_step(start, s, cs[i as int], page as int, i as int, names);
                }
            },
            _ => {},
        }
        i += 1;
    }
}

spec fn saved_views(v: Seq<(String, Pt)>) -> Seq<(Seq<char>, Pt)> {
    Seq::new(v.len(), |i: int| (v[i].0@, v[i].1))
}

proof fn patch_step(
    start: Seq<PatchView>,
    s: PageScan,
    c: CommandView,
    page: int,
    command: int,
    values: Seq<Seq<char>>,
)
    requires
        drawn(c) is Some,
    ensures
        ({
            let (transformed, text) = drawn(c)->0;
            let edits = text_edits(text, values);
            let p = PatchView {
                page,
                command,
                transformed,
                text,
                edits,
                font_name: s.font_name,
                font_size: s.font_size,
                constraint: s.pending,
            };
            start + scan_step(s, c, page, command, values).patches == (if edits.len() == 0 {
                start + s.patches
            } else {
                (start + s.patches).push(p)
            })
        }),
{
    let now = scan_step(s, c, page, command, values).patches;
    let (transformed, text) = drawn(c)->0;
    let edits = text_edits(text, values);
    if edits.len() > 0 {
        assert(start + now =~= (start + s.patches).push(now.last()));
    }
}

fn push_patch(
    patches: &mut Vec<CompiledFlowTextPatch>,
    page: usize,
    command: usize,
    transformed: bool,
    text: &str,
    values: &Vec<String>,
    font_name: &str,
    font_size: Pt,
    constraint: Option<CompiledTextConstraint>,
)
    requires
        texts_countable(old(patches)@),
    ensures
        texts_countable(final(patches)@),
        ({
            let edits = text_edits(text@, texts(values@));
            patch_views(final(patches)@) == (if edits.len() == 0 {
                patch_views(old(patches)@)
            } else {
                patch_views(old(patches)@).push(
                    PatchView {
                        page: page as int,
                        command: command as int,
                        transformed,
                        text: text@,
                        edits,
                        font_name: font_name@,
                        font_size,
                        constraint,
                    },
                )
            })
        }),
{
    let edits = CompiledFlowRecordProgram::text_edits(text, values);
    proof {
        assert(edit_views(edits@).len() == edits@.len());
    }
    if edits.len() == 0 {
        return;
    }
    let ghost before = patches@;
    let length: usize = chars_of(text).len();
    let patch = CompiledFlowTextPatch {
        page,
        command,
        transformed,
        prototype_text: text.to_owned(),
        edits,
        font_name: font_name.to_owned(),
        font_size,
        constraint,
    };
    let ghost view = patch@;
    patches.push(patch);
    proof {
        assert(patch_views(patches@) =~= patch_views(before).push(view));
    }
}

} // verus!

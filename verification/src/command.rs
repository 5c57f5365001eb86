//! The display list: pages of drawing commands.
use vstd::prelude::*;

use crate::geometry::{Color, Pt, Ratio, Real, Rect, Size};
use crate::pmr::optional;

verus! {

broadcast use vstd::string::group_string_axioms;

/// One step of drawing a page.
#[derive(Debug)]
pub enum Command {
    /// Saves the graphics state.
    SaveState,
    /// Restores the graphics state.
    RestoreState,
    /// Sets the fill colour.
    SetFillColor(Color),
    /// Sets the stroke colour.
    SetStrokeColor(Color),
    /// Sets the line width.
    SetLineWidth(Pt),
    /// Sets the line cap.
    SetLineCap(u8),
    /// Sets the line join.
    SetLineJoin(u8),
    /// Sets the opacities.
    SetOpacity { fill: Real, stroke: Real },
    /// Selects a font.
    SetFontName(String),
    /// Sets the font size.
    SetFontSize(Pt),
    /// Clips to a rectangle.
    ClipRect { x: Pt, y: Pt, width: Pt, height: Pt },
    /// Fills a rectangle.
    DrawRect { x: Pt, y: Pt, width: Pt, height: Pt },
    /// Draws a text.
    DrawString { x: Pt, y: Pt, text: String },
    /// Draws a text under a matrix that the backend keeps.
    DrawStringTransformed { x: Pt, y: Pt, text: String, matrix: u64 },
    /// Moves the origin.
    Translate(Pt, Pt),
    /// Scales the axes.
    Scale(Ratio, Ratio),
    /// Turns the axes by an angle in radians.
    Rotate(Real),
    /// Multiplies the matrix.
    ConcatMatrix { a: Ratio, b: Ratio, c: Ratio, d: Ratio, e: Pt, f: Pt },
    /// Moves to a transform origin, or back.
    CssTransformOrigin { x: Pt, y: Pt, inverse: bool },
    /// A note that paints nothing.
    Meta { key: String, value: String },
    /// Defines a form.
    DefineForm { resource_id: String, width: Pt, height: Pt, commands: Vec<Command> },
    /// Defines a form with its own coordinates.
    DefineIsolatedForm { resource_id: String, width: Pt, height: Pt, commands: Vec<Command> },
    /// Draws a form.
    DrawForm { x: Pt, y: Pt, width: Pt, height: Pt, resource_id: String },
    /// Draws a form through a filter that the backend keeps.
    DrawFilteredForm { resource_id: String, filter: u64 },
    /// Draws an image.
    DrawImage {
        x: Pt,
        y: Pt,
        width: Pt,
        height: Pt,
        resource_id: String,
        interpolate: bool,
        source_clip: Option<Rect>,
    },
    /// Opens content outside the reading order.
    BeginArtifact { subtype: Option<String> },
    /// Opens content that can be switched off.
    BeginOptionalContent { name: String },
    /// Closes marked content.
    EndMarkedContent,
    /// Opens a tag.
    BeginTag {
        role: String,
        mcid: Option<u32>,
        alt: Option<String>,
        scope: Option<String>,
        table_id: Option<u32>,
        col_index: Option<u32>,
        group_only: bool,
    },
    /// Opens a tag with its text.
    BeginTagActualText { role: String, actual_text: String, mcid: Option<u32> },
    /// Closes a tag.
    EndTag,
    /// Starts a path.
    MoveTo { x: Pt, y: Pt },
    /// Adds a line.
    LineTo { x: Pt, y: Pt },
    /// Adds a curve.
    CurveTo { x1: Pt, y1: Pt, x2: Pt, y2: Pt, x: Pt, y: Pt },
    /// Closes the path.
    ClosePath,
    /// Strokes the path.
    Stroke,
    /// Anything else, which the backend keeps under a number.
    Host(u64),
}

/// A command as plain sequences.
pub enum CommandView {
    SaveState,
    RestoreState,
    SetFillColor(Color),
    SetStrokeColor(Color),
    SetLineWidth(Pt),
    SetLineCap(u8),
    SetLineJoin(u8),
    SetOpacity { fill: Real, stroke: Real },
    SetFontName(Seq<char>),
    SetFontSize(Pt),
    ClipRect { x: Pt, y: Pt, width: Pt, height: Pt },
    DrawRect { x: Pt, y: Pt, width: Pt, height: Pt },
    DrawString { x: Pt, y: Pt, text: Seq<char> },
    DrawStringTransformed { x: Pt, y: Pt, text: Seq<char>, matrix: u64 },
    Translate(Pt, Pt),
    Scale(Ratio, Ratio),
    Rotate(Real),
    ConcatMatrix { a: Ratio, b: Ratio, c: Ratio, d: Ratio, e: Pt, f: Pt },
    CssTransformOrigin { x: Pt, y: Pt, inverse: bool },
    Meta { key: Seq<char>, value: Seq<char> },
    DefineForm { resource_id: Seq<char>, width: Pt, height: Pt, commands: Seq<CommandView> },
    DefineIsolatedForm {
        resource_id: Seq<char>,
        width: Pt,
        height: Pt,
        commands: Seq<CommandView>,
    },
    DrawForm { x: Pt, y: Pt, width: Pt, height: Pt, resource_id: Seq<char> },
    DrawFilteredForm { resource_id: Seq<char>, filter: u64 },
    DrawImage {
        x: Pt,
        y: Pt,
        width: Pt,
        height: Pt,
        resource_id: Seq<char>,
        interpolate: bool,
        source_clip: Option<Rect>,
    },
    BeginArtifact { subtype: Option<Seq<char>> },
    BeginOptionalContent { name: Seq<char> },
    EndMarkedContent,
    BeginTag {
        role: Seq<char>,
        mcid: Option<u32>,
        alt: Option<Seq<char>>,
        scope: Option<Seq<char>>,
        table_id: Option<u32>,
        col_index: Option<u32>,
        group_only: bool,
    },
    BeginTagActualText { role: Seq<char>, actual_text: Seq<char>, mcid: Option<u32> },
    EndTag,
    MoveTo { x: Pt, y: Pt },
    LineTo { x: Pt, y: Pt },
    CurveTo { x1: Pt, y1: Pt, x2: Pt, y2: Pt, x: Pt, y: Pt },
    ClosePath,
    Stroke,
    Host(u64),
}

impl Command {
    /// The command as plain sequences.
    pub open spec fn model(self) -> CommandView
        decreases self,
    {
        match self {
            Command::SaveState => CommandView::SaveState,
            Command::RestoreState => CommandView::RestoreState,
            Command::SetFillColor(f0) => CommandView::SetFillColor(f0),
            Command::SetStrokeColor(f0) => CommandView::SetStrokeColor(f0),
            Command::SetLineWidth(f0) => CommandView::SetLineWidth(f0),
            Command::SetLineCap(f0) => CommandView::SetLineCap(f0),
            Command::SetLineJoin(f0) => CommandView::SetLineJoin(f0),
            Command::SetOpacity { fill, stroke } => CommandView::SetOpacity { fill, stroke },
            Command::SetFontName(f0) => CommandView::SetFontName(f0@),
            Command::SetFontSize(f0) => CommandView::SetFontSize(f0),
            Command::ClipRect {
                x,
                y,
                width,
                height,
            } => CommandView::ClipRect { x, y, width, height },
            Command::DrawRect {
                x,
                y,
                width,
                height,
            } => CommandView::DrawRect { x, y, width, height },
            Command::DrawString { x, y, text } => CommandView::DrawString { x, y, text: text@ },
            Command::DrawStringTransformed { x, y, text, matrix } => CommandView::DrawStringTransformed {
                x,
                y,
                text: text@,
                matrix,
            },
            Command::Translate(f0, f1) => CommandView::Translate(f0, f1),
            Command::Scale(f0, f1) => CommandView::Scale(f0, f1),
            Command::Rotate(f0) => CommandView::Rotate(f0),
            Command::ConcatMatrix {
                a,
                b,
                c,
                d,
                e,
                f,
            } => CommandView::ConcatMatrix { a, b, c, d, e, f },
            Command::CssTransformOrigin {
                x,
                y,
                inverse,
            } => CommandView::CssTransformOrigin { x, y, inverse },
            Command::Meta { key, value } => CommandView::Meta { key: key@, value: value@ },
            Command::DefineForm { resource_id, width, height, commands } => CommandView::DefineForm {
                resource_id: resource_id@,
                width,
                height,
                commands: Seq::new(
                    commands@.len(),
                    |i: int|
                        if 0 <= i < commands@.len() {
                            commands@[i].model()
                        } else {
                            CommandView::SaveState
                        },
                ),
            },
            Command::DefineIsolatedForm { resource_id, width, height, commands } => CommandView::DefineIsolatedForm {
                resource_id: resource_id@,
                width,
                height,
                commands: Seq::new(
                    commands@.len(),
                    |i: int|
                        if 0 <= i < commands@.len() {
                            commands@[i].model()
                        } else {
                            CommandView::SaveState
                        },
                ),
            },
            Command::DrawForm { x, y, width, height, resource_id } => CommandView::DrawForm {
                x,
                y,
                width,
                height,
                resource_id: resource_id@,
            },
            Command::DrawFilteredForm { resource_id, filter } => CommandView::DrawFilteredForm {
                resource_id: resource_id@,
                filter,
            },
            Command::DrawImage { x, y, width, height, resource_id, interpolate, source_clip } => CommandView::DrawImage {
                x,
                y,
                width,
                height,
                resource_id: resource_id@,
                interpolate,
                source_clip,
            },
            Command::BeginArtifact { subtype } => CommandView::BeginArtifact {
                subtype: optional(subtype),
            },
            Command::BeginOptionalContent { name } => CommandView::BeginOptionalContent {
                name: name@,
            },
            Command::EndMarkedContent => CommandView::EndMarkedContent,
            Command::BeginTag { role, mcid, alt, scope, table_id, col_index, group_only } => CommandView::BeginTag {
                role: role@,
                mcid,
                alt: optional(alt),
                scope: optional(scope),
                table_id,
                col_index,
                group_only,
            },
            Command::BeginTagActualText { role, actual_text, mcid } => CommandView::BeginTagActualText {
                role: role@,
                actual_text: actual_text@,
                mcid,
            },
            Command::EndTag => CommandView::EndTag,
            Command::MoveTo { x, y } => CommandView::MoveTo { x, y },
            Command::LineTo { x, y } => CommandView::LineTo { x, y },
            Command::CurveTo {
                x1,
                y1,
                x2,
                y2,
                x,
                y,
            } => CommandView::CurveTo { x1, y1, x2, y2, x, y },
            Command::ClosePath => CommandView::ClosePath,
            Command::Stroke => CommandView::Stroke,
            Command::Host(f0) => CommandView::Host(f0),
        }
    }

    /// A copy of the command.
    pub fn copy(&self) -> (r: Command)
        ensures
            r.model() == self.model(),
        decreases *self,
    {
        match self {
            Command::SaveState => Command::SaveState,
            Command::RestoreState => Command::RestoreState,
            Command::SetFillColor(f0) => Command::SetFillColor(*f0),
            Command::SetStrokeColor(f0) => Command::SetStrokeColor(*f0),
            Command::SetLineWidth(f0) => Command::SetLineWidth(*f0),
            Command::SetLineCap(f0) => Command::SetLineCap(*f0),
            Command::SetLineJoin(f0) => Command::SetLineJoin(*f0),
            Command::SetOpacity { fill, stroke } => Command::SetOpacity {
                fill: *fill,
                stroke: *stroke,
            },
            Command::SetFontName(f0) => Command::SetFontName(f0.clone()),
            Command::SetFontSize(f0) => Command::SetFontSize(*f0),
            Command::ClipRect { x, y, width, height } => Command::ClipRect {
                x: *x,
                y: *y,
                width: *width,
                height: *height,
            },
            Command::DrawRect { x, y, width, height } => Command::DrawRect {
                x: *x,
                y: *y,
                width: *width,
                height: *height,
            },
            Command::DrawString { x, y, text } => Command::DrawString {
                x: *x,
                y: *y,
                text: text.clone(),
            },
            Command::DrawStringTransformed { x, y, text, matrix } => Command::DrawStringTransformed {
                x: *x,
                y: *y,
                text: text.clone(),
                matrix: *matrix,
            },
            Command::Translate(f0, f1) => Command::Translate(*f0, *f1),
            Command::Scale(f0, f1) => Command::Scale(*f0, *f1),
            Command::Rotate(f0) => Command::Rotate(*f0),
            Command::ConcatMatrix { a, b, c, d, e, f } => Command::ConcatMatrix {
                a: *a,
                b: *b,
                c: *c,
                d: *d,
                e: *e,
                f: *f,
            },
            Command::CssTransformOrigin { x, y, inverse } => Command::CssTransformOrigin {
                x: *x,
                y: *y,
                inverse: *inverse,
            },
            Command::Meta { key, value } => Command::Meta {
                key: key.clone(),
                value: value.clone(),
            },
            Command::DefineForm { resource_id, width, height, commands } => {
                let copied = copy_commands(commands);
                let r = Command::DefineForm {
                    resource_id: resource_id.clone(),
                    width: *width,
                    height: *height,
                    commands: copied,
                };
                proof {
                    model_of_form(*self);
                    model_of_form(r);
                }
                r
            },
            Command::DefineIsolatedForm { resource_id, width, height, commands } => {
                let copied = copy_commands(commands);
                let r = Command::DefineIsolatedForm {
                    resource_id: resource_id.clone(),
                    width: *width,
                    height: *height,
                    commands: copied,
                };
                proof {
                    model_of_form(*self);
                    model_of_form(r);
                }
                r
            },
            Command::DrawForm { x, y, width, height, resource_id } => Command::DrawForm {
                x: *x,
                y: *y,
                width: *width,
                height: *height,
                resource_id: resource_id.clone(),
            },
            Command::DrawFilteredForm { resource_id, filter } => Command::DrawFilteredForm {
                resource_id: resource_id.clone(),
                filter: *filter,
            },
            Command::DrawImage { x, y, width, height, resource_id, interpolate, source_clip } => Command::DrawImage {
                x: *x,
                y: *y,
                width: *width,
                height: *height,
                resource_id: resource_id.clone(),
                interpolate: *interpolate,
                source_clip: *source_clip,
            },
            Command::BeginArtifact { subtype } => Command::BeginArtifact {
                subtype: copy_optional(subtype),
            },
            Command::BeginOptionalContent { name } => Command::BeginOptionalContent {
                name: name.clone(),
            },
            Command::EndMarkedContent => Command::EndMarkedContent,
            Command::BeginTag { role, mcid, alt, scope, table_id, col_index, group_only } => Command::BeginTag {
                role: role.clone(),
                mcid: *mcid,
                alt: copy_optional(alt),
                scope: copy_optional(scope),
                table_id: *table_id,
                col_index: *col_index,
                group_only: *group_only,
            },
            Command::BeginTagActualText { role, actual_text, mcid } => Command::BeginTagActualText {
                role: role.clone(),
                actual_text: actual_text.clone(),
                mcid: *mcid,
            },
            Command::EndTag => Command::EndTag,
            Command::MoveTo { x, y } => Command::MoveTo { x: *x, y: *y },
            Command::LineTo { x, y } => Command::LineTo { x: *x, y: *y },
            Command::CurveTo { x1, y1, x2, y2, x, y } => Command::CurveTo {
                x1: *x1,
                y1: *y1,
                x2: *x2,
                y2: *y2,
                x: *x,
                y: *y,
            },
            Command::ClosePath => Command::ClosePath,
            Command::Stroke => Command::Stroke,
            Command::Host(f0) => Command::Host(*f0),
        }
    }
}

/// The commands of a list as plain sequences.
pub open spec fn models(list: Seq<Command>) -> Seq<CommandView> {
    Seq::new(list.len(), |i: int| list[i].model())
}

/// A form holds the models of its commands.
pub proof fn model_of_form(c: Command)
    ensures
        match c {
            Command::DefineForm { resource_id, width, height, commands } => c.model()
                == (CommandView::DefineForm {
                resource_id: resource_id@,
                width,
                height,
                commands: models(commands@),
            }),
            Command::DefineIsolatedForm { resource_id, width, height, commands } => c.model()
                == (CommandView::DefineIsolatedForm {
                resource_id: resource_id@,
                width,
                height,
                commands: models(commands@),
            }),
            _ => true,
        },
{
    match c {
        Command::DefineForm { resource_id, width, height, commands } => {
            match c.model() {
                CommandView::DefineForm { resource_id: a, width: b, height: d, commands: inner } => {
                    assert(inner =~= models(commands@));
                },
                _ => {},
            }
        },
        Command::DefineIsolatedForm { resource_id, width, height, commands } => {
            match c.model() {
                CommandView::DefineIsolatedForm {
                    resource_id: a,
                    width: b,
                    height: d,
                    commands: inner,
                } => {
                    assert(inner =~= models(commands@));
                },
                _ => {},
            }
        },
        _ => {},
    }
}

fn copy_optional(s: &Option<String>) -> (r: Option<String>)
    ensures
        optional(r) == optional(*s),
{
    match s {
        Some(v) => Some(v.clone()),
        None => None,
    }
}

/// A copy of a list of commands.
pub fn copy_commands(list: &Vec<Command>) -> (out: Vec<Command>)
    ensures
        models(out@) == models(list@),
    decreases list,
{
    let mut out: Vec<Command> = Vec::new();
    let mut i: usize = 0;
    while i < list.len()
        invariant
            i <= list@.len(),
            out@.len() == i,
            forall|k: int| 0 <= k < i ==> (#[trigger] out@[k]).model() == list@[k].model(),
        decreases list@.len() - i,
    {
        proof {
            assert(decreases_to!(list => list@[i as int]));
        }
        out.push(list[i].copy());
        i += 1;
    }
    proof {
        assert(models(out@) =~= models(list@));
    }
    out
}

/// The commands from `a` up to `b`, copied.
pub fn copy_range(list: &Vec<Command>, a: usize, b: usize) -> (out: Vec<Command>)
    requires
        a <= b <= list@.len(),
    ensures
        models(out@) == models(list@).subrange(a as int, b as int),
{
    let mut out: Vec<Command> = Vec::new();
    let mut i: usize = a;
    while i < b
        invariant
            a <= i <= b <= list@.len(),
            out@.len() == i - a,
            forall|k: int| 0 <= k < i - a ==> (#[trigger] out@[k]).model() == list@[a + k].model(),
        decreases b - i,
    {
        out.push(list[i].copy());
        i += 1;
    }
    proof {
        assert(models(out@) =~= models(list@).subrange(a as int, b as int));
    }
    out
}

/// The models of two lists, one after the other.
pub proof fn models_concat(a: Seq<Command>, b: Seq<Command>)
    ensures
        models(a + b) == models(a) + models(b),
{
    assert(models(a + b) =~= models(a) + models(b));
}

/// The models of a list with one more command.
pub proof fn models_push(a: Seq<Command>, c: Command)
    ensures
        models(a.push(c)) == models(a).push(c.model()),
{
    assert(models(a.push(c)) =~= models(a).push(c.model()));
}

/// Appends a command.
pub fn emit(out: &mut Vec<Command>, c: Command)
    ensures
        models(final(out)@) == models(old(out)@).push(c.model()),
{
    proof {
        models_push(out@, c);
    }
    out.push(c);
}

/// Appends a list of commands.
pub fn emit_all(out: &mut Vec<Command>, mut more: Vec<Command>)
    ensures
        models(final(out)@) == models(old(out)@) + models(more@),
{
    proof {
        models_concat(out@, more@);
    }
    out.append(&mut more);
}

/// A page: the commands that draw it.
#[derive(Debug)]
pub struct Page {
    pub commands: Vec<Command>,
}

/// A document: pages of one default size.
#[derive(Debug)]
pub struct Document {
    pub page_size: Size,
    pub pages: Vec<Page>,
}

/// A document as plain sequences.
#[verifier::ext_equal]
pub struct DocumentView {
    pub page_size: Size,
    pub pages: Seq<Seq<CommandView>>,
}

/// The pages of a list as plain sequences.
pub open spec fn page_models(pages: Seq<Page>) -> Seq<Seq<CommandView>> {
    Seq::new(pages.len(), |i: int| models(pages[i].commands@))
}

impl View for Document {
    type V = DocumentView;

    open spec fn view(&self) -> DocumentView {
        DocumentView { page_size: self.page_size, pages: page_models(self.pages@) }
    }
}

} // verus!

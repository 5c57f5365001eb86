//! Frames: areas of a page that are filled from top to bottom.
use vstd::prelude::*;

use crate::command::{emit, models, page_models, Command, CommandView, Document, Page};
use crate::geometry::{pt, Pt, Rect, Size};

verus! {

broadcast use vstd::string::group_string_axioms;

// ---------------------------------------------------------------------------------------------
// The canvas
// ---------------------------------------------------------------------------------------------
/// A document being drawn: the pages that are done, and the commands of the page at hand.
pub struct Canvas {
    pub page_size: Size,
    pub pages: Vec<Page>,
    pub commands: Vec<Command>,
}

impl Canvas {
    /// An empty document.
    pub fn new(page_size: Size) -> (c: Self)
        ensures
            c.page_size == page_size,
            c.pages@.len() == 0,
            c.commands@.len() == 0,
    {
        Canvas { page_size, pages: Vec::new(), commands: Vec::new() }
    }

    /// Ends the page at hand and begins another.
    pub fn show_page(&mut self)
        ensures
            final(self).page_size == old(self).page_size,
            page_models(final(self).pages@) == page_models(old(self).pages@).push(
                models(old(self).commands@),
            ),
            final(self).commands@.len() == 0,
    {
        let ghost before = page_models(self.pages@);
        let ghost drawn = models(self.commands@);
        let commands = self.commands.split_off(0);
        proof {
            assert(models(commands@) =~= drawn);
        }
        self.pages.push(Page { commands });
        proof {
            assert(page_models(self.pages@) =~= before.push(drawn));
        }
    }

    /// The document, with the page at hand as its last.
    pub fn finish(self) -> (d: Document)
        ensures
            d.page_size == self.page_size,
            d@.pages == page_models(self.pages@).push(models(self.commands@)),
    {
        let ghost before = page_models(self.pages@);
        let ghost drawn = models(self.commands@);
        let mut pages = self.pages;
        pages.push(Page { commands: self.commands });
        proof {
            assert(page_models(pages@) =~= before.push(drawn));
        }
        Document { page_size: self.page_size, pages }
    }
}

// ---------------------------------------------------------------------------------------------
// What fills a frame
// ---------------------------------------------------------------------------------------------
/// Empty space.
pub struct Spacer {
    pub height: Pt,
}

impl Spacer {
    /// Space of a given height.
    pub fn new_pt(height: Pt) -> (s: Self)
        ensures
            s.height == height,
    {
        Spacer { height }
    }
}

/// A cell of a table: its text, and the size that the text was measured to take.
pub struct TableCell {
    pub text: String,
    pub width: Pt,
    pub height: Pt,
}

/// A table that can be split between its rows. A continued table is what was left of one.
pub struct TableFlowable {
    pub header: Vec<Vec<TableCell>>,
    pub body: Vec<Vec<TableCell>>,
    pub repeat_header: bool,
    pub continued: bool,
}

impl TableFlowable {
    /// A table without a header.
    pub fn new(body: Vec<Vec<TableCell>>) -> (t: Self)
        ensures
            t.body == body,
            t.header@.len() == 0,
            t.repeat_header,
            !t.continued,
    {
        TableFlowable { header: Vec::new(), body, repeat_header: true, continued: false }
    }

    /// The table with a header.
    pub fn with_header(self, header: Vec<Vec<TableCell>>) -> (t: Self)
        ensures
            t == (TableFlowable { header, ..self }),
    {
        TableFlowable { header, ..self }
    }

    /// Whether the header is drawn anew after a split.
    pub fn repeat_header(self, repeat: bool) -> (t: Self)
        ensures
            t == (TableFlowable { repeat_header: repeat, ..self }),
    {
        TableFlowable { repeat_header: repeat, ..self }
    }

    /// The rows of the header that are drawn.
    pub open spec fn shown_header(self) -> Seq<Vec<TableCell>> {
        if !self.continued || self.repeat_header {
            self.header@
        } else {
            Seq::empty()
        }
    }
}

/// What fills a frame.
pub enum Flowable {
    Spacer(Spacer),
    Table(TableFlowable),
}

/// What came of adding to a frame: the height that was taken and, where something is left over,
/// what that is.
pub enum AddResult {
    Placed(Pt),
    Split(Flowable, Pt),
    Overflow(Flowable, Pt),
}

// ---------------------------------------------------------------------------------------------
// Rows
// ---------------------------------------------------------------------------------------------
/// The height of a row: that of the highest of its first `n` cells.
pub open spec fn row_height(cells: Seq<TableCell>, n: int) -> Pt
    decreases n,
{
    if n <= 0 {
        pt(0)
    } else {
        row_height(cells, n - 1).larger(cells[n - 1].height)
    }
}

/// How far the cell after the first `n` stands to the right.
pub open spec fn cell_offset(cells: Seq<TableCell>, n: int) -> Pt
    decreases n,
{
    if n <= 0 {
        pt(0)
    } else {
        cell_offset(cells, n - 1).plus(cells[n - 1].width)
    }
}

/// The commands that draw the first `n` cells of a row.
pub open spec fn row_commands(cells: Seq<TableCell>, x: Pt, y: Pt, n: int) -> Seq<CommandView>
    decreases n,
{
    if n <= 0 {
        Seq::empty()
    } else {
        row_commands(cells, x, y, n - 1).push(
            CommandView::DrawString {
                x: x.plus(cell_offset(cells, n - 1)),
                y,
                text: cells[n - 1].text@,
            },
        )
    }
}

/// The height of the first `n` rows below what already takes the height `taken`.
pub open spec fn stacked(taken: Pt, rows: Seq<Vec<TableCell>>, n: int) -> Pt
    decreases n,
{
    if n <= 0 {
        taken
    } else {
        stacked(taken, rows, n - 1).plus(row_height(rows[n - 1]@, rows[n - 1]@.len() as int))
    }
}

/// The commands that draw the first `n` rows below what already takes the height `taken`.
pub open spec fn rows_commands(
    taken: Pt,
    rows: Seq<Vec<TableCell>>,
    x: Pt,
    y: Pt,
    n: int,
) -> Seq<CommandView>
    decreases n,
{
    if n <= 0 {
        Seq::empty()
    } else {
        rows_commands(taken, rows, x, y, n - 1) + row_commands(
            rows[n - 1]@,
            x,
            y.plus(stacked(taken, rows, n - 1)),
            rows[n - 1]@.len() as int,
        )
    }
}

/// How many rows fit from row `i` on, up to the first that does not.
pub open spec fn fitting(taken: Pt, rows: Seq<Vec<TableCell>>, room: Pt, i: int) -> int
    decreases rows.len() - i,
{
    if i < 0 || i >= rows.len() || stacked(taken, rows, i + 1).milli > room.milli {
        0
    } else {
        1 + fitting(taken, rows, room, i + 1)
    }
}

fn height_of_row(cells: &Vec<TableCell>) -> (r: Pt)
    ensures
        r == row_height(cells@, cells@.len() as int),
{
    let mut r = Pt::zero();
    let mut i: usize = 0;
    while i < cells.len()
        invariant
            i <= cells@.len(),
            r == row_height(cells@, i as int),
        decreases cells@.len() - i,
    {
        r = r.larger(cells[i].height);
        i += 1;
    }
    r
}

fn draw_row(cells: &Vec<TableCell>, x: Pt, y: Pt, out: &mut Vec<Command>)
    ensures
        models(final(out)@) == models(old(out)@) + row_commands(cells@, x, y, cells@.len() as int),
{
    let ghost before = models(out@);
    let mut offset = Pt::zero();
    let mut i: usize = 0;
    proof {
        assert(before =~= before + row_commands(cells@, x, y, 0));
    }
    while i < cells.len()
        invariant
            i <= cells@.len(),
            offset == cell_offset(cells@, i as int),
            models(out@) == before + row_commands(cells@, x, y, i as int),
        decreases cells@.len() - i,
    {
        emit(
            out,
            Command::DrawString { x: x.plus(offset), y, text: cells[i].text.clone() },
        );
        offset = offset.plus(cells[i].width);
        i += 1;
        proof {
            assert(models(out@) =~= before + row_commands(cells@, x, y, i as int));
        }
    }
}

fn height_of_rows(rows: &Vec<Vec<TableCell>>) -> (r: Pt)
    ensures
        r == stacked(pt(0), rows@, rows@.len() as int),
{
    let mut r = Pt::zero();
    let mut i: usize = 0;
    while i < rows.len()
        invariant
            i <= rows@.len(),
            r == stacked(pt(0), rows@, i as int),
        decreases rows@.len() - i,
    {
        r = r.plus(height_of_row(&rows[i]));
        i += 1;
    }
    r
}

fn draw_rows(
    taken: Pt,
    rows: &Vec<Vec<TableCell>>,
    n: usize,
    x: Pt,
    y: Pt,
    out: &mut Vec<Command>,
) -> (r: Pt)
    requires
        n <= rows@.len(),
    ensures
        r == stacked(taken, rows@, n as int),
        models(final(out)@) == models(old(out)@) + rows_commands(taken, rows@, x, y, n as int),
{
    let ghost before = models(out@);
    let mut r = taken;
    let mut i: usize = 0;
    proof {
        assert(before =~= before + rows_commands(taken, rows@, x, y, 0));
    }
    while i < n
        invariant
            i <= n <= rows@.len(),
            r == stacked(taken, rows@, i as int),
            models(out@) == before + rows_commands(taken, rows@, x, y, i as int),
        decreases n - i,
    {
        draw_row(&rows[i], x, y.plus(r), out);
        r = r.plus(height_of_row(&rows[i]));
        i += 1;
        proof {
            assert(models(out@) =~= before + rows_commands(taken, rows@, x, y, i as int));
        }
    }
    r
}

fn count_fitting(taken: Pt, rows: &Vec<Vec<TableCell>>, room: Pt) -> (r: usize)
    ensures
        r == fitting(taken, rows@, room, 0),
        r <= rows@.len(),
{
    let mut r = taken;
    let mut i: usize = 0;
    while i < rows.len()
        invariant
            i <= rows@.len(),
            r == stacked(taken, rows@, i as int),
            fitting(taken, rows@, room, 0) == i + fitting(taken, rows@, room, i as int),
        decreases rows@.len() - i,
    {
        r = r.plus(height_of_row(&rows[i]));
        if r.milli > room.milli {
            return i;
        }
        i += 1;
    }
    i
}

// ---------------------------------------------------------------------------------------------
// Frames
// ---------------------------------------------------------------------------------------------
/// An area of a page, and the height that is taken from its top.
pub struct Frame {
    pub rect: Rect,
    pub used: Pt,
}

/// What a frame does with a table.
pub enum TableFit {
    /// All of it fits.
    Whole,
    /// So many rows fit below the header.
    Part(int),
    /// Not even one row fits below the header.
    Nothing,
}

/// What a frame with this much room does with a table.
pub open spec fn table_fit(t: TableFlowable, room: Pt) -> TableFit {
    let head = stacked(pt(0), t.shown_header(), t.shown_header().len() as int);
    let k = fitting(head, t.body@, room, 0);
    if head.milli > room.milli {
        TableFit::Nothing
    } else if k == t.body@.len() {
        TableFit::Whole
    } else if k > 0 {
        TableFit::Part(k)
    } else {
        TableFit::Nothing
    }
}

/// The commands that draw the header and the first `k` rows of a table.
pub open spec fn table_commands(t: TableFlowable, x: Pt, y: Pt, k: int) -> Seq<CommandView> {
    let rows = t.shown_header();
    let head = stacked(pt(0), rows, rows.len() as int);
    rows_commands(pt(0), rows, x, y, rows.len() as int) + rows_commands(head, t.body@, x, y, k)
}

/// The height of the header and the first `k` rows of a table.
pub open spec fn table_height(t: TableFlowable, k: int) -> Pt {
    let rows = t.shown_header();
    stacked(stacked(pt(0), rows, rows.len() as int), t.body@, k)
}

impl Frame {
    /// An empty frame.
    pub fn new(rect: Rect) -> (f: Self)
        ensures
            f.rect == rect,
            f.used == pt(0),
    {
        Frame { rect, used: Pt::zero() }
    }

    /// The height that is left.
    pub open spec fn room(self) -> Pt {
        self.rect.height.minus(self.used)
    }

    fn add_spacer(&mut self, s: Spacer) -> (r: AddResult)
        ensures
            final(self).rect == old(self).rect,
            s.height.milli <= old(self).room().milli ==> r == AddResult::Placed(s.height)
                && final(self).used == old(self).used.plus(s.height),
            s.height.milli > old(self).room().milli ==> r == AddResult::Overflow(
                Flowable::Spacer(s),
                pt(0),
            ) && final(self).used == old(self).used,
    {
        let room = self.rect.height.minus(self.used);
        let height = s.height;
        if height.milli <= room.milli {
            self.used = self.used.plus(height);
            AddResult::Placed(height)
        } else {
            AddResult::Overflow(Flowable::Spacer(s), Pt::zero())
        }
    }

    fn add_table(&mut self, t: TableFlowable, canvas: &mut Canvas) -> (r: AddResult)
        ensures
            table_added(t, *old(self), *final(self), *old(canvas), *final(canvas), r),
    {
        let room = self.rect.height.minus(self.used);
        let x = self.rect.x;
        let y = self.rect.y.plus(self.used);
        let shows_header = !t.continued || t.repeat_header;
        let ghost start = models(canvas.commands@);
        let head = if shows_header {
            height_of_rows(&t.header)
        } else {
            Pt::zero()
        };
        if head.milli > room.milli {
            return AddResult::Overflow(Flowable::Table(t), Pt::zero());
        }
        let k: usize = count_fitting(head, &t.body, room);
        if k == 0 && t.body.len() > 0 {
            return AddResult::Overflow(Flowable::Table(t), Pt::zero());
        }
        if shows_header {
            let n: usize = t.header.len();
            let _head = draw_rows(Pt::zero(), &t.header, n, x, y, &mut canvas.commands);
        } else {
            proof {
                assert(start =~= start + rows_commands(pt(0), Seq::empty(), x, y, 0));
            }
        }
        let height = draw_rows(head, &t.body, k, x, y, &mut canvas.commands);
        proof {
            assert(models(canvas.commands@) =~= start + table_commands(t, x, y, k as int));
        }
        self.used = self.used.plus(height);
        if k == t.body.len() {
            AddResult::Placed(height)
        } else {
            let mut body = t.body;
            let rest = body.split_off(k);
            AddResult::Split(
                Flowable::Table(
                    TableFlowable {
                        header: t.header,
                        body: rest,
                        repeat_header: t.repeat_header,
                        continued: true,
                    },
                ),
                height,
            )
        }
    }

    /// Adds to the frame as much as there is room for.
    pub fn add(&mut self, flowable: Flowable, canvas: &mut Canvas) -> (r: AddResult)
        ensures
            added(flowable, *old(self), *final(self), *old(canvas), *final(canvas), r),
    {
        match flowable {
            Flowable::Spacer(s) => self.add_spacer(s),
            Flowable::Table(t) => self.add_table(t, canvas),
        }
    }
}

/// What is left of a table after its first `k` rows.
pub open spec fn is_rest(t: TableFlowable, k: int, rest: TableFlowable) -> bool {
    &&& rest.header == t.header
    &&& rest.body@ == t.body@.skip(k)
    &&& rest.repeat_header == t.repeat_header
    &&& rest.continued
}

/// A canvas with more commands on the page at hand.
pub open spec fn drawn_on(c0: Canvas, c1: Canvas, more: Seq<CommandView>) -> bool {
    &&& c1.page_size == c0.page_size
    &&& c1.pages == c0.pages
    &&& models(c1.commands@) == models(c0.commands@) + more
}

/// What adding a table does to a frame and a canvas, and what it gives.
pub open spec fn table_added(
    t: TableFlowable,
    f0: Frame,
    f1: Frame,
    c0: Canvas,
    c1: Canvas,
    r: AddResult,
) -> bool {
    let x = f0.rect.x;
    let y = f0.rect.y.plus(f0.used);
    &&& f1.rect == f0.rect
    &&& match table_fit(t, f0.room()) {
        TableFit::Whole => {
            let n = t.body@.len() as int;
            &&& r == AddResult::Placed(table_height(t, n))
            &&& f1.used == f0.used.plus(table_height(t, n))
            &&& drawn_on(c0, c1, table_commands(t, x, y, n))
        },
        TableFit::Part(k) => {
            &&& r matches AddResult::Split(Flowable::Table(rest), h) && is_rest(t, k, rest) && h
                == table_height(t, k)
            &&& f1.used == f0.used.plus(table_height(t, k))
            &&& drawn_on(c0, c1, table_commands(t, x, y, k))
        },
        TableFit::Nothing => {
            &&& r == AddResult::Overflow(Flowable::Table(t), pt(0))
            &&& f1.used == f0.used
            &&& c1 == c0
        },
    }
}

/// What adding to a frame does to it and to a canvas, and what it gives.
pub open spec fn added(
    flowable: Flowable,
    f0: Frame,
    f1: Frame,
    c0: Canvas,
    c1: Canvas,
    r: AddResult,
) -> bool {
    match flowable {
        Flowable::Spacer(s) => {
            let fits = s.height.milli <= f0.room().milli;
            &&& f1.rect == f0.rect
            &&& c1 == c0
            &&& fits ==> r == AddResult::Placed(s.height) && f1.used == f0.used.plus(s.height)
            &&& !fits ==> r == AddResult::Overflow(flowable, pt(0)) && f1.used == f0.used
        },
        Flowable::Table(t) => table_added(t, f0, f1, c0, c1, r),
    }
}

proof fn fitting_is_bounded(taken: Pt, rows: Seq<Vec<TableCell>>, room: Pt, i: int)
    requires
        0 <= i <= rows.len(),
    ensures
        0 <= fitting(taken, rows, room, i) <= rows.len() - i,
        fitting(taken, rows, room, i) > 0 ==> stacked(
            taken,
            rows,
            i + fitting(taken, rows, room, i),
        ).milli <= room.milli,
    decreases rows.len() - i,
{
    if i < rows.len() && stacked(taken, rows, i + 1).milli <= room.milli {
        fitting_is_bounded(taken, rows, room, i + 1);
    }
}

/// A split table loses no row and gets shorter, and what is drawn of a table fits in the room that
/// there is.
pub proof fn split_tables_get_shorter(t: TableFlowable, room: Pt, rest: TableFlowable)
    ensures
        table_fit(t, room) matches TableFit::Part(k) ==> is_rest(t, k, rest) ==> {
            &&& rest.body@.len() < t.body@.len()
            &&& t.body@ == t.body@.take(k) + rest.body@
            &&& table_height(t, k).milli <= room.milli
        },
        table_fit(t, room) is Whole ==> table_height(t, t.body@.len() as int).milli <= room.milli,
{
    let head = stacked(pt(0), t.shown_header(), t.shown_header().len() as int);
    fitting_is_bounded(head, t.body@, room, 0);
    if let TableFit::Part(k) = table_fit(t, room) {
        if is_rest(t, k, rest) {
            assert(t.body@ =~= t.body@.take(k) + rest.body@);
        }
    }
}

/// What is left of a table draws the header anew where that is enabled, and only there.
pub proof fn header_is_repeated(t: TableFlowable, k: int, rest: TableFlowable)
    requires
        is_rest(t, k, rest),
    ensures
        t.repeat_header ==> rest.shown_header() == t.header@,
        !t.repeat_header ==> rest.shown_header().len() == 0,
{
}

// ---------------------------------------------------------------------------------------------
// Stories
// ---------------------------------------------------------------------------------------------
/// All of it fits in the room that there is.
pub open spec fn is_whole(f: Flowable, room: Pt) -> bool {
    match f {
        Flowable::Spacer(s) => s.height.milli <= room.milli,
        Flowable::Table(t) => table_fit(t, room) is Whole,
    }
}

/// The height of all of it.
pub open spec fn whole_height(f: Flowable) -> Pt {
    match f {
        Flowable::Spacer(s) => s.height,
        Flowable::Table(t) => table_height(t, t.body@.len() as int),
    }
}

/// The commands that draw as much of it as there is room for.
pub open spec fn flow_commands(f: Flowable, x: Pt, y: Pt, room: Pt) -> Seq<CommandView> {
    match f {
        Flowable::Spacer(s) => Seq::empty(),
        Flowable::Table(t) => match table_fit(t, room) {
            TableFit::Whole => table_commands(t, x, y, t.body@.len() as int),
            TableFit::Part(k) => table_commands(t, x, y, k),
            TableFit::Nothing => Seq::empty(),
        },
    }
}

/// The height that the first `n` items of a story take.
pub open spec fn story_used(story: Seq<Flowable>, n: int) -> Pt
    decreases n,
{
    if n <= 0 {
        pt(0)
    } else {
        story_used(story, n - 1).plus(whole_height(story[n - 1]))
    }
}

/// The commands of the first `n` items of a story.
pub open spec fn story_commands(story: Seq<Flowable>, rect: Rect, n: int) -> Seq<CommandView>
    decreases n,
{
    if n <= 0 {
        Seq::empty()
    } else {
        let used = story_used(story, n - 1);
        story_commands(story, rect, n - 1) + flow_commands(
            story[n - 1],
            rect.x,
            rect.y.plus(used),
            rect.height.minus(used),
        )
    }
}

/// How many items of a story are drawn, from item `i` on: up to and with the first that does not
/// fit as a whole.
pub open spec fn story_end(story: Seq<Flowable>, rect: Rect, i: int) -> int
    decreases story.len() - i,
{
    if i < 0 || i >= story.len() {
        story.len() as int
    } else if is_whole(story[i], rect.height.minus(story_used(story, i))) {
        story_end(story, rect, i + 1)
    } else {
        i + 1
    }
}

/// Draws a story into an area at the upper left corner of a page. What does not fit is left out.
pub fn draw_story(story: Vec<Flowable>, page_size: Size, width: Pt, height: Pt) -> (out: Vec<
    Command,
>)
    ensures
        ({
            let rect = Rect { x: pt(0), y: pt(0), width, height };
            models(out@) == story_commands(story@, rect, story_end(story@, rect, 0))
        }),
{
    let rect = Rect { x: Pt::zero(), y: Pt::zero(), width, height };
    let ghost all = story@;
    let ghost end = story_end(all, rect, 0);
    let mut rest = story;
    let mut canvas = Canvas::new(page_size);
    let mut frame = Frame::new(rect);
    let mut open = true;
    let ghost mut i: int = 0;
    proof {
        assert(models(canvas.commands@) =~= story_commands(all, rect, 0));
        assert(all.skip(0) =~= all);
    }
    while open && rest.len() > 0
        invariant
            0 <= i <= all.len(),
            frame.rect == rect,
            end == story_end(all, rect, 0),
            models(canvas.commands@) == story_commands(all, rect, i),
            open ==> rest@ == all.skip(i) && frame.used == story_used(all, i) && end == story_end(
                all,
                rect,
                i,
            ),
            !open ==> i == end,
        decreases rest@.len(),
    {
        let ghost before = models(canvas.commands@);
        let ghost before_all = story_commands(all, rect, i);
        let ghost used = frame.used;
        let flowable = rest.remove(0);
        proof {
            assert(flowable == all[i]);
            assert(rest@ =~= all.skip(i + 1));
        }
        let result = frame.add(flowable, &mut canvas);
        proof {
            let room = rect.height.minus(used);
            let more = flow_commands(flowable, rect.x, rect.y.plus(used), room);
            assert(models(canvas.commands@) =~= before + more);
            assert(story_commands(all, rect, i + 1) == before_all + more);
        }
        match result {
            AddResult::Placed(_) => {},
            AddResult::Split(_, _) => {
                open = false;
            },
            AddResult::Overflow(_, _) => {
                open = false;
            },
        }
        proof {
            i = i + 1;
        }
    }
    canvas.commands
}

/// A story that is drawn to its end takes no more than the height of its area.
pub proof fn drawn_story_fits(story: Seq<Flowable>, rect: Rect, n: int)
    requires
        0 <= n <= story.len(),
        rect.height.milli >= 0,
        forall|i: int|
            0 <= i < n ==> is_whole(
                #[trigger] story[i],
                rect.height.minus(story_used(story, i)),
            ) && whole_height(story[i]).milli >= 0,
    ensures
        0 <= story_used(story, n).milli <= rect.height.milli,
    decreases n,
{
    if n > 0 {
        drawn_story_fits(story, rect, n - 1);
        let f = story[n - 1];
        let room = rect.height.minus(story_used(story, n - 1));
        assert(is_whole(f, room));
        match f {
            Flowable::Spacer(s) => {},
            Flowable::Table(t) => {
                split_tables_get_shorter(t, room, t);
            },
        }
    }
}

} // verus!

//! Whole documents: joining them, laying one over another, and reading facts off them.
use vstd::prelude::*;

use crate::command::{
    copy_commands, emit_all, models, page_models, Command, CommandView, Document, DocumentView,
    Page,
};
use crate::geometry::Size;
use crate::shrink::{notes, notes_of};
use crate::text::{chars_of, same, texts};

verus! {

broadcast use vstd::string::group_string_axioms;

/// What can go wrong.
#[derive(Debug)]
pub enum FullBleedError {
    /// There is no document to merge.
    EmptyDocumentSet,
    /// The documents have different page sizes.
    InconsistentPageSize,
    /// The options do not fit together.
    InvalidConfiguration(String),
    /// There is no page to lay a document out on.
    MissingPageTemplate,
    /// The work was called off.
    Cancelled,
}

// ---------------------------------------------------------------------------------------------
// Merging
// ---------------------------------------------------------------------------------------------
/// The pages of the first `n` documents, one after the other.
pub open spec fn joined_pages(docs: Seq<Document>, n: int) -> Seq<Seq<CommandView>>
    decreases n,
{
    if n <= 0 {
        Seq::empty()
    } else {
        joined_pages(docs, n - 1) + docs[n - 1]@.pages
    }
}

/// All documents have the page size of the first.
pub open spec fn same_page_size(docs: Seq<Document>) -> bool {
    forall|i: int| 0 <= i < docs.len() ==> (#[trigger] docs[i]).page_size == docs[0].page_size
}

/// What comes of joining documents: their pages follow each other, where they have one page size.
pub open spec fn joins(docs: Seq<Document>, r: Result<Document, FullBleedError>) -> bool {
    match r {
        Ok(doc) => {
            &&& docs.len() > 0
            &&& same_page_size(docs)
            &&& doc.page_size == docs[0].page_size
            &&& doc@.pages == joined_pages(docs, docs.len() as int)
        },
        Err(FullBleedError::EmptyDocumentSet) => docs.len() == 0,
        Err(FullBleedError::InconsistentPageSize) => docs.len() > 0 && !same_page_size(docs),
        Err(_) => false,
    }
}

/// Joins documents of one page size: their pages follow each other.
pub fn merge_documents(documents: Vec<Document>) -> (r: Result<Document, FullBleedError>)
    ensures
        joins(documents@, r),
{
    if documents.len() == 0 {
        return Err(FullBleedError::EmptyDocumentSet);
    }
    let page_size = documents[0].page_size;
    let mut pages: Vec<Page> = Vec::new();
    let mut i: usize = 0;
    proof {
        assert(page_models(pages@) =~= Seq::empty());
    }
    while i < documents.len()
        invariant
            i <= documents@.len(),
            documents@.len() > 0,
            page_size == documents@[0].page_size,
            forall|k: int| 0 <= k < i ==> (#[trigger] documents@[k]).page_size == page_size,
            page_models(pages@) == joined_pages(documents@, i as int),
        decreases documents@.len() - i,
    {
        if documents[i].page_size != page_size {
            proof {
                assert(documents@[i as int].page_size != documents@[0].page_size);
            }
            return Err(FullBleedError::InconsistentPageSize);
        }
        append_pages(&mut pages, &documents[i].pages);
        i += 1;
    }
    Ok(Document { page_size, pages })
}

fn append_pages(out: &mut Vec<Page>, more: &Vec<Page>)
    ensures
        page_models(final(out)@) == page_models(old(out)@) + page_models(more@),
{
    let ghost start = page_models(out@);
    let mut i: usize = 0;
    proof {
        assert(page_models(more@).take(0) =~= Seq::empty());
        assert(start + Seq::<Seq<CommandView>>::empty() =~= start);
    }
    while i < more.len()
        invariant
            i <= more@.len(),
            page_models(out@) == start + page_models(more@).take(i as int),
        decreases more@.len() - i,
    {
        let commands = copy_commands(&more[i].commands);
        let ghost before = page_models(out@);
        let ghost view = models(commands@);
        out.push(Page { commands });
        proof {
            let all = page_models(more@);
            assert(page_models(out@) =~= before.push(view));
            assert(all[i as int] == view);
            assert(start + all.take(i + 1) =~= (start + all.take(i as int)).push(view));
        }
        i += 1;
    }
    proof {
        let all = page_models(more@);
        assert(all.take(all.len() as int) =~= all);
    }
}

/// The place of the first refusal from place `i` on.
pub open spec fn first_refusal(results: Seq<Result<Document, FullBleedError>>, i: int) -> Option<int>
    decreases results.len() - i,
{
    if i < 0 || i >= results.len() {
        None
    } else if results[i] is Err {
        Some(i)
    } else {
        first_refusal(results, i + 1)
    }
}

/// The documents of a batch of which none was refused.
pub open spec fn rendered(results: Seq<Result<Document, FullBleedError>>) -> Seq<Document> {
    Seq::new(results.len(), |i: int| results[i]->Ok_0)
}

/// Joins the documents of a batch in order. The first refusal stands for the whole batch; work that
/// was called off before or after gives nothing.
pub fn merge_results(
    cancelled_before: bool,
    results: Vec<Result<Document, FullBleedError>>,
    cancelled_after: bool,
) -> (r: Result<Document, FullBleedError>)
    ensures
        if cancelled_before {
            r matches Err(FullBleedError::Cancelled)
        } else {
            match first_refusal(results@, 0) {
                Some(k) => r matches Err(e) && results@[k] == Err::<Document, FullBleedError>(e),
                None => if cancelled_after {
                    r matches Err(FullBleedError::Cancelled)
                } else {
                    joins(rendered(results@), r)
                },
            }
        },
{
    if cancelled_before {
        return Err(FullBleedError::Cancelled);
    }
    let ghost all = results@;
    let mut rest = results;
    let mut documents: Vec<Document> = Vec::new();
    let ghost mut i: int = 0;
    proof {
        assert(all.skip(0) =~= all);
    }
    while rest.len() > 0
        invariant
            0 <= i <= all.len(),
            !cancelled_before,
            all == results@,
            rest@ == all.skip(i),
            documents@ == rendered(all).take(i),
            first_refusal(all, 0) == first_refusal(all, i),
        decreases rest@.len(),
    {
        let one = rest.remove(0);
        proof {
            assert(one == all[i]);
            assert(rest@ =~= all.skip(i + 1));
        }
        match one {
            Ok(document) => {
                documents.push(document);
                proof {
                    assert(documents@ =~= rendered(all).take(i + 1));
                }
            },
            Err(e) => {
                return Err(e);
            },
        }
        proof {
            i = i + 1;
        }
    }
    if cancelled_after {
        return Err(FullBleedError::Cancelled);
    }
    proof {
        assert(documents@ =~= rendered(all));
    }
    merge_documents(documents)
}

/// A merged document has as many pages as its parts together.
pub proof fn merged_page_count(docs: Seq<Document>, n: int)
    requires
        0 <= n <= docs.len(),
    ensures
        joined_pages(docs, n).len() == page_total(docs, n),
    decreases n,
{
    if n > 0 {
        merged_page_count(docs, n - 1);
    }
}

/// The pages of the first `n` documents together.
pub open spec fn page_total(docs: Seq<Document>, n: int) -> int
    decreases n,
{
    if n <= 0 {
        0
    } else {
        page_total(docs, n - 1) + docs[n - 1].pages@.len()
    }
}

// ---------------------------------------------------------------------------------------------
// Laying over and under
// ---------------------------------------------------------------------------------------------
/// The base with the overlay drawn after it; left alone unless both have the same number of pages.
pub open spec fn overlaid(base: DocumentView, over: DocumentView) -> DocumentView {
    if base.pages.len() != over.pages.len() {
        base
    } else {
        DocumentView {
            page_size: base.page_size,
            pages: Seq::new(base.pages.len(), |p: int| base.pages[p] + over.pages[p]),
        }
    }
}

/// The base with the background drawn before it; left alone unless both have the same number of
/// pages.
pub open spec fn underlaid(base: DocumentView, under: DocumentView) -> DocumentView {
    if base.pages.len() != under.pages.len() {
        base
    } else {
        DocumentView {
            page_size: base.page_size,
            pages: Seq::new(base.pages.len(), |p: int| under.pages[p] + base.pages[p]),
        }
    }
}

/// Draws an overlay after each page.
pub fn merge_overlay_commands(base: &mut Document, overlay: &Document)
    ensures
        final(base)@ == overlaid(old(base)@, overlay@),
{
    if base.pages.len() != overlay.pages.len() {
        return;
    }
    let ghost start = base@;
    let n: usize = base.pages.len();
    let mut p: usize = 0;
    while p < n
        invariant
            p <= n == base.pages@.len(),
            n == overlay.pages@.len(),
            start.pages.len() == n,
            base.page_size == start.page_size,
            forall|k: int|
                0 <= k < p ==> models((#[trigger] base.pages@[k]).commands@) == start.pages[k]
                    + overlay@.pages[k],
            forall|k: int|
                p <= k < n ==> models((#[trigger] base.pages@[k]).commands@) == start.pages[k],
        decreases n - p,
    {
        proof {
            assert(models(base.pages@[p as int].commands@) == start.pages[p as int]);
            assert(overlay@.pages[p as int] == models(overlay.pages@[p as int].commands@));
        }
        let mut commands = copy_commands(&base.pages[p].commands);
        emit_all(&mut commands, copy_commands(&overlay.pages[p].commands));
        base.pages[p] = Page { commands };
        p += 1;
    }
    proof {
        assert(base@.pages =~= overlaid(start, overlay@).pages);
    }
}

/// Draws a background before each page.
pub fn merge_background_commands(base: &mut Document, background: &Document)
    ensures
        final(base)@ == underlaid(old(base)@, background@),
{
    if base.pages.len() != background.pages.len() {
        return;
    }
    let ghost start = base@;
    let n: usize = base.pages.len();
    let mut p: usize = 0;
    while p < n
        invariant
            p <= n == base.pages@.len(),
            n == background.pages@.len(),
            start.pages.len() == n,
            base.page_size == start.page_size,
            forall|k: int|
                0 <= k < p ==> models((#[trigger] base.pages@[k]).commands@)
                    == background@.pages[k] + start.pages[k],
            forall|k: int|
                p <= k < n ==> models((#[trigger] base.pages@[k]).commands@) == start.pages[k],
        decreases n - p,
    {
        proof {
            assert(models(base.pages@[p as int].commands@) == start.pages[p as int]);
            assert(background@.pages[p as int] == models(background.pages@[p as int].commands@));
        }
        let mut commands = copy_commands(&background.pages[p].commands);
        emit_all(&mut commands, copy_commands(&base.pages[p].commands));
        base.pages[p] = Page { commands };
        p += 1;
    }
    proof {
        assert(base@.pages =~= underlaid(start, background@).pages);
    }
}

/// An overlay and a background can be laid in either order.
pub proof fn layers_are_independent(base: DocumentView, over: DocumentView, under: DocumentView)
    ensures
        underlaid(overlaid(base, over), under) == overlaid(underlaid(base, under), over),
{
    let a = underlaid(overlaid(base, over), under);
    let b = overlaid(underlaid(base, under), over);
    assert(a.pages =~= b.pages) by {
        assert(a.pages.len() == b.pages.len());
        assert forall|p: int| 0 <= p < a.pages.len() implies a.pages[p] == b.pages[p] by {
            if base.pages.len() == over.pages.len() && base.pages.len() == under.pages.len() {
                assert(under.pages[p] + (base.pages[p] + over.pages[p]) =~= (under.pages[p]
                    + base.pages[p]) + over.pages[p]);
            }
        }
    }
}

// ---------------------------------------------------------------------------------------------
// Facts
// ---------------------------------------------------------------------------------------------
/// A rectangle that covers most of a page from its upper left corner on.
pub open spec fn covers_page(c: CommandView, page: Size) -> bool {
    match c {
        CommandView::DrawRect { x, y, width, height } => {
            &&& 100 * width.milli >= 85 * page.width.milli
            &&& 100 * height.milli >= 85 * page.height.milli
            &&& x.milli <= 20_000
            &&& y.milli <= 20_000
        },
        _ => false,
    }
}

/// Some page holds a rectangle that covers most of it.
pub open spec fn has_page_background(d: DocumentView) -> bool {
    exists|p: int, i: int|
        0 <= p < d.pages.len() && 0 <= i < d.pages[p].len() && covers_page(
            #[trigger] d.pages[p][i],
            d.page_size,
        )
}

/// Tells whether some page holds a rectangle that covers most of it.
pub fn has_full_page_background(doc: &Document) -> (r: bool)
    ensures
        r == has_page_background(doc@),
{
    let min_w: i128 = 85 * (doc.page_size.width.milli as i128);
    let min_h: i128 = 85 * (doc.page_size.height.milli as i128);
    let mut p: usize = 0;
    while p < doc.pages.len()
        invariant
            p <= doc.pages@.len(),
            min_w == 85 * doc.page_size.width.milli,
            min_h == 85 * doc.page_size.height.milli,
            forall|q: int, i: int|
                0 <= q < p && 0 <= i < doc@.pages[q].len() ==> !covers_page(
                    #[trigger] doc@.pages[q][i],
                    doc.page_size,
                ),
        decreases doc.pages@.len() - p,
    {
        let page = &doc.pages[p];
        proof {
            assert(doc@.pages[p as int] == models(page.commands@));
        }
        let mut i: usize = 0;
        while i < page.commands.len()
            invariant
                i <= page.commands@.len(),
                p < doc.pages@.len(),
                *page == doc.pages@[p as int],
                min_w == 85 * doc.page_size.width.milli,
                min_h == 85 * doc.page_size.height.milli,
                doc@.pages[p as int] == models(page.commands@),
                forall|k: int|
                    0 <= k < i ==> !covers_page(
                        #[trigger] doc@.pages[p as int][k],
                        doc.page_size,
                    ),
            decreases page.commands@.len() - i,
        {
            proof {
                assert(doc@.pages[p as int][i as int] == page.commands@[i as int].model());
            }
            match &page.commands[i] {
                Command::DrawRect { x, y, width, height } => {
                    if 100 * (width.milli as i128) >= min_w && 100 * (height.milli as i128) >= min_h
                        && x.milli <= 20_000 && y.milli <= 20_000 {
                        proof {
                            assert(covers_page(doc@.pages[p as int][i as int], doc.page_size));
                        }
                        return true;
                    }
                },
                _ => {},
            }
            i += 1;
        }
        p += 1;
    }
    false
}

/// The commands of the first `n` pages.
pub open spec fn command_total(d: DocumentView, n: int) -> nat
    decreases n,
{
    if n <= 0 {
        0
    } else {
        command_total(d, n - 1) + d.pages[n - 1].len()
    }
}

proof fn command_total_grows(d: DocumentView, a: int, b: int)
    requires
        0 <= a <= b <= d.pages.len(),
    ensures
        command_total(d, a) <= command_total(d, b),
    decreases b,
{
    if a < b {
        command_total_grows(d, a, b - 1);
    }
}

/// Counts the commands of a document.
pub fn count_commands(doc: &Document) -> (r: usize)
    requires
        command_total(doc@, doc.pages@.len() as int) <= usize::MAX,
    ensures
        r == command_total(doc@, doc.pages@.len() as int),
{
    let mut r: usize = 0;
    let mut p: usize = 0;
    while p < doc.pages.len()
        invariant
            p <= doc.pages@.len(),
            command_total(doc@, doc.pages@.len() as int) <= usize::MAX,
            r == command_total(doc@, p as int),
        decreases doc.pages@.len() - p,
    {
        proof {
            command_total_grows(doc@, p + 1, doc.pages@.len() as int);
            assert(doc@.pages[p as int].len() == doc.pages@[p as int].commands@.len());
        }
        r = r + doc.pages[p].commands.len();
        p += 1;
    }
    r
}

/// What a command does with a form.
#[derive(Clone, Copy, Debug, PartialEq, Eq, Structural)]
pub enum FormUse {
    Neither,
    Defines { svg: bool },
    Draws { svg: bool },
}

/// Whether a resource is an SVG drawing.
pub open spec fn is_svg(id: Seq<char>) -> bool {
    id.len() >= 4 && id.take(4) == "svg:"@
}

/// What a command does with a form.
pub open spec fn form_use(c: CommandView) -> FormUse {
    match c {
        CommandView::DefineForm { resource_id, width, height, commands } => FormUse::Defines {
            svg: is_svg(resource_id),
        },
        CommandView::DefineIsolatedForm { resource_id, width, height, commands } => {
            FormUse::Defines { svg: is_svg(resource_id) }
        },
        CommandView::DrawForm { x, y, width, height, resource_id } => FormUse::Draws {
            svg: is_svg(resource_id),
        },
        CommandView::DrawFilteredForm { resource_id, filter } => FormUse::Draws {
            svg: is_svg(resource_id),
        },
        _ => FormUse::Neither,
    }
}

/// Definitions, drawings, SVG definitions and SVG drawings of forms.
pub struct FormCounts {
    pub defs: nat,
    pub draws: nat,
    pub svg_defs: nat,
    pub svg_draws: nat,
}

/// The counts with one more command.
pub open spec fn count_use(t: FormCounts, u: FormUse) -> FormCounts {
    match u {
        FormUse::Neither => t,
        FormUse::Defines { svg } => FormCounts {
            defs: t.defs + 1,
            draws: t.draws,
            svg_defs: t.svg_defs + (if svg {
                1nat
            } else {
                0nat
            }),
            svg_draws: t.svg_draws,
        },
        FormUse::Draws { svg } => FormCounts {
            defs: t.defs,
            draws: t.draws + 1,
            svg_defs: t.svg_defs,
            svg_draws: t.svg_draws + (if svg {
                1nat
            } else {
                0nat
            }),
        },
    }
}

/// The counts over a page, added to those before it.
pub open spec fn form_counts(t: FormCounts, cs: Seq<CommandView>) -> FormCounts
    decreases cs.len(),
{
    if cs.len() == 0 {
        t
    } else {
        count_use(form_counts(t, cs.drop_last()), form_use(cs.last()))
    }
}

/// The counts over the first `n` pages.
pub open spec fn form_totals(d: DocumentView, n: int) -> FormCounts
    decreases n,
{
    if n <= 0 {
        FormCounts { defs: 0, draws: 0, svg_defs: 0, svg_draws: 0 }
    } else {
        form_counts(form_totals(d, n - 1), d.pages[n - 1])
    }
}

fn svg_name(id: &str) -> (r: bool)
    ensures
        r == is_svg(id@),
{
    let chars = chars_of(id);
    if chars.len() < 4 {
        return false;
    }
    let head = crate::text::text_of(&crate::text::slice_chars(&chars, 0, 4));
    proof {
        assert(id@.subrange(0, 4) =~= id@.take(4));
    }
    same(&head, "svg:")
}

fn form_use_of(c: &Command) -> (r: FormUse)
    ensures
        r == form_use(c.model()),
{
    match c {
        Command::DefineForm { resource_id, width: _, height: _, commands: _ } => FormUse::Defines {
            svg: svg_name(resource_id),
        },
        Command::DefineIsolatedForm { resource_id, width: _, height: _, commands: _ } => {
            FormUse::Defines { svg: svg_name(resource_id) }
        },
        Command::DrawForm { x: _, y: _, width: _, height: _, resource_id } => FormUse::Draws {
            svg: svg_name(resource_id),
        },
        Command::DrawFilteredForm { resource_id, filter: _ } => FormUse::Draws {
            svg: svg_name(resource_id),
        },
        _ => FormUse::Neither,
    }
}

/// Counts how a document uses forms: definitions, drawings, SVG definitions, SVG drawings.
pub fn count_form_commands(doc: &Document) -> (r: (usize, usize, usize, usize))
    requires
        command_total(doc@, doc.pages@.len() as int) <= usize::MAX,
    ensures
        ({
            let t = form_totals(doc@, doc.pages@.len() as int);
            r.0 == t.defs && r.1 == t.draws && r.2 == t.svg_defs && r.3 == t.svg_draws
        }),
{
    let mut defs: usize = 0;
    let mut draws: usize = 0;
    let mut svg_defs: usize = 0;
    let mut svg_draws: usize = 0;
    let mut p: usize = 0;
    while p < doc.pages.len()
        invariant
            p <= doc.pages@.len(),
            command_total(doc@, doc.pages@.len() as int) <= usize::MAX,
            (FormCounts {
                defs: defs as nat,
                draws: draws as nat,
                svg_defs: svg_defs as nat,
                svg_draws: svg_draws as nat,
            }) == form_totals(doc@, p as int),
            defs <= command_total(doc@, p as int),
            draws <= command_total(doc@, p as int),
            svg_defs <= command_total(doc@, p as int),
            svg_draws <= command_total(doc@, p as int),
        decreases doc.pages@.len() - p,
    {
        let page = &doc.pages[p];
        let ghost cs = models(page.commands@);
        let ghost start = form_totals(doc@, p as int);
        proof {
            assert(doc@.pages[p as int] == cs);
            command_total_grows(doc@, p + 1, doc.pages@.len() as int);
            assert(cs.take(0) =~= Seq::empty());
        }
        let mut i: usize = 0;
        while i < page.commands.len()
            invariant
                i <= page.commands@.len(),
                cs == models(page.commands@),
                command_total(doc@, p as int) + cs.len() <= usize::MAX,
                (FormCounts {
                    defs: defs as nat,
                    draws: draws as nat,
                    svg_defs: svg_defs as nat,
                    svg_draws: svg_draws as nat,
                }) == form_counts(start, cs.take(i as int)),
                defs <= command_total(doc@, p as int) + i,
                draws <= command_total(doc@, p as int) + i,
                svg_defs <= command_total(doc@, p as int) + i,
                svg_draws <= command_total(doc@, p as int) + i,
            decreases page.commands@.len() - i,
        {
            proof {
                assert(cs.take(i + 1).drop_last() =~= cs.take(i as int));
                assert(cs.take(i + 1).last() == page.commands@[i as int].model());
            }
            match form_use_of(&page.commands[i]) {
                FormUse::Neither => {},
                FormUse::Defines { svg } => {
                    defs = defs + 1;
                    if svg {
                        svg_defs = svg_defs + 1;
                    }
                },
                FormUse::Draws { svg } => {
                    draws = draws + 1;
                    if svg {
                        svg_draws = svg_draws + 1;
                    }
                },
            }
            i += 1;
        }
        proof {
            assert(cs.take(cs.len() as int) =~= cs);
        }
        p += 1;
    }
    (defs, draws, svg_defs, svg_draws)
}

// ---------------------------------------------------------------------------------------------
// Targets
// ---------------------------------------------------------------------------------------------
/// The first page, counted from one, on which an element with this id is drawn, from page `p` on.
pub open spec fn first_page(d: DocumentView, id: Seq<char>, p: int) -> Option<int>
    decreases d.pages.len() - p,
{
    if p >= d.pages.len() {
        None
    } else if notes(d.pages[p], "fb.owner.id"@).contains(id) {
        Some(p + 1)
    } else {
        first_page(d, id, p + 1)
    }
}

/// Whether a list of targets names an id.
pub open spec fn names(targets: Seq<(String, usize)>, id: Seq<char>) -> bool {
    exists|k: int| 0 <= k < targets.len() && (#[trigger] targets[k]).0@ == id
}

/// The list names each id that is drawn, once, with the first page on which it is drawn.
pub open spec fn are_targets(d: DocumentView, targets: Seq<(String, usize)>) -> bool {
    &&& forall|k: int|
        0 <= k < targets.len() ==> {
            &&& (#[trigger] targets[k]).0@.len() > 0
            &&& first_page(d, targets[k].0@, 0) == Some(targets[k].1 as int)
        }
    &&& forall|id: Seq<char>|
        id.len() > 0 && (#[trigger] first_page(d, id, 0)) is Some ==> names(targets, id)
    &&& forall|j: int, k: int|
        0 <= j < k < targets.len() ==> (#[trigger] targets[j]).0@ != (#[trigger] targets[k]).0@
}

fn named(targets: &Vec<(String, usize)>, id: &str) -> (r: bool)
    ensures
        r == names(targets@, id@),
{
    let mut k: usize = 0;
    while k < targets.len()
        invariant
            k <= targets@.len(),
            forall|m: int| 0 <= m < k ==> (#[trigger] targets@[m]).0@ != id@,
        decreases targets@.len() - k,
    {
        if same(&targets[k].0, id) {
            return true;
        }
        k += 1;
    }
    false
}

spec fn seen_before(d: DocumentView, id: Seq<char>, p: int) -> bool {
    exists|q: int| 0 <= q < p && notes(#[trigger] d.pages[q], "fb.owner.id"@).contains(id)
}

proof fn first_page_skips(d: DocumentView, id: Seq<char>, a: int, p: int)
    requires
        0 <= a <= p <= d.pages.len(),
        forall|q: int|
            a <= q < p ==> !notes(#[trigger] d.pages[q], "fb.owner.id"@).contains(id),
    ensures
        first_page(d, id, a) == first_page(d, id, p),
    decreases p - a,
{
    if a < p {
        assert(!notes(d.pages[a], "fb.owner.id"@).contains(id));
        first_page_skips(d, id, a + 1, p);
    }
}

proof fn first_page_seen(d: DocumentView, id: Seq<char>, a: int)
    requires
        0 <= a <= d.pages.len(),
    ensures
        first_page(d, id, a) is Some ==> exists|q: int|
            a <= q < d.pages.len() && notes(#[trigger] d.pages[q], "fb.owner.id"@).contains(id),
    decreases d.pages.len() - a,
{
    if a < d.pages.len() {
        if !notes(d.pages[a], "fb.owner.id"@).contains(id) {
            first_page_seen(d, id, a + 1);
        }
    }
}

/// The page on which each identified element is first drawn.
pub fn document_target_pages(doc: &Document) -> (targets: Vec<(String, usize)>)
    ensures
        are_targets(doc@, targets@),
{
    let mut targets: Vec<(String, usize)> = Vec::new();
    let mut p: usize = 0;
    while p < doc.pages.len()
        invariant
            p <= doc.pages@.len(),
            forall|k: int|
                0 <= k < targets@.len() ==> {
                    &&& (#[trigger] targets@[k]).0@.len() > 0
                    &&& first_page(doc@, targets@[k].0@, 0) == Some(targets@[k].1 as int)
                },
            forall|id: Seq<char>|
                id.len() > 0 && #[trigger] seen_before(doc@, id, p as int) ==> names(
                    targets@,
                    id,
                ),
            forall|k: int|
                0 <= k < targets@.len() ==> seen_before(
                    doc@,
                    (#[trigger] targets@[k]).0@,
                    p as int,
                ),
            forall|j: int, k: int|
                0 <= j < k < targets@.len() ==> (#[trigger] targets@[j]).0@ != (
                #[trigger] targets@[k]).0@,
        decreases doc.pages@.len() - p,
    {
        let found = notes_of(&doc.pages[p].commands, "fb.owner.id");
        let ghost here = notes(doc@.pages[p as int], "fb.owner.id"@);
        let page_number: usize = p + 1;
        let mut i: usize = 0;
        proof {
            assert(doc@.pages[p as int] == models(doc.pages@[p as int].commands@));
            assert(texts(found@) == here);
        }
        while i < found.len()
            invariant
                i <= found@.len(),
                p < doc.pages@.len(),
                page_number == p + 1,
                texts(found@) == here,
                here == notes(doc@.pages[p as int], "fb.owner.id"@),
                forall|k: int|
                    0 <= k < targets@.len() ==> {
                        &&& (#[trigger] targets@[k]).0@.len() > 0
                        &&& first_page(doc@, targets@[k].0@, 0) == Some(targets@[k].1 as int)
                    },
                forall|id: Seq<char>|
                    id.len() > 0 && #[trigger] seen_before(doc@, id, p as int) ==> names(
                        targets@,
                        id,
                    ),
                forall|k: int|
                    0 <= k < targets@.len() ==> seen_before(
                        doc@,
                        (#[trigger] targets@[k]).0@,
                        p + 1,
                    ),
                forall|k: int|
                    0 <= k < i && (#[trigger] found@[k])@.len() > 0 ==> names(
                        targets@,
                        found@[k]@,
                    ),
                forall|j: int, k: int|
                    0 <= j < k < targets@.len() ==> (#[trigger] targets@[j]).0@ != (
                    #[trigger] targets@[k]).0@,
            decreases found@.len() - i,
        {
            let id = &found[i];
            let ghost before = targets@;
            if !id.as_str().is_empty() && !named(&targets, id) {
                proof {
                    assert(here[i as int] == id@);
                    assert(here.contains(id@));
                    assert(!seen_before(doc@, id@, p as int));
                    assert forall|q: int| 0 <= q < p implies !notes(
                        #[trigger] doc@.pages[q],
                        "fb.owner.id"@,
                    ).contains(id@) by {}
                    first_page_skips(doc@, id@, 0, p as int);
                    assert(seen_before(doc@, id@, p + 1)) by {
                        assert(notes(doc@.pages[p as int], "fb.owner.id"@).contains(id@));
                    }
                }
                targets.push((id.clone(), page_number));
                proof {
                    assert(targets@[before.len() as int].0@ == id@);
                    assert forall|x: Seq<char>| #[trigger] names(before, x) implies names(
                        targets@,
                        x,
                    ) by {
                        let k = choose|k: int|
                            0 <= k < before.len() && (#[trigger] before[k]).0@ == x;
                        assert(targets@[k] == before[k]);
                    }
                }
            }
            i += 1;
        }
        proof {
            assert forall|id: Seq<char>|
                id.len() > 0 && #[trigger] seen_before(doc@, id, p + 1) implies names(
                targets@,
                id,
            ) by {
                if !seen_before(doc@, id, p as int) {
                    assert(here.contains(id));
                    let k = choose|k: int| 0 <= k < here.len() && here[k] == id;
                    assert(found@[k]@ == id);
                }
            }
        }
        p += 1;
    }
    proof {
        assert forall|id: Seq<char>|
            id.len() > 0 && (#[trigger] first_page(doc@, id, 0)) is Some implies names(
            targets@,
            id,
        ) by {
            first_page_seen(doc@, id, 0);
            assert(seen_before(doc@, id, doc.pages@.len() as int));
        }
    }
    targets
}

} // verus!

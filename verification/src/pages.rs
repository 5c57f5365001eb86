//! Page templates: which templates a style sheet asks for, and what frame each of them has.
use vstd::prelude::*;

use crate::command::{emit_all, models, Command, CommandView};
use crate::geometry::{pt, Color, Margins, Pt, Real, Rect, Size};
use crate::margins::{
    content_area, margins_fit, page_background_commands, page_fill, print_mark_commands,
    print_marks, PrintMarks,
};
use crate::text::{concat, count_text, decimal};

verus! {

broadcast use vstd::string::group_string_axioms;

// ---------------------------------------------------------------------------------------------
// Margins by page number
// ---------------------------------------------------------------------------------------------
/// Margins of single pages, by page number.
pub struct MarginTable {
    pub entries: Vec<(usize, Margins)>,
}

/// The margins of a page among the first `n` entries.
pub open spec fn margins_among(entries: Seq<(usize, Margins)>, page: int, n: int) -> Option<Margins>
    decreases n,
{
    if n <= 0 {
        None
    } else if entries[n - 1].0 == page {
        Some(entries[n - 1].1)
    } else {
        margins_among(entries, page, n - 1)
    }
}

/// The largest page number among the first `n` entries, nought where there is none.
pub open spec fn last_page_among(entries: Seq<(usize, Margins)>, n: int) -> int
    decreases n,
{
    if n <= 0 {
        0
    } else {
        let before = last_page_among(entries, n - 1);
        if entries[n - 1].0 > before {
            entries[n - 1].0 as int
        } else {
            before
        }
    }
}

impl MarginTable {
    /// The margins of a page.
    pub open spec fn margins_of(self, page: int) -> Option<Margins> {
        margins_among(self.entries@, page, self.entries@.len() as int)
    }

    /// The largest page number.
    pub open spec fn last_page(self) -> int {
        last_page_among(self.entries@, self.entries@.len() as int)
    }

    /// A table without entries.
    pub fn new() -> (t: Self)
        ensures
            t.entries@.len() == 0,
    {
        MarginTable { entries: Vec::new() }
    }

    /// A copy of the table.
    pub fn copy(&self) -> (t: Self)
        ensures
            t.entries@ == self.entries@,
    {
        let mut entries: Vec<(usize, Margins)> = Vec::new();
        let mut i: usize = 0;
        while i < self.entries.len()
            invariant
                i <= self.entries@.len(),
                entries@ == self.entries@.take(i as int),
            decreases self.entries@.len() - i,
        {
            entries.push((self.entries[i].0, self.entries[i].1));
            proof {
                assert(entries@ =~= self.entries@.take(i + 1));
            }
            i += 1;
        }
        proof {
            assert(entries@ =~= self.entries@);
        }
        MarginTable { entries }
    }

    /// The margins of a page.
    pub fn get(&self, page: usize) -> (r: Option<Margins>)
        ensures
            r == self.margins_of(page as int),
    {
        let mut i: usize = self.entries.len();
        while i > 0
            invariant
                i <= self.entries@.len(),
                margins_among(self.entries@, page as int, i as int) == self.margins_of(page as int),
            decreases i,
        {
            i -= 1;
            if self.entries[i].0 == page {
                return Some(self.entries[i].1);
            }
        }
        None
    }

    /// Sets the margins of a page.
    pub fn set(&mut self, page: usize, margins: Margins)
        ensures
            final(self).margins_of(page as int) == Some(margins),
            forall|p: int|
                p != page ==> #[trigger] final(self).margins_of(p) == old(self).margins_of(p),
            final(self).last_page() == (if page > old(self).last_page() {
                page as int
            } else {
                old(self).last_page()
            }),
            final(self).entries@.len() > 0,
    {
        let ghost before = self.entries@;
        self.entries.push((page, margins));
        proof {
            let now = self.entries@;
            assert forall|p: int| p != page implies #[trigger] self.margins_of(p) == margins_among(
                before,
                p,
                before.len() as int,
            ) by {
                margins_prefix(before, now, p, before.len() as int);
            }
            last_page_prefix(before, now, before.len() as int);
        }
    }

    /// The largest page number.
    pub fn max_page(&self) -> (r: usize)
        ensures
            r == self.last_page(),
    {
        let mut r: usize = 0;
        let mut i: usize = 0;
        while i < self.entries.len()
            invariant
                i <= self.entries@.len(),
                r == last_page_among(self.entries@, i as int),
            decreases self.entries@.len() - i,
        {
            if self.entries[i].0 > r {
                r = self.entries[i].0;
            }
            i += 1;
        }
        r
    }
}

proof fn margins_prefix(a: Seq<(usize, Margins)>, b: Seq<(usize, Margins)>, page: int, n: int)
    requires
        0 <= n <= a.len() <= b.len(),
        forall|k: int| 0 <= k < a.len() ==> #[trigger] a[k] == b[k],
    ensures
        margins_among(a, page, n) == margins_among(b, page, n),
    decreases n,
{
    if n > 0 {
        margins_prefix(a, b, page, n - 1);
        assert(a[n - 1] == b[n - 1]);
    }
}

proof fn last_page_prefix(a: Seq<(usize, Margins)>, b: Seq<(usize, Margins)>, n: int)
    requires
        0 <= n <= a.len() <= b.len(),
        forall|k: int| 0 <= k < a.len() ==> #[trigger] a[k] == b[k],
    ensures
        last_page_among(a, n) == last_page_among(b, n),
    decreases n,
{
    if n > 0 {
        last_page_prefix(a, b, n - 1);
        assert(a[n - 1] == b[n - 1]);
    }
}

// ---------------------------------------------------------------------------------------------
// Page size and margins
// ---------------------------------------------------------------------------------------------
/// The margins that one page rule sets.
#[derive(Clone, Copy, Debug, PartialEq, Eq, Structural)]
pub struct MarginRule {
    pub margin_top: Option<Pt>,
    pub margin_right: Option<Pt>,
    pub margin_bottom: Option<Pt>,
    pub margin_left: Option<Pt>,
    pub margin_top_percent: Option<Real>,
    pub margin_right_percent: Option<Real>,
    pub margin_bottom_percent: Option<Real>,
    pub margin_left_percent: Option<Real>,
}

/// The margin rules for one family of pages.
#[derive(Clone, Copy, Debug, PartialEq, Eq, Structural)]
pub struct PageRules {
    pub base: MarginRule,
    pub first: MarginRule,
    pub left: MarginRule,
    pub right: MarginRule,
    pub blank: MarginRule,
}

/// A rule that sets no margin.
pub open spec fn no_margins() -> MarginRule {
    MarginRule {
        margin_top: None,
        margin_right: None,
        margin_bottom: None,
        margin_left: None,
        margin_top_percent: None,
        margin_right_percent: None,
        margin_bottom_percent: None,
        margin_left_percent: None,
    }
}

/// Rules that set no margin.
pub open spec fn no_page_margins() -> PageRules {
    PageRules {
        base: no_margins(),
        first: no_margins(),
        left: no_margins(),
        right: no_margins(),
        blank: no_margins(),
    }
}

/// What the style sheet gives way to: the size and margins that were set when the engine was
/// built, and whether they were set on purpose.
pub struct PageDefaults {
    pub page_size: Size,
    pub margins: Margins,
    pub page_margins: MarginTable,
    pub page_size_explicit: bool,
    pub margins_explicit: bool,
}

/// The page size in use: one that was set on purpose, else that of the style sheet.
pub open spec fn used_page_size(d: PageDefaults, css_size: Option<Size>) -> Size {
    match css_size {
        Some(s) => if d.page_size_explicit {
            d.page_size
        } else {
            s
        },
        None => d.page_size,
    }
}

/// The style sheet sets the margins.
pub open spec fn css_sets_margins(d: PageDefaults, css_margins: Option<Margins>) -> bool {
    css_margins is Some && !d.margins_explicit
}

/// The page size in use.
pub fn resolve_page_size(d: &PageDefaults, css_size: Option<Size>) -> (r: Size)
    ensures
        r == used_page_size(*d, css_size),
{
    match css_size {
        Some(s) => if d.page_size_explicit {
            d.page_size
        } else {
            s
        },
        None => d.page_size,
    }
}

/// The page size, the margins and the margins of single pages in use.
pub struct ResolvedPageContext {
    pub page_size: Size,
    pub base_margins: Margins,
    pub page_margins: MarginTable,
}

/// Works out the page size and margins in use. `css_margins` are the margins of the style sheet on
/// a page of the size in use. Margins of a style sheet replace those of all pages; margins that
/// were set on purpose strip those of every page rule.
pub fn resolve_css_page_context(
    d: PageDefaults,
    css_size: Option<Size>,
    css_margins: Option<Margins>,
    rules: &mut Vec<PageRules>,
) -> (r: ResolvedPageContext)
    ensures
        r.page_size == used_page_size(d, css_size),
        css_sets_margins(d, css_margins) ==> Some(r.base_margins) == css_margins
            && r.page_margins.entries@.len() == 0,
        !css_sets_margins(d, css_margins) ==> r.base_margins == d.margins && r.page_margins
            == d.page_margins,
        final(rules)@.len() == old(rules)@.len(),
        forall|i: int|
            0 <= i < old(rules)@.len() ==> (#[trigger] final(rules)@[i]) == (if d.margins_explicit {
                no_page_margins()
            } else {
                old(rules)@[i]
            }),
{
    let page_size = resolve_page_size(&d, css_size);
    if d.margins_explicit {
        strip_margins(rules);
    }
    match css_margins {
        Some(m) => if d.margins_explicit {
            ResolvedPageContext {
                page_size,
                base_margins: d.margins,
                page_margins: d.page_margins,
            }
        } else {
            ResolvedPageContext { page_size, base_margins: m, page_margins: MarginTable::new() }
        },
        None => ResolvedPageContext {
            page_size,
            base_margins: d.margins,
            page_margins: d.page_margins,
        },
    }
}

/// The size that style rules take the page to have: with rules for single pages it is that of the
/// first page, where the rules give it one.
pub fn resolver_viewport(
    c: &ResolvedPageContext,
    has_pseudo_rules: bool,
    first_page_size: Option<Size>,
) -> (r: Size)
    ensures
        r == (if c.page_margins.entries@.len() == 0 && has_pseudo_rules && first_page_size is Some {
            first_page_size->0
        } else {
            c.page_size
        }),
{
    if c.page_margins.entries.len() == 0 && has_pseudo_rules {
        match first_page_size {
            Some(s) => s,
            None => c.page_size,
        }
    } else {
        c.page_size
    }
}

fn strip_margins(rules: &mut Vec<PageRules>)
    ensures
        final(rules)@.len() == old(rules)@.len(),
        forall|i: int| 0 <= i < old(rules)@.len() ==> (#[trigger] final(rules)@[i]) == no_page_margins(),
{
    let none = MarginRule {
        margin_top: None,
        margin_right: None,
        margin_bottom: None,
        margin_left: None,
        margin_top_percent: None,
        margin_right_percent: None,
        margin_bottom_percent: None,
        margin_left_percent: None,
    };
    let n: usize = rules.len();
    let mut i: usize = 0;
    while i < n
        invariant
            i <= n == rules@.len(),
            none == no_margins(),
            forall|k: int| 0 <= k < i ==> (#[trigger] rules@[k]) == no_page_margins(),
        decreases n - i,
    {
        rules[i] = PageRules { base: none, first: none, left: none, right: none, blank: none };
        i += 1;
    }
}

// ---------------------------------------------------------------------------------------------
// Templates
// ---------------------------------------------------------------------------------------------
/// Which pages a template is for.
#[derive(Clone, Copy, Debug, PartialEq, Eq, Structural)]
pub enum PageSelector {
    Any,
    First,
    Left,
    Right,
    BlankLeft,
    BlankRight,
    NamedAny(u32),
    NamedFirst(u32),
    NamedLeft(u32),
    NamedRight(u32),
    NamedBlankLeft(u32),
    NamedBlankRight(u32),
}

/// A page rule of the style sheet. Named rules carry the place of their page name.
#[derive(Clone, Copy, Debug, PartialEq, Eq, Structural)]
pub enum PageLayer {
    Base,
    First,
    Left,
    Right,
    Blank,
    NamedBase(usize),
    NamedFirst(usize),
    NamedLeft(usize),
    NamedRight(usize),
    NamedBlank(usize),
}

/// A name for pages.
pub struct PageName {
    pub name: String,
    pub id: u32,
}

/// A template to be built.
pub enum TemplatePlan {
    /// A template of the style sheet: the page rules that apply, each over those before it.
    Css { name: String, selector: PageSelector, layers: Vec<PageLayer> },
    /// The only template: a bare frame.
    Plain { name: String, page_size: Size, frame: Rect },
    /// The template of one page number: a frame with the marks of the style sheet.
    Numbered { name: String, page_size: Size, frame: Rect },
}

/// A template to be built, as plain sequences.
#[verifier::ext_equal]
pub enum PlanView {
    Css { name: Seq<char>, selector: PageSelector, layers: Seq<PageLayer> },
    Plain { name: Seq<char>, page_size: Size, frame: Rect },
    Numbered { name: Seq<char>, page_size: Size, frame: Rect },
}

impl View for TemplatePlan {
    type V = PlanView;

    open spec fn view(&self) -> PlanView {
        match *self {
            TemplatePlan::Css { name, selector, layers } => PlanView::Css {
                name: name@,
                selector,
                layers: layers@,
            },
            TemplatePlan::Plain { name, page_size, frame } => PlanView::Plain {
                name: name@,
                page_size,
                frame,
            },
            TemplatePlan::Numbered { name, page_size, frame } => PlanView::Numbered {
                name: name@,
                page_size,
                frame,
            },
        }
    }
}

/// The plans of a list.
pub open spec fn plan_views(v: Seq<TemplatePlan>) -> Seq<PlanView> {
    Seq::new(v.len(), |i: int| v[i]@)
}

/// The templates of pages without a name.
pub open spec fn common_plans() -> Seq<PlanView> {
    seq![
        PlanView::Css {
            name: "First"@,
            selector: PageSelector::First,
            layers: seq![PageLayer::Base, PageLayer::Right, PageLayer::First],
        },
        PlanView::Css {
            name: "Left"@,
            selector: PageSelector::Left,
            layers: seq![PageLayer::Base, PageLayer::Left],
        },
        PlanView::Css {
            name: "Right"@,
            selector: PageSelector::Right,
            layers: seq![PageLayer::Base, PageLayer::Right],
        },
        PlanView::Css {
            name: "BlankLeft"@,
            selector: PageSelector::BlankLeft,
            layers: seq![PageLayer::Base, PageLayer::Left, PageLayer::Blank],
        },
        PlanView::Css {
            name: "BlankRight"@,
            selector: PageSelector::BlankRight,
            layers: seq![PageLayer::Base, PageLayer::Right, PageLayer::Blank],
        },
    ]
}

/// The templates of pages with a name, which is the one at place `i`. A rule for named pages lies
/// over all rules for pages without a name.
pub open spec fn named_plans(name: Seq<char>, id: u32, i: usize) -> Seq<PlanView> {
    let head = "Named:"@ + name;
    seq![
        PlanView::Css {
            name: head + ":First"@,
            selector: PageSelector::NamedFirst(id),
            layers: seq![
                PageLayer::Base,
                PageLayer::Right,
                PageLayer::NamedBase(i),
                PageLayer::NamedRight(i),
                PageLayer::NamedFirst(i),
            ],
        },
        PlanView::Css {
            name: head + ":Left"@,
            selector: PageSelector::NamedLeft(id),
            layers: seq![
                PageLayer::Base,
                PageLayer::Left,
                PageLayer::NamedBase(i),
                PageLayer::NamedLeft(i),
            ],
        },
        PlanView::Css {
            name: head + ":Right"@,
            selector: PageSelector::NamedRight(id),
            layers: seq![
                PageLayer::Base,
                PageLayer::Right,
                PageLayer::NamedBase(i),
                PageLayer::NamedRight(i),
            ],
        },
        PlanView::Css {
            name: head + ":BlankLeft"@,
            selector: PageSelector::NamedBlankLeft(id),
            layers: seq![
                PageLayer::Base,
                PageLayer::Left,
                PageLayer::Blank,
                PageLayer::NamedBase(i),
                PageLayer::NamedLeft(i),
                PageLayer::NamedBlank(i),
            ],
        },
        PlanView::Css {
            name: head + ":BlankRight"@,
            selector: PageSelector::NamedBlankRight(id),
            layers: seq![
                PageLayer::Base,
                PageLayer::Right,
                PageLayer::Blank,
                PageLayer::NamedBase(i),
                PageLayer::NamedRight(i),
                PageLayer::NamedBlank(i),
            ],
        },
        PlanView::Css {
            name: head,
            selector: PageSelector::NamedAny(id),
            layers: seq![PageLayer::Base, PageLayer::NamedBase(i)],
        },
    ]
}

/// The templates of the first `n` page names.
pub open spec fn all_named_plans(names: Seq<PageName>, n: int) -> Seq<PlanView>
    decreases n,
{
    if n <= 0 {
        Seq::empty()
    } else {
        all_named_plans(names, n - 1) + named_plans(
            names[n - 1].name@,
            names[n - 1].id,
            (n - 1) as usize,
        )
    }
}

/// The margins of a page number: those set for it, else those of all pages.
pub open spec fn numbered_margins(table: MarginTable, base: Margins, page: int) -> Margins {
    match table.margins_of(page) {
        Some(m) => m,
        None => base,
    }
}

/// The templates of the first `n` page numbers.
pub open spec fn numbered_plans(page: Size, base: Margins, table: MarginTable, n: int) -> Seq<
    PlanView,
>
    decreases n,
{
    if n <= 0 {
        Seq::empty()
    } else {
        numbered_plans(page, base, table, n - 1).push(
            PlanView::Numbered {
                name: "Page"@ + decimal(n as nat),
                page_size: page,
                frame: content_area(page, numbered_margins(table, base, n)),
            },
        )
    }
}

/// The templates that are to be built. Margins by page number come before the rules of the style
/// sheet; without either there is one bare template.
pub open spec fn template_plans(
    page: Size,
    base: Margins,
    table: MarginTable,
    has_pseudo_rules: bool,
    names: Seq<PageName>,
) -> Seq<PlanView> {
    if table.entries@.len() > 0 {
        numbered_plans(page, base, table, table.last_page())
    } else if has_pseudo_rules {
        (common_plans() + all_named_plans(names, names.len() as int)).push(
            PlanView::Css {
                name: "Page"@,
                selector: PageSelector::Any,
                layers: seq![PageLayer::Base],
            },
        )
    } else {
        seq![
            PlanView::Plain { name: "Page1"@, page_size: page, frame: content_area(page, base) },
        ]
    }
}

fn frame_of(page: Size, m: Margins) -> (r: Rect)
    ensures
        r == content_area(page, m),
{
    Rect {
        x: m.left,
        y: m.top,
        width: page.width.minus(m.left).minus(m.right).larger(Pt::zero()),
        height: page.height.minus(m.top).minus(m.bottom).larger(Pt::zero()),
    }
}

fn push_css(
    out: &mut Vec<TemplatePlan>,
    name: String,
    selector: PageSelector,
    layers: Vec<PageLayer>,
)
    ensures
        plan_views(final(out)@) == plan_views(old(out)@).push(
            PlanView::Css { name: name@, selector, layers: layers@ },
        ),
{
    let ghost before = plan_views(out@);
    let ghost view = PlanView::Css { name: name@, selector, layers: layers@ };
    out.push(TemplatePlan::Css { name, selector, layers });
    proof {
        assert(plan_views(out@) =~= before.push(view));
    }
}

fn layers_of(a: PageLayer, b: Option<PageLayer>, c: Option<PageLayer>) -> (v: Vec<PageLayer>)
    ensures
        v@ == seq![a] + (match b {
            Some(l) => seq![l],
            None => Seq::empty(),
        }) + (match c {
            Some(l) => seq![l],
            None => Seq::empty(),
        }),
{
    let mut v: Vec<PageLayer> = Vec::new();
    v.push(a);
    match b {
        Some(l) => {
            v.push(l);
        },
        None => {},
    }
    match c {
        Some(l) => {
            v.push(l);
        },
        None => {},
    }
    proof {
        assert(v@ =~= seq![a] + (match b {
            Some(l) => seq![l],
            None => Seq::empty(),
        }) + (match c {
            Some(l) => seq![l],
            None => Seq::empty(),
        }));
    }
    v
}

fn push_common(out: &mut Vec<TemplatePlan>)
    ensures
        plan_views(final(out)@) == plan_views(old(out)@) + common_plans(),
{
    let ghost before = plan_views(out@);
    let first = layers_of(PageLayer::Base, Some(PageLayer::Right), Some(PageLayer::First));
    let left = layers_of(PageLayer::Base, Some(PageLayer::Left), None);
    let right = layers_of(PageLayer::Base, Some(PageLayer::Right), None);
    let blank_left = layers_of(PageLayer::Base, Some(PageLayer::Left), Some(PageLayer::Blank));
    let blank_right = layers_of(PageLayer::Base, Some(PageLayer::Right), Some(PageLayer::Blank));
    proof {
        assert(first@ =~= seq![PageLayer::Base, PageLayer::Right, PageLayer::First]);
        assert(left@ =~= seq![PageLayer::Base, PageLayer::Left]);
        assert(right@ =~= seq![PageLayer::Base, PageLayer::Right]);
        assert(blank_left@ =~= seq![PageLayer::Base, PageLayer::Left, PageLayer::Blank]);
        assert(blank_right@ =~= seq![PageLayer::Base, PageLayer::Right, PageLayer::Blank]);
    }
    push_css(out, "First".to_owned(), PageSelector::First, first);
    push_css(out, "Left".to_owned(), PageSelector::Left, left);
    push_css(out, "Right".to_owned(), PageSelector::Right, right);
    push_css(out, "BlankLeft".to_owned(), PageSelector::BlankLeft, blank_left);
    push_css(out, "BlankRight".to_owned(), PageSelector::BlankRight, blank_right);
    proof {
        assert(plan_views(out@) =~= before + common_plans());
    }
}

fn push_named(out: &mut Vec<TemplatePlan>, name: &str, id: u32, i: usize)
    ensures
        plan_views(final(out)@) == plan_views(old(out)@) + named_plans(name@, id, i),
{
    let ghost before = plan_views(out@);
    let head = concat("Named:", name);
    let own = PageLayer::NamedBase(i);
    let mut first = layers_of(PageLayer::Base, Some(PageLayer::Right), Some(own));
    first.push(PageLayer::NamedRight(i));
    first.push(PageLayer::NamedFirst(i));
    let mut left = layers_of(PageLayer::Base, Some(PageLayer::Left), Some(own));
    left.push(PageLayer::NamedLeft(i));
    let mut right = layers_of(PageLayer::Base, Some(PageLayer::Right), Some(own));
    right.push(PageLayer::NamedRight(i));
    let mut blank_left = layers_of(PageLayer::Base, Some(PageLayer::Left), Some(PageLayer::Blank));
    blank_left.push(own);
    blank_left.push(PageLayer::NamedLeft(i));
    blank_left.push(PageLayer::NamedBlank(i));
    let mut blank_right = layers_of(PageLayer::Base, Some(PageLayer::Right), Some(PageLayer::Blank));
    blank_right.push(own);
    blank_right.push(PageLayer::NamedRight(i));
    blank_right.push(PageLayer::NamedBlank(i));
    let any = layers_of(PageLayer::Base, Some(own), None);
    proof {
        assert(first@ =~= seq![
            PageLayer::Base,
            PageLayer::Right,
            PageLayer::NamedBase(i),
            PageLayer::NamedRight(i),
            PageLayer::NamedFirst(i),
        ]);
        assert(left@ =~= seq![
            PageLayer::Base,
            PageLayer::Left,
            PageLayer::NamedBase(i),
            PageLayer::NamedLeft(i),
        ]);
        assert(right@ =~= seq![
            PageLayer::Base,
            PageLayer::Right,
            PageLayer::NamedBase(i),
            PageLayer::NamedRight(i),
        ]);
        assert(blank_left@ =~= seq![
            PageLayer::Base,
            PageLayer::Left,
            PageLayer::Blank,
            PageLayer::NamedBase(i),
            PageLayer::NamedLeft(i),
            PageLayer::NamedBlank(i),
        ]);
        assert(blank_right@ =~= seq![
            PageLayer::Base,
            PageLayer::Right,
            PageLayer::Blank,
            PageLayer::NamedBase(i),
            PageLayer::NamedRight(i),
            PageLayer::NamedBlank(i),
        ]);
        assert(any@ =~= seq![PageLayer::Base, PageLayer::NamedBase(i)]);
    }
    push_css(out, concat(&head, ":First"), PageSelector::NamedFirst(id), first);
    push_css(out, concat(&head, ":Left"), PageSelector::NamedLeft(id), left);
    push_css(out, concat(&head, ":Right"), PageSelector::NamedRight(id), right);
    push_css(out, concat(&head, ":BlankLeft"), PageSelector::NamedBlankLeft(id), blank_left);
    push_css(out, concat(&head, ":BlankRight"), PageSelector::NamedBlankRight(id), blank_right);
    push_css(out, head, PageSelector::NamedAny(id), any);
    proof {
        assert(plan_views(out@) =~= before + named_plans(name@, id, i));
    }
}

/// Plans the page templates.
pub fn build_page_templates(
    page_size: Size,
    base_margins: Margins,
    page_margins: &MarginTable,
    has_pseudo_rules: bool,
    names: &Vec<PageName>,
) -> (out: Vec<TemplatePlan>)
    ensures
        plan_views(out@) == template_plans(
            page_size,
            base_margins,
            *page_margins,
            has_pseudo_rules,
            names@,
        ),
{
    let mut out: Vec<TemplatePlan> = Vec::new();
    proof {
        assert(plan_views(out@) =~= Seq::empty());
    }
    if page_margins.entries.len() > 0 {
        let max_page: usize = page_margins.max_page();
        let mut n: usize = 0;
        while n < max_page
            invariant
                n <= max_page == page_margins.last_page(),
                plan_views(out@) == numbered_plans(
                    page_size,
                    base_margins,
                    *page_margins,
                    n as int,
                ),
            decreases max_page - n,
        {
            n += 1;
            let margins = match page_margins.get(n) {
                Some(m) => m,
                None => base_margins,
            };
            let ghost before = plan_views(out@);
            let plan = TemplatePlan::Numbered {
                name: concat("Page", &count_text(n)),
                page_size,
                frame: frame_of(page_size, margins),
            };
            let ghost view = plan@;
            out.push(plan);
            proof {
                assert(plan_views(out@) =~= before.push(view));
            }
        }
        return out;
    }
    if has_pseudo_rules {
        push_common(&mut out);
        proof {
            assert(plan_views(out@) =~= common_plans() + all_named_plans(names@, 0));
        }
        let mut i: usize = 0;
        while i < names.len()
            invariant
                i <= names@.len(),
                plan_views(out@) == common_plans() + all_named_plans(names@, i as int),
            decreases names@.len() - i,
        {
            push_named(&mut out, &names[i].name, names[i].id, i);
            proof {
                let more = named_plans(names@[i as int].name@, names@[i as int].id, i);
                assert(common_plans() + (all_named_plans(names@, i as int) + more) =~= (
                common_plans() + all_named_plans(names@, i as int)) + more);
            }
            i += 1;
        }
        let base = layers_of(PageLayer::Base, None, None);
        proof {
            assert(base@ =~= seq![PageLayer::Base]);
        }
        push_css(&mut out, "Page".to_owned(), PageSelector::Any, base);
        return out;
    }
    out.push(
        TemplatePlan::Plain {
            name: "Page1".to_owned(),
            page_size,
            frame: frame_of(page_size, base_margins),
        },
    );
    proof {
        assert(plan_views(out@) =~= template_plans(
            page_size,
            base_margins,
            *page_margins,
            has_pseudo_rules,
            names@,
        ));
    }
    out
}

/// The frame of a template of the style sheet, with the size and margins that its rules give.
pub struct CssPageFrame {
    pub page_size: Size,
    pub margins: Margins,
    pub frame: Rect,
}

/// The frame of a template: what its rules do not say it takes from all pages.
pub fn css_page_frame(
    page_size: Size,
    base_margins: Margins,
    size: Option<Size>,
    margins: Option<Margins>,
) -> (r: CssPageFrame)
    ensures
        r.page_size == (match size {
            Some(s) => s,
            None => page_size,
        }),
        r.margins == (match margins {
            Some(m) => m,
            None => base_margins,
        }),
        r.frame == content_area(r.page_size, r.margins),
{
    let used = match size {
        Some(s) => s,
        None => page_size,
    };
    let kept = match margins {
        Some(m) => m,
        None => base_margins,
    };
    CssPageFrame { page_size: used, margins: kept, frame: frame_of(used, kept) }
}

/// What the rules of a template say: its size and margins, its background and its marks. The extent
/// of the marks is how far the printed sheet reaches beyond the page.
pub struct TemplateSetup {
    pub size: Option<Size>,
    pub margins: Option<Margins>,
    pub background: Option<(Color, Real)>,
    pub marks: PrintMarks,
}

/// A template: its page size and frame, what it paints on each page before anything else, and what
/// the style sheet adds to it.
pub struct BuiltTemplate {
    pub name: String,
    pub page_size: Size,
    pub frame: Rect,
    /// How far the background reaches beyond the page.
    pub background_extent: Pt,
    /// Whether the marks of the style sheet are painted.
    pub draws_marks: bool,
    /// Whether the margin boxes of the style sheet are painted.
    pub draws_boxes: bool,
    /// Whether the sheet is as large as the style sheet says.
    pub has_presentation: bool,
    /// Whether the page counter is set as the style sheet says.
    pub sets_counter: bool,
    /// The background and the marks.
    pub paint: Vec<Command>,
}

/// The background of a template, where it has one.
pub open spec fn background_paint(page: Size, extent: Pt, background: Option<(Color, Real)>) -> Seq<
    CommandView,
> {
    match background {
        Some((color, alpha)) => page_fill(page, extent, color, alpha),
        None => Seq::empty(),
    }
}

/// A value that a rule sets, else another.
pub open spec fn set_or<T>(value: Option<T>, other: T) -> T {
    match value {
        Some(v) => v,
        None => other,
    }
}

/// The template of a plan. The only template has a background that ends at the page, and no marks; a
/// numbered one has the background and the marks of the style sheet; one of the style sheet has its
/// own size, and margin boxes besides.
pub open spec fn is_built(
    plan: PlanView,
    page: Size,
    base: Margins,
    setup: TemplateSetup,
    t: BuiltTemplate,
) -> bool {
    match plan {
        PlanView::Plain { name, page_size, frame } => {
            &&& t.name@ == name
            &&& t.page_size == page_size
            &&& t.frame == frame
            &&& t.background_extent == pt(0)
            &&& !t.draws_marks
            &&& !t.draws_boxes
            &&& !t.has_presentation
            &&& !t.sets_counter
            &&& models(t.paint@) == background_paint(page_size, pt(0), setup.background)
        },
        PlanView::Numbered { name, page_size, frame } => {
            &&& t.name@ == name
            &&& t.page_size == page_size
            &&& t.frame == frame
            &&& t.background_extent == setup.marks.extent
            &&& t.draws_marks
            &&& !t.draws_boxes
            &&& t.has_presentation
            &&& !t.sets_counter
            &&& models(t.paint@) == background_paint(
                page_size,
                setup.marks.extent,
                setup.background,
            ) + print_marks(page_size, setup.marks)
        },
        PlanView::Css { name, selector, layers } => {
            let size = set_or(setup.size, page);
            &&& t.name@ == name
            &&& t.page_size == size
            &&& t.frame == content_area(size, set_or(setup.margins, base))
            &&& t.background_extent == setup.marks.extent
            &&& t.draws_marks
            &&& t.draws_boxes
            &&& t.has_presentation
            &&& t.sets_counter
            &&& models(t.paint@) == background_paint(size, setup.marks.extent, setup.background)
                + print_marks(size, setup.marks)
        },
    }
}

fn background_of(page: Size, extent: Pt, background: Option<(Color, Real)>) -> (out: Vec<Command>)
    ensures
        models(out@) == background_paint(page, extent, background),
{
    match background {
        Some((color, alpha)) => page_background_commands(page, extent, color, alpha),
        None => {
            let out: Vec<Command> = Vec::new();
            proof {
                assert(models(out@) =~= Seq::empty());
            }
            out
        },
    }
}

/// Builds the template of a plan. `setup` is what the rules of the template say: for a template of
/// the style sheet its layers, else the rules for all pages.
pub fn build_template(
    plan: &TemplatePlan,
    page_size: Size,
    base_margins: Margins,
    setup: &TemplateSetup,
) -> (t: BuiltTemplate)
    ensures
        is_built(plan@, page_size, base_margins, *setup, t),
{
    let extent = setup.marks.extent;
    match plan {
        TemplatePlan::Plain { name, page_size: size, frame } => BuiltTemplate {
            name: name.clone(),
            page_size: *size,
            frame: *frame,
            background_extent: Pt::zero(),
            draws_marks: false,
            draws_boxes: false,
            has_presentation: false,
            sets_counter: false,
            paint: background_of(*size, Pt::zero(), setup.background),
        },
        TemplatePlan::Numbered { name, page_size: size, frame } => {
            let mut paint = background_of(*size, extent, setup.background);
            emit_all(&mut paint, print_mark_commands(*size, setup.marks));
            BuiltTemplate {
                name: name.clone(),
                page_size: *size,
                frame: *frame,
                background_extent: extent,
                draws_marks: true,
                draws_boxes: false,
                has_presentation: true,
                sets_counter: false,
                paint,
            }
        },
        TemplatePlan::Css { name, selector: _, layers: _ } => {
            let own = css_page_frame(page_size, base_margins, setup.size, setup.margins);
            let mut paint = background_of(own.page_size, extent, setup.background);
            emit_all(&mut paint, print_mark_commands(own.page_size, setup.marks));
            BuiltTemplate {
                name: name.clone(),
                page_size: own.page_size,
                frame: own.frame,
                background_extent: extent,
                draws_marks: true,
                draws_boxes: true,
                has_presentation: true,
                sets_counter: true,
                paint,
            }
        },
    }
}

/// Every template of margins by page number has the page size that was given, whatever the style
/// sheet says.
pub proof fn numbered_templates_have_the_page_size(
    page: Size,
    base: Margins,
    table: MarginTable,
    setup: TemplateSetup,
    n: int,
    k: int,
    t: BuiltTemplate,
)
    requires
        1 <= k <= n,
        is_built(numbered_plans(page, base, table, n)[k - 1], page, base, setup, t),
    ensures
        t.page_size == page,
        t.frame == content_area(page, numbered_margins(table, base, k)),
{
    numbered_plan_at(page, base, table, n, k);
}

/// There is always a template, as long as the page numbers start at one, and with rules for single
/// pages the last one takes any page.
pub proof fn some_template_is_planned(
    page: Size,
    base: Margins,
    table: MarginTable,
    has_pseudo_rules: bool,
    names: Seq<PageName>,
)
    requires
        table.entries@.len() > 0 ==> table.last_page() >= 1,
    ensures
        template_plans(page, base, table, has_pseudo_rules, names).len() > 0,
        table.entries@.len() == 0 && has_pseudo_rules ==> (template_plans(
            page,
            base,
            table,
            has_pseudo_rules,
            names,
        ).last() matches PlanView::Css { name, selector, layers } && selector == PageSelector::Any),
{
    if table.entries@.len() > 0 {
        numbered_count(page, base, table, table.last_page());
    }
}

/// Margins by page number give one template per page number, up to the largest.
pub proof fn numbered_count(page: Size, base: Margins, table: MarginTable, n: int)
    requires
        0 <= n,
    ensures
        numbered_plans(page, base, table, n).len() == n,
    decreases n,
{
    if n > 0 {
        numbered_count(page, base, table, n - 1);
    }
}

/// The place of the template of a page, where margins were set by page number: pages beyond the
/// last number repeat the last template.
pub fn numbered_template(count: usize, page_number: usize) -> (r: usize)
    requires
        count >= 1,
        page_number >= 1,
    ensures
        r == (if page_number <= count {
            page_number - 1
        } else {
            count - 1
        }),
{
    if page_number <= count {
        page_number - 1
    } else {
        count - 1
    }
}

/// The template of a page number stands in its place, with the given page size and the margins set
/// for that number.
pub proof fn numbered_plan_at(page: Size, base: Margins, table: MarginTable, n: int, k: int)
    requires
        1 <= k <= n,
    ensures
        numbered_plans(page, base, table, n).len() == n,
        numbered_plans(page, base, table, n)[k - 1] == (PlanView::Numbered {
            name: "Page"@ + decimal(k as nat),
            page_size: page,
            frame: content_area(page, numbered_margins(table, base, k)),
        }),
    decreases n,
{
    numbered_count(page, base, table, n - 1);
    if k < n {
        numbered_plan_at(page, base, table, n - 1, k);
    }
}

/// The selector takes left pages only.
pub open spec fn is_left_page(s: PageSelector) -> bool {
    s is Left || s is BlankLeft || s is NamedLeft || s is NamedBlankLeft
}

/// The selector takes right pages only. The first page is a right page.
pub open spec fn is_right_page(s: PageSelector) -> bool {
    s is First || s is Right || s is BlankRight || s is NamedFirst || s is NamedRight
        || s is NamedBlankRight
}

/// The selector takes empty pages only.
pub open spec fn is_blank_page(s: PageSelector) -> bool {
    s is BlankLeft || s is BlankRight || s is NamedBlankLeft || s is NamedBlankRight
}

/// The selector takes pages with this name.
pub open spec fn is_named_page(s: PageSelector, id: u32) -> bool {
    ||| s == PageSelector::NamedFirst(id)
    ||| s == PageSelector::NamedLeft(id)
    ||| s == PageSelector::NamedRight(id)
    ||| s == PageSelector::NamedBlankLeft(id)
    ||| s == PageSelector::NamedBlankRight(id)
    ||| s == PageSelector::NamedAny(id)
}

/// How special a rule is: a rule for a side is more so than one for all pages, one for first or
/// empty pages more than that, and one for named pages more than all others.
pub open spec fn specificity(l: PageLayer) -> int {
    match l {
        PageLayer::Base => 0,
        PageLayer::Left | PageLayer::Right => 1,
        PageLayer::First | PageLayer::Blank => 2,
        PageLayer::NamedBase(_) => 3,
        PageLayer::NamedLeft(_) | PageLayer::NamedRight(_) => 4,
        PageLayer::NamedFirst(_) | PageLayer::NamedBlank(_) => 5,
    }
}

/// The rules of a template are those that its pages fall under, the more special ones over the less
/// special ones.
pub open spec fn layers_suit(s: PageSelector, layers: Seq<PageLayer>) -> bool {
    &&& layers.len() > 0 && layers[0] == PageLayer::Base
    &&& forall|a: int, b: int|
        0 <= a < b < layers.len() ==> specificity(#[trigger] layers[a]) < specificity(
            #[trigger] layers[b],
        )
    &&& layers.contains(PageLayer::Left) <==> is_left_page(s)
    &&& layers.contains(PageLayer::Right) <==> is_right_page(s)
    &&& layers.contains(PageLayer::First) <==> s is First
    &&& layers.contains(PageLayer::Blank) <==> is_blank_page(s)
}

/// The rules for pages with the name at place `i` are among the layers, as far as the pages fall
/// under them.
pub open spec fn named_layers_suit(s: PageSelector, layers: Seq<PageLayer>, i: usize) -> bool {
    &&& layers.contains(PageLayer::NamedBase(i))
    &&& layers.contains(PageLayer::NamedLeft(i)) <==> is_left_page(s)
    &&& layers.contains(PageLayer::NamedRight(i)) <==> is_right_page(s)
    &&& layers.contains(PageLayer::NamedFirst(i)) <==> s is NamedFirst
    &&& layers.contains(PageLayer::NamedBlank(i)) <==> is_blank_page(s)
}

proof fn members_are_held(s: Seq<PageLayer>)
    ensures
        s.len() >= 1 ==> s.contains(s[0]),
        s.len() >= 2 ==> s.contains(s[1]),
        s.len() >= 3 ==> s.contains(s[2]),
        s.len() >= 4 ==> s.contains(s[3]),
        s.len() >= 5 ==> s.contains(s[4]),
        s.len() >= 6 ==> s.contains(s[5]),
{
}

/// Templates of pages without a name follow the rules for all pages, for their side and for first or
/// empty pages, in this order.
pub proof fn common_templates_take_their_rules(k: int)
    requires
        0 <= k < common_plans().len(),
    ensures
        common_plans()[k] matches PlanView::Css { name, selector, layers } && layers_suit(
            selector,
            layers,
        ),
{
    if let PlanView::Css { name, selector, layers } = common_plans()[k] {
        members_are_held(layers);
    }
}

/// Templates of named pages follow the rules that pages without a name would follow, and over them
/// those for their name.
pub proof fn named_templates_take_their_rules(name: Seq<char>, id: u32, i: usize, k: int)
    requires
        0 <= k < named_plans(name, id, i).len(),
    ensures
        named_plans(name, id, i)[k] matches PlanView::Css { name: full, selector, layers }
            && layers_suit(selector, layers) && named_layers_suit(selector, layers, i)
            && is_named_page(selector, id),
        named_plans(name, id, i).len() == 6,
        named_plans(name, id, i)[5] matches PlanView::Css { name: full, selector, layers }
            && selector == PageSelector::NamedAny(id),
{
    if let PlanView::Css { name: full, selector, layers } = named_plans(name, id, i)[k] {
        members_are_held(layers);
    }
}

/// Every page name has its templates, in the order of the names.
pub proof fn all_names_have_templates(names: Seq<PageName>, n: int, i: int, k: int)
    requires
        0 <= i < n <= names.len(),
        names.len() <= usize::MAX,
        0 <= k < 6,
    ensures
        all_named_plans(names, n).len() == 6 * n,
        all_named_plans(names, n)[6 * i + k] == named_plans(
            names[i].name@,
            names[i].id,
            i as usize,
        )[k],
    decreases n,
{
    named_count(names, n - 1);
    if i < n - 1 {
        all_names_have_templates(names, n - 1, i, k);
    }
}

proof fn named_count(names: Seq<PageName>, n: int)
    ensures
        n >= 0 ==> all_named_plans(names, n).len() == 6 * n,
    decreases n,
{
    if n > 0 {
        named_count(names, n - 1);
    }
}

/// A page number that was set last counts, and the largest page number is that of the table.
pub proof fn margins_are_those_set_last(entries: Seq<(usize, Margins)>, page: int, n: int)
    requires
        0 <= n <= entries.len(),
    ensures
        match margins_among(entries, page, n) {
            Some(m) => exists|i: int|
                0 <= i < n && (#[trigger] entries[i]) == (page as usize, m) && entries[i].0 == page
                    && forall|j: int| i < j < n ==> (#[trigger] entries[j]).0 != page,
            None => forall|j: int| 0 <= j < n ==> (#[trigger] entries[j]).0 != page,
        },
        forall|j: int| 0 <= j < n ==> (#[trigger] entries[j]).0 <= last_page_among(entries, n),
        last_page_among(entries, n) == 0 || exists|i: int|
            0 <= i < n && (#[trigger] entries[i]).0 == last_page_among(entries, n),
    decreases n,
{
    if n > 0 {
        margins_are_those_set_last(entries, page, n - 1);
        if entries[n - 1].0 == page {
            assert(entries[n - 1] == (page as usize, entries[n - 1].1));
        } else if margins_among(entries, page, n) is Some {
            let m = margins_among(entries, page, n)->0;
            let i = choose|i: int|
                0 <= i < n - 1 && (#[trigger] entries[i]) == (page as usize, m) && entries[i].0
                    == page && forall|j: int| i < j < n - 1 ==> (#[trigger] entries[j]).0 != page;
            assert(entries[i] == (page as usize, m));
        }
        assert(entries[n - 1].0 <= last_page_among(entries, n));
    }
}

/// The frame of a page lies inside its margins on all four sides.
pub proof fn frames_keep_their_margins(page: Size, m: Margins)
    requires
        margins_fit(page, m),
    ensures
        ({
            let r = content_area(page, m);
            &&& r.x == m.left
            &&& r.y == m.top
            &&& r.x.milli + r.width.milli == page.width.milli - m.right.milli
            &&& r.y.milli + r.height.milli == page.height.milli - m.bottom.milli
        }),
{
}

} // verus!

//! Computing the accessibility signals and their sums.
use vstd::prelude::*;

use crate::dom::{
    attributes, count_tag, ends_in_range, is_document, nested_in, subtrees_nest, weight,
    weight_covers_length, weight_grows, Attribute, HtmlDocument, HtmlNode, NodeKind,
};
use crate::signals::{
    a11y_lang_value_is_valid, adjacent_lists, child_kind, children, closed_uniform, event_handlers,
    has_word, id_is_known, is_control, is_custom_click, is_decorative, is_generic_text, is_heading,
    is_hidden_input, is_image, is_in_label, is_invalid_control, is_link, is_named_image,
    is_pointer_only, is_unlabeled_control, keyword_of, label_points_at, list_count, native_role,
    nonblank, one_if, open_run, open_tiny, redundant_states, refers_to_known, role_is_redundant,
    run_bounds, siblings, signal, tabindex, tally, tally_to, trimmed_value, truthy, uniform_lists,
    ChildKind, DlScan, Signal,
};
use crate::text::{
    a11y_normalize_text, blank, char_lower, chars_of, lowered, parse_i32, same, texts, trim_chars,
    trimmed, words, words_of,
};

verus! {

broadcast use vstd::string::group_string_axioms;

// ---------------------------------------------------------------------------------------------
// Single nodes
// ---------------------------------------------------------------------------------------------
fn unit(b: bool) -> (r: usize)
    ensures
        r == one_if(b),
{
    if b {
        1
    } else {
        0
    }
}

fn heading(n: &HtmlNode) -> (r: bool)
    ensures
        r == is_heading(*n),
{
    n.is_tag("h1") || n.is_tag("h2") || n.is_tag("h3") || n.is_tag("h4") || n.is_tag("h5")
        || n.is_tag("h6")
}

fn native_role_of(n: &HtmlNode) -> (r: Option<&'static str>)
    ensures
        match r {
            Some(role) => native_role(*n) == Some(role@),
            None => native_role(*n) is None,
        },
{
    if n.is_tag("nav") {
        Some("navigation")
    } else if n.is_tag("main") {
        Some("main")
    } else if n.is_tag("aside") {
        Some("complementary")
    } else if n.is_tag("form") {
        Some("form")
    } else if n.is_tag("table") {
        Some("table")
    } else if n.is_tag("ul") || n.is_tag("ol") {
        Some("list")
    } else if n.is_tag("li") {
        Some("listitem")
    } else if n.is_tag("button") {
        Some("button")
    } else if n.is_tag("img") {
        Some("img")
    } else if n.is_tag("a") && nonblank(n, "href") {
        Some("link")
    } else {
        None
    }
}

/// Tells whether a list of strings holds `s`.
pub(crate) fn list_holds(list: &Vec<String>, s: &str) -> (r: bool)
    ensures
        r == texts(list@).contains(s@),
{
    let mut k: usize = 0;
    while k < list.len()
        invariant
            k <= list@.len(),
            forall|m: int| 0 <= m < k ==> (#[trigger] list@[m])@ != s@,
        decreases list@.len() - k,
    {
        if same(&list[k], s) {
            proof {
                assert(texts(list@)[k as int] == s@);
            }
            return true;
        }
        k += 1;
    }
    proof {
        assert forall|m: int| 0 <= m < texts(list@).len() implies texts(list@)[m] != s@ by {
            assert(list@[m]@ != s@);
        }
    }
    false
}

fn redundant_role(n: &HtmlNode) -> (r: bool)
    ensures
        r == role_is_redundant(*n),
{
    match native_role_of(n) {
        Some(role) => {
            let stated = words_of(&keyword_of(n, "role"));
            list_holds(&stated, role)
        },
        None => false,
    }
}

fn redundant_state_count(n: &HtmlNode) -> (r: usize)
    ensures
        r == redundant_states(*n),
        r <= 5,
{
    let mut r: usize = 0;
    if n.has("disabled") && truthy(n, "aria-disabled") {
        r += 1;
    }
    if n.has("required") && truthy(n, "aria-required") {
        r += 1;
    }
    if n.has("readonly") && truthy(n, "aria-readonly") {
        r += 1;
    }
    let kind = keyword_of(n, "type");
    if n.is_tag("input") && (same(&kind, "checkbox") || same(&kind, "radio")) && n.has("checked")
        && truthy(n, "aria-checked") {
        r += 1;
    }
    if n.is_tag("option") && n.has("selected") && truthy(n, "aria-selected") {
        r += 1;
    }
    r
}

fn hidden_input(n: &HtmlNode) -> (r: bool)
    ensures
        r == is_hidden_input(*n),
{
    n.is_tag("input") && same(&keyword_of(n, "type"), "hidden")
}

fn custom_click(n: &HtmlNode) -> (r: bool)
    ensures
        r == is_custom_click(*n),
{
    let native = (n.is_tag("a") && nonblank(n, "href")) || n.is_tag("button") || n.is_tag("select")
        || n.is_tag("textarea") || n.is_tag("summary") || (n.is_tag("input") && !hidden_input(n));
    n.has("onclick") && !native
}

fn pointer_only(n: &HtmlNode) -> (r: bool)
    ensures
        r == is_pointer_only(*n),
{
    custom_click(n) && !n.has("onkeydown") && !n.has("onkeyup") && !n.has("onkeypress") && !n.has(
        "tabindex",
    )
}

pub(crate) fn image(n: &HtmlNode) -> (r: bool)
    ensures
        r == is_image(*n),
{
    n.is_tag("img") || n.is_tag("svg")
}

pub(crate) fn decorative(n: &HtmlNode) -> (r: bool)
    ensures
        r == is_decorative(*n),
{
    let role = keyword_of(n, "role");
    let alt_empty = match n.get("alt") {
        Some(v) => v.as_str().is_empty(),
        None => false,
    };
    proof {
        match crate::dom::attr(*n, "alt"@) {
            Some(v) => {
                assert(v.len() == 0 ==> v =~= Seq::empty());
            },
            None => {},
        }
    }
    truthy(n, "data-fb-a11y-decorative") || truthy(n, "aria-hidden") || same(&role, "presentation")
        || same(&role, "none") || alt_empty
}

pub(crate) fn named_image(n: &HtmlNode) -> (r: bool)
    ensures
        r == is_named_image(*n),
{
    nonblank(n, "aria-label") || has_word(n, "aria-labelledby") || nonblank(n, "alt")
}

fn link(n: &HtmlNode) -> (r: bool)
    ensures
        r == is_link(*n),
{
    n.is_tag("a") && nonblank(n, "href")
}

fn generic_text(s: &str) -> (r: bool)
    ensures
        r == is_generic_text(s@),
{
    same(s, "click here") || same(s, "here") || same(s, "read more") || same(s, "learn more")
        || same(s, "more") || same(s, "more...")
}

fn control(n: &HtmlNode) -> (r: bool)
    ensures
        r == is_control(*n),
{
    (n.is_tag("input") || n.is_tag("select") || n.is_tag("textarea")) && !hidden_input(n)
}

/// The trimmed value of an attribute, when it is not empty.
pub(crate) fn trimmed_value_of(n: &HtmlNode, name: &str) -> (r: Option<String>)
    ensures
        match r {
            Some(v) => trimmed_value(*n, name@) == Some(v@),
            None => trimmed_value(*n, name@) is None,
        },
{
    match n.get(name) {
        Some(v) => if blank(v) {
            None
        } else {
            Some(trimmed(v))
        },
        None => None,
    }
}

fn invalid_control(n: &HtmlNode) -> (r: bool)
    ensures
        r == is_invalid_control(*n),
{
    let state = keyword_of(n, "aria-invalid");
    control(n) && !state.as_str().is_empty() && !same(&state, "0") && !same(&state, "false") && !same(
        &state,
        "no",
    ) && !same(&state, "off")
}

/// The `tabindex` of a node: nothing when it is absent, else the integer if it is one.
fn tabindex_of(n: &HtmlNode) -> (r: Option<i32>)
    ensures
        match r {
            Some(v) => tabindex(*n) == Some(v as int),
            None => tabindex(*n) is None,
        },
{
    match n.get("tabindex") {
        Some(v) => parse_i32(&trim_chars(&chars_of(v))),
        None => None,
    }
}

fn event_handler_count(n: &HtmlNode) -> (r: usize)
    ensures
        r == event_handlers(attributes(*n)),
        r <= attributes(*n).len(),
{
    match &n.kind {
        NodeKind::Element { tag: _, attributes: list } => {
            let mut r: usize = 0;
            let mut k: usize = 0;
            while k < list.len()
                invariant
                    k <= list@.len(),
                    r == event_handlers(list@.take(k as int)),
                    r <= k,
                decreases list@.len() - k,
            {
                proof {
                    assert(list@.take(k + 1).drop_last() =~= list@.take(k as int));
                    assert(list@.take(k + 1).last() == list@[k as int]);
                }
                let name = chars_of(&list[k].name);
                if name.len() > 2 && char_lower(name[0]) == 'o' && char_lower(name[1]) == 'n' {
                    r += 1;
                }
                k += 1;
            }
            proof {
                assert(list@.take(list@.len() as int) =~= list@);
            }
            r
        },
        NodeKind::Text { content: _ } => 0,
        NodeKind::Comment => 0,
    }
}

// ---------------------------------------------------------------------------------------------
// Bounds
// ---------------------------------------------------------------------------------------------
/// The children of the nodes from `a` up to `b`, all together.
pub open spec fn kids_total(d: Seq<HtmlNode>, a: int, b: int) -> nat
    decreases b - a,
{
    if b <= a {
        0
    } else {
        kids_total(d, a, b - 1) + children(d, b - 1).len()
    }
}

proof fn kids_total_splits(d: Seq<HtmlNode>, a: int, b: int, c: int)
    requires
        a <= b <= c,
    ensures
        kids_total(d, a, c) == kids_total(d, a, b) + kids_total(d, b, c),
    decreases c - b,
{
    if b < c {
        kids_total_splits(d, a, b, c - 1);
    }
}

/// Among the nodes of a closed range, each is either a child of another or one of the siblings
/// that the range starts with.
pub proof fn each_node_has_one_parent(d: Seq<HtmlNode>, a: int, b: int)
    requires
        ends_in_range(d),
        subtrees_nest(d),
        0 <= a <= b <= d.len(),
        forall|j: int| a <= j < b ==> (#[trigger] d[j]).end <= b,
    ensures
        kids_total(d, a, b) + siblings(d, a, b).len() == b - a,
    decreases b - a,
{
    if a < b {
        let e = d[a].end as int;
        assert(a < e <= b);
        assert forall|j: int| a + 1 <= j < e implies (#[trigger] d[j]).end <= e by {
            assert(nested_in(d, a, j));
        }
        each_node_has_one_parent(d, a + 1, e);
        each_node_has_one_parent(d, e, b);
        kids_total_splits(d, a, a + 1, b);
        kids_total_splits(d, a + 1, e, b);
        assert(kids_total(d, a, a + 1) == kids_total(d, a, a) + children(d, a).len());
        assert(siblings(d, a, b) == seq![child_kind(d, a)] + siblings(d, e, b));
    }
}

proof fn children_counted(d: Seq<HtmlNode>, n: int)
    requires
        is_document(d),
        0 <= n <= d.len(),
    ensures
        kids_total(d, 0, n) <= d.len(),
{
    each_node_has_one_parent(d, 0, d.len() as int);
    kids_total_splits(d, 0, n, d.len() as int);
}

/// A sum over the first nodes stays within what the document can count.
proof fn tally_fits(d: Seq<HtmlNode>, s: Signal, n: int)
    requires
        is_document(d),
        0 <= n <= d.len(),
    ensures
        s is DlBlock || s is DlFragment || s is DlUniform ==> tally_to(d, s, n) <= kids_total(
            d,
            0,
            n,
        ),
        !(s is DlBlock || s is DlFragment || s is DlUniform) ==> tally_to(d, s, n) <= weight(d, n),
    decreases n,
{
    if n > 0 {
        tally_fits(d, s, n - 1);
        run_bounds(children(d, n - 1));
        handlers_within_attributes(attributes(d[n - 1]));
    }
}

proof fn handlers_within_attributes(attrs: Seq<Attribute>)
    ensures
        event_handlers(attrs) <= attrs.len(),
    decreases attrs.len(),
{
    if attrs.len() > 0 {
        handlers_within_attributes(attrs.drop_last());
    }
}

/// Every sum of a signal over a document fits a `usize`.
pub proof fn tally_is_countable(d: Seq<HtmlNode>, s: Signal, n: int)
    requires
        is_document(d),
        0 <= n <= d.len(),
    ensures
        tally_to(d, s, n) <= usize::MAX,
{
    tally_fits(d, s, n);
    children_counted(d, n);
    weight_grows(d, n, d.len() as int);
    weight_covers_length(d, d.len() as int);
}

// ---------------------------------------------------------------------------------------------
// Documents
// ---------------------------------------------------------------------------------------------
impl HtmlDocument {
    fn id_known(&self, id: &str) -> (r: bool)
        ensures
            r == id_is_known(self.nodes@, id@),
    {
        let mut j: usize = 0;
        while j < self.nodes.len()
            invariant
                j <= self.nodes@.len(),
                forall|m: int|
                    0 <= m < j ==> trimmed_value(#[trigger] self.nodes@[m], "id"@) != Some(id@),
            decreases self.nodes@.len() - j,
        {
            match trimmed_value_of(&self.nodes[j], "id") {
                Some(v) => {
                    if same(&v, id) {
                        return true;
                    }
                },
                None => {},
            }
            j += 1;
        }
        false
    }

    fn label_for(&self, id: &str) -> (r: bool)
        ensures
            r == label_points_at(self.nodes@, id@),
    {
        let mut j: usize = 0;
        while j < self.nodes.len()
            invariant
                j <= self.nodes@.len(),
                forall|m: int|
                    0 <= m < j ==> !(crate::dom::has_tag(#[trigger] self.nodes@[m], "label"@)
                        && trimmed_value(self.nodes@[m], "for"@) == Some(id@)),
            decreases self.nodes@.len() - j,
        {
            if self.nodes[j].is_tag("label") {
                match trimmed_value_of(&self.nodes[j], "for") {
                    Some(v) => {
                        if same(&v, id) {
                            return true;
                        }
                    },
                    None => {},
                }
            }
            j += 1;
        }
        false
    }

    fn in_label(&self, i: usize) -> (r: bool)
        requires
            i < self.nodes@.len(),
        ensures
            r == is_in_label(self.nodes@, i as int),
    {
        let mut j: usize = 0;
        while j < i
            invariant
                j <= i < self.nodes@.len(),
                forall|m: int|
                    0 <= m < j ==> !(i < (#[trigger] self.nodes@[m]).end && crate::dom::has_tag(
                        self.nodes@[m],
                        "label"@,
                    )),
            decreases i - j,
        {
            if i < self.nodes[j].end && self.nodes[j].is_tag("label") {
                return true;
            }
            j += 1;
        }
        false
    }

    fn unlabeled_control(&self, i: usize) -> (r: bool)
        requires
            i < self.nodes@.len(),
        ensures
            r == is_unlabeled_control(self.nodes@, i as int),
    {
        let n = &self.nodes[i];
        if !control(n) || nonblank(n, "aria-label") || has_word(n, "aria-labelledby")
            || self.in_label(i) {
            return false;
        }
        match trimmed_value_of(n, "id") {
            Some(id) => !self.label_for(&id),
            None => true,
        }
    }

    fn refers(&self, n: &HtmlNode, name: &str) -> (r: bool)
        ensures
            r == refers_to_known(self.nodes@, *n, name@),
    {
        match n.get(name) {
            Some(v) => {
                let list = words_of(v);
                let mut k: usize = 0;
                while k < list.len()
                    invariant
                        k <= list@.len(),
                        texts(list@) == words(v@),
                        crate::dom::attr(*n, name@) == Some(v@),
                        forall|m: int|
                            0 <= m < k ==> !id_is_known(self.nodes@, #[trigger] words(v@)[m]),
                    decreases list@.len() - k,
                {
                    proof {
                        assert(texts(list@)[k as int] == list@[k as int]@);
                        assert(words(v@).len() == list@.len());
                    }
                    if self.id_known(&list[k]) {
                        proof {
                            assert(words(v@).contains(list@[k as int]@));
                        }
                        return true;
                    }
                    k += 1;
                }
                proof {
                    assert(words(v@).len() == texts(list@).len());
                }
                false
            },
            None => false,
        }
    }

    /// The kind of node `j` as a child of its parent.
    fn child_kind(&self, j: usize) -> (r: ChildKind)
        requires
            is_document(self.nodes@),
            j < self.nodes@.len(),
        ensures
            r == child_kind(self.nodes@, j as int),
    {
        let end: usize = self.nodes[j].end;
        if !self.nodes[j].is_tag("dl") {
            ChildKind::Other
        } else if self.count_tag(j, end, "dt") <= 2 || self.count_tag(j, end, "dd") <= 2 {
            ChildKind::Tiny
        } else {
            ChildKind::Large
        }
    }

    /// The kinds of the children of node `i`.
    pub fn child_kinds(&self, i: usize) -> (out: Vec<ChildKind>)
        requires
            is_document(self.nodes@),
            i < self.nodes@.len(),
        ensures
            out@ == children(self.nodes@, i as int),
    {
        let end: usize = self.nodes[i].end;
        let mut out: Vec<ChildKind> = Vec::new();
        let mut j: usize = i + 1;
        proof {
            assert(out@ + children(self.nodes@, i as int) =~= children(self.nodes@, i as int));
        }
        while j < end
            invariant
                is_document(self.nodes@),
                i < j <= end <= self.nodes@.len(),
                i < self.nodes@.len(),
                end == self.nodes@[i as int].end,
                out@ + siblings(self.nodes@, j as int, end as int) == children(
                    self.nodes@,
                    i as int,
                ),
            decreases end - j,
        {
            let kind = self.child_kind(j);
            let next: usize = self.nodes[j].end;
            proof {
                assert(nested_in(self.nodes@, i as int, j as int));
                let rest = siblings(self.nodes@, next as int, end as int);
                assert(siblings(self.nodes@, j as int, end as int) == seq![kind] + rest);
                assert(out@ + (seq![kind] + rest) =~= out@.push(kind) + rest);
            }
            out.push(kind);
            j = next;
        }
        proof {
            assert(siblings(self.nodes@, j as int, end as int) =~= Seq::empty());
            assert(out@ + Seq::<ChildKind>::empty() =~= out@);
        }
        out
    }

    /// What node `i` adds to a signal.
    pub fn signal(&self, i: usize, s: Signal) -> (r: usize)
        requires
            is_document(self.nodes@),
            i < self.nodes@.len(),
        ensures
            r == signal(self.nodes@, i as int, s),
    {
        let n = &self.nodes[i];
        match s {
            Signal::Main => unit(n.is_tag("main")),
            Signal::Signature => unit(n.has("data-fb-a11y-signature-status")),
            Signal::EmptyHeading => unit(heading(n) && blank(&self.text_contents(i))),
            Signal::EmptyLabel => unit(n.is_tag("label") && blank(&self.text_contents(i))),
            Signal::EmptyAriaLabel => unit(n.has("aria-label") && !nonblank(n, "aria-label")),
            Signal::UnlabeledRegion => unit(
                same(&keyword_of(n, "role"), "region") && !nonblank(n, "aria-label") && !has_word(
                    n,
                    "aria-labelledby",
                ),
            ),
            Signal::Image => unit(image(n)),
            Signal::ImageMissingAlt => unit(
                image(n) && !decorative(n) && !named_image(n) && !nonblank(n, "title"),
            ),
            Signal::ImageTitleOnly => unit(
                image(n) && !decorative(n) && !named_image(n) && nonblank(n, "title"),
            ),
            Signal::ImageConflict => unit(image(n) && decorative(n) && named_image(n)),
            Signal::RedundantRole => unit(redundant_role(n)),
            Signal::RedundantState => redundant_state_count(n),
            Signal::Tabindex => unit(n.has("tabindex")),
            Signal::PositiveTabindex => match tabindex_of(n) {
                Some(v) => unit(v > 0),
                None => 0,
            },
            Signal::InvalidTabindex => unit(n.has("tabindex") && tabindex_of(n).is_none()),
            Signal::Link => unit(link(n)),
            Signal::UnnamedLink => {
                let text = lowered(&a11y_normalize_text(&self.text_contents(i)));
                unit(
                    link(n) && !nonblank(n, "aria-label") && !has_word(n, "aria-labelledby")
                        && blank(&text),
                )
            },
            Signal::GenericLink => {
                let text = lowered(&a11y_normalize_text(&self.text_contents(i)));
                unit(link(n) && !blank(&text) && generic_text(&text))
            },
            Signal::CustomClick => unit(custom_click(n)),
            Signal::PointerOnlyClick => unit(pointer_only(n)),
            Signal::Script => unit(n.is_tag("script")),
            Signal::EmbeddedActive => unit(
                n.is_tag("iframe") || n.is_tag("embed") || n.is_tag("object") || n.is_tag("frame"),
            ),
            Signal::AutoplayMedia => unit(
                (n.is_tag("audio") || n.is_tag("video")) && n.has("autoplay"),
            ),
            Signal::BlinkMarquee => unit(n.is_tag("blink") || n.is_tag("marquee")),
            Signal::EventHandler => event_handler_count(n),
            Signal::MetaRefresh => unit(
                n.is_tag("meta") && same(&keyword_of(n, "http-equiv"), "refresh"),
            ),
            Signal::PartLang => unit(!n.is_tag("html") && n.has("lang")),
            Signal::InvalidPartLang => match n.get("lang") {
                Some(v) => unit(!n.is_tag("html") && !a11y_lang_value_is_valid(v)),
                None => 0,
            },
            Signal::Control => unit(control(n)),
            Signal::UnlabeledControl => unit(self.unlabeled_control(i)),
            Signal::InvalidControl => unit(invalid_control(n)),
            Signal::UnidentifiedError => unit(
                invalid_control(n) && !self.refers(n, "aria-describedby") && !self.refers(
                    n,
                    "aria-errormessage",
                ),
            ),
            Signal::DlBlock => scan_lists(&self.child_kinds(i)).0,
            Signal::DlFragment => scan_lists(&self.child_kinds(i)).1,
            Signal::DlUniform => scan_lists(&self.child_kinds(i)).2,
        }
    }

    /// The sum of a signal over all nodes.
    pub fn tally(&self, s: Signal) -> (r: usize)
        requires
            is_document(self.nodes@),
        ensures
            r == tally(self.nodes@, s),
    {
        let mut r: usize = 0;
        let mut i: usize = 0;
        while i < self.nodes.len()
            invariant
                is_document(self.nodes@),
                i <= self.nodes@.len(),
                r == tally_to(self.nodes@, s, i as int),
            decreases self.nodes@.len() - i,
        {
            let here: usize = self.signal(i, s);
            proof {
                tally_is_countable(self.nodes@, s, i + 1);
            }
            r = r + here;
            i += 1;
        }
        r
    }
}

/// Walks the children of an element once: how many are description lists, how many of those stand
/// next to each other, and how many of these neighbourships lie in runs of tiny lists only.
pub fn scan_lists(kids: &Vec<ChildKind>) -> (r: (usize, usize, usize))
    ensures
        r.0 == list_count(kids@),
        r.1 == adjacent_lists(kids@),
        r.2 == uniform_lists(kids@),
{
    let mut scan = DlScan { blocks: 0, fragments: 0, uniform: 0, run: 0, tiny: 0 };
    let mut k: usize = 0;
    while k < kids.len()
        invariant
            k <= kids@.len(),
            scan.blocks == list_count(kids@.take(k as int)),
            scan.fragments + (if scan.run >= 2 {
                scan.run - 1
            } else {
                0
            }) == adjacent_lists(kids@.take(k as int)),
            scan.uniform == closed_uniform(kids@.take(k as int)),
            scan.run == open_run(kids@.take(k as int)),
            scan.tiny == open_tiny(kids@.take(k as int)),
        decreases kids@.len() - k,
    {
        let ghost before = kids@.take(k as int);
        let ghost now = kids@.take(k + 1);
        proof {
            assert(now.drop_last() =~= before);
            assert(now.last() == kids@[k as int]);
            assert(k > 0 ==> now[now.len() - 2] == before.last());
            run_bounds(before);
            run_bounds(now);
        }
        match kids[k] {
            ChildKind::Other => {
                if scan.run >= 2 {
                    scan.fragments = scan.fragments + (scan.run - 1);
                    if scan.tiny == scan.run {
                        scan.uniform = scan.uniform + (scan.run - 1);
                    }
                }
                scan.run = 0;
                scan.tiny = 0;
            },
            ChildKind::Tiny => {
                scan.blocks = scan.blocks + 1;
                scan.run = scan.run + 1;
                scan.tiny = scan.tiny + 1;
            },
            ChildKind::Large => {
                scan.blocks = scan.blocks + 1;
                scan.run = scan.run + 1;
            },
        }
        k += 1;
    }
    proof {
        assert(kids@.take(kids@.len() as int) =~= kids@);
        run_bounds(kids@);
    }
    if scan.run >= 2 {
        scan.fragments = scan.fragments + (scan.run - 1);
        if scan.tiny == scan.run {
            scan.uniform = scan.uniform + (scan.run - 1);
        }
    }
    (scan.blocks, scan.fragments, scan.uniform)
}

} // verus!

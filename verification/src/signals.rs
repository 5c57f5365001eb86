//! The signals that single nodes of a document give to the accessibility verifier.
//!
//! A signal is a number per node; a fact of the verifier is the sum of a signal over all nodes.
use vstd::prelude::*;

use crate::dom::{attr, attributes, count_tag, has_tag, text_contents, Attribute, HtmlNode};
use crate::text::{
    blank, char_is_alphanumeric, chars_of, is_alphanumeric, is_blank, lower, lower_char, lowered,
    normalize, parsed_int, same, texts, trim, trimmed, words, words_of,
};

verus! {

broadcast use vstd::string::group_string_axioms;

// ---------------------------------------------------------------------------------------------
// Attribute values
// ---------------------------------------------------------------------------------------------
/// The attribute is present and holds more than white space.
pub open spec fn value_nonblank(n: HtmlNode, name: Seq<char>) -> bool {
    match attr(n, name) {
        Some(v) => !is_blank(v),
        None => false,
    }
}

/// The attribute is present and holds at least one word.
pub open spec fn value_has_word(n: HtmlNode, name: Seq<char>) -> bool {
    match attr(n, name) {
        Some(v) => words(v).len() > 0,
        None => false,
    }
}

/// The trimmed lower-case value of an attribute, empty when the attribute is absent.
pub open spec fn keyword(n: HtmlNode, name: Seq<char>) -> Seq<char> {
    match attr(n, name) {
        Some(v) => lower(trim(v)),
        None => Seq::empty(),
    }
}

/// The words that switch a flag on.
pub open spec fn is_truthy(word: Seq<char>) -> bool {
    word == "1"@ || word == "true"@ || word == "yes"@ || word == "on"@
}

/// The attribute is present and says yes.
pub open spec fn value_truthy(n: HtmlNode, name: Seq<char>) -> bool {
    attr(n, name) is Some && is_truthy(keyword(n, name))
}

pub(crate) fn nonblank(n: &HtmlNode, name: &str) -> (r: bool)
    ensures
        r == value_nonblank(*n, name@),
{
    match n.get(name) {
        Some(v) => !blank(v),
        None => false,
    }
}

pub(crate) fn has_word(n: &HtmlNode, name: &str) -> (r: bool)
    ensures
        r == value_has_word(*n, name@),
{
    match n.get(name) {
        Some(v) => {
            let found = words_of(v);
            proof {
                assert(texts(found@).len() == found@.len());
            }
            found.len() > 0
        },
        None => false,
    }
}

pub(crate) fn keyword_of(n: &HtmlNode, name: &str) -> (r: String)
    ensures
        r@ == keyword(*n, name@),
{
    match n.get(name) {
        Some(v) => lowered(&trimmed(v)),
        None => String::new(),
    }
}

pub(crate) fn truthy(n: &HtmlNode, name: &str) -> (r: bool)
    ensures
        r == value_truthy(*n, name@),
{
    let word = keyword_of(n, name);
    n.has(name) && (same(&word, "1") || same(&word, "true") || same(&word, "yes") || same(
        &word,
        "on",
    ))
}

/// Whether a language tag is written with ASCII letters, digits and inner hyphens.
pub open spec fn lang_tag_valid(s: Seq<char>) -> bool {
    let t = trim(s);
    &&& t.len() > 0
    &&& t[0] != '-'
    &&& t.last() != '-'
    &&& forall|i: int| 0 <= i < t.len() ==> is_alphanumeric(#[trigger] t[i]) || t[i] == '-'
}

/// Tells whether a language value is well formed once trimmed.
pub fn a11y_lang_value_is_valid(lang: &str) -> (r: bool)
    ensures
        r == lang_tag_valid(lang@),
{
    let t = crate::text::trim_chars(&chars_of(lang));
    if t.len() == 0 || t[0] == '-' || t[t.len() - 1] == '-' {
        return false;
    }
    hyphenated(&t)
}

fn hyphenated(t: &[char]) -> (r: bool)
    ensures
        r == (forall|i: int| 0 <= i < t@.len() ==> is_alphanumeric(#[trigger] t@[i]) || t@[i] == '-'),
{
    let mut i: usize = 0;
    while i < t.len()
        invariant
            i <= t@.len(),
            forall|k: int| 0 <= k < i ==> is_alphanumeric(#[trigger] t@[k]) || t@[k] == '-',
        decreases t@.len() - i,
    {
        if !char_is_alphanumeric(t[i]) && t[i] != '-' {
            return false;
        }
        i += 1;
    }
    true
}

/// Whether a language value holds nothing but ASCII letters, digits and inner hyphens, with no
/// white space around it.
pub open spec fn lang_exact_valid(s: Seq<char>) -> bool {
    &&& s.len() > 0
    &&& s[0] != '-'
    &&& s.last() != '-'
    &&& forall|i: int| 0 <= i < s.len() ==> is_alphanumeric(#[trigger] s[i]) || s[i] == '-'
}

/// Tells whether a language value is well formed as it stands.
pub fn lang_is_valid(lang: &str) -> (r: bool)
    ensures
        r == lang_exact_valid(lang@),
{
    let t = chars_of(lang);
    if blank(lang) {
        proof {
            crate::text::blank_means_all_space(lang@);
            if lang@.len() > 0 {
                assert(crate::text::is_space(lang@[0]));
                assert(!is_alphanumeric(lang@[0]) && lang@[0] != '-');
            }
        }
        return false;
    }
    proof {
        crate::text::blank_means_all_space(lang@);
    }
    t[0] != '-' && t[t.len() - 1] != '-' && hyphenated(&t)
}

// ---------------------------------------------------------------------------------------------
// Elements
// ---------------------------------------------------------------------------------------------
/// A heading of any level.
pub open spec fn is_heading(n: HtmlNode) -> bool {
    has_tag(n, "h1"@) || has_tag(n, "h2"@) || has_tag(n, "h3"@) || has_tag(n, "h4"@) || has_tag(
        n,
        "h5"@,
    ) || has_tag(n, "h6"@)
}

/// The role that an element has without saying so.
pub open spec fn native_role(n: HtmlNode) -> Option<Seq<char>> {
    if has_tag(n, "nav"@) {
        Some("navigation"@)
    } else if has_tag(n, "main"@) {
        Some("main"@)
    } else if has_tag(n, "aside"@) {
        Some("complementary"@)
    } else if has_tag(n, "form"@) {
        Some("form"@)
    } else if has_tag(n, "table"@) {
        Some("table"@)
    } else if has_tag(n, "ul"@) || has_tag(n, "ol"@) {
        Some("list"@)
    } else if has_tag(n, "li"@) {
        Some("listitem"@)
    } else if has_tag(n, "button"@) {
        Some("button"@)
    } else if has_tag(n, "img"@) {
        Some("img"@)
    } else if has_tag(n, "a"@) && value_nonblank(n, "href"@) {
        Some("link"@)
    } else {
        None
    }
}

/// The element states its native role once more.
pub open spec fn role_is_redundant(n: HtmlNode) -> bool {
    match native_role(n) {
        Some(role) => words(keyword(n, "role"@)).contains(role),
        None => false,
    }
}

/// How many native states of the element are stated again in ARIA.
pub open spec fn redundant_states(n: HtmlNode) -> nat {
    let disabled: nat = if attr(n, "disabled"@) is Some && value_truthy(n, "aria-disabled"@) {
        1
    } else {
        0
    };
    let required: nat = if attr(n, "required"@) is Some && value_truthy(n, "aria-required"@) {
        1
    } else {
        0
    };
    let readonly: nat = if attr(n, "readonly"@) is Some && value_truthy(n, "aria-readonly"@) {
        1
    } else {
        0
    };
    let checked: nat = if has_tag(n, "input"@) && (keyword(n, "type"@) == "checkbox"@ || keyword(
        n,
        "type"@,
    ) == "radio"@) && attr(n, "checked"@) is Some && value_truthy(n, "aria-checked"@) {
        1
    } else {
        0
    };
    let selected: nat = if has_tag(n, "option"@) && attr(n, "selected"@) is Some && value_truthy(
        n,
        "aria-selected"@,
    ) {
        1
    } else {
        0
    };
    disabled + required + readonly + checked + selected
}

/// An `input` that is never shown.
pub open spec fn is_hidden_input(n: HtmlNode) -> bool {
    has_tag(n, "input"@) && keyword(n, "type"@) == "hidden"@
}

/// The keyboard reaches the element without further markup.
pub open spec fn is_keyboard_native(n: HtmlNode) -> bool {
    ||| has_tag(n, "a"@) && value_nonblank(n, "href"@)
    ||| has_tag(n, "button"@)
    ||| has_tag(n, "select"@)
    ||| has_tag(n, "textarea"@)
    ||| has_tag(n, "summary"@)
    ||| has_tag(n, "input"@) && !is_hidden_input(n)
}

/// A click handler on an element that is not interactive by itself.
pub open spec fn is_custom_click(n: HtmlNode) -> bool {
    attr(n, "onclick"@) is Some && !is_keyboard_native(n)
}

/// A custom click handler with no keyboard way to it.
pub open spec fn is_pointer_only(n: HtmlNode) -> bool {
    &&& is_custom_click(n)
    &&& attr(n, "onkeydown"@) is None
    &&& attr(n, "onkeyup"@) is None
    &&& attr(n, "onkeypress"@) is None
    &&& attr(n, "tabindex"@) is None
}

/// An image or drawing.
pub open spec fn is_image(n: HtmlNode) -> bool {
    has_tag(n, "img"@) || has_tag(n, "svg"@)
}

/// The image is marked as decoration.
pub open spec fn is_decorative(n: HtmlNode) -> bool {
    ||| value_truthy(n, "data-fb-a11y-decorative"@)
    ||| value_truthy(n, "aria-hidden"@)
    ||| keyword(n, "role"@) == "presentation"@
    ||| keyword(n, "role"@) == "none"@
    ||| attr(n, "alt"@) == Some(Seq::<char>::empty())
}

/// The image carries a text alternative.
pub open spec fn is_named_image(n: HtmlNode) -> bool {
    ||| value_nonblank(n, "aria-label"@)
    ||| value_has_word(n, "aria-labelledby"@)
    ||| value_nonblank(n, "alt"@)
}

/// A link with a target.
pub open spec fn is_link(n: HtmlNode) -> bool {
    has_tag(n, "a"@) && value_nonblank(n, "href"@)
}

/// The text of a node in lower case with single spaces.
pub open spec fn plain_text(d: Seq<HtmlNode>, i: int) -> Seq<char> {
    lower(normalize(text_contents(d, i)))
}

/// A link that names itself nowhere.
pub open spec fn is_unnamed_link(d: Seq<HtmlNode>, i: int) -> bool {
    &&& is_link(d[i])
    &&& !value_nonblank(d[i], "aria-label"@)
    &&& !value_has_word(d[i], "aria-labelledby"@)
    &&& is_blank(plain_text(d, i))
}

/// Link texts that say nothing about the target.
pub open spec fn is_generic_text(s: Seq<char>) -> bool {
    s == "click here"@ || s == "here"@ || s == "read more"@ || s == "learn more"@ || s == "more"@
        || s == "more..."@
}

/// A form control that a reader meets.
pub open spec fn is_control(n: HtmlNode) -> bool {
    (has_tag(n, "input"@) || has_tag(n, "select"@) || has_tag(n, "textarea"@)) && !is_hidden_input(
        n,
    )
}

/// The trimmed value of an attribute, when it is not empty.
pub open spec fn trimmed_value(n: HtmlNode, name: Seq<char>) -> Option<Seq<char>> {
    match attr(n, name) {
        Some(v) => if is_blank(v) {
            None
        } else {
            Some(trim(v))
        },
        None => None,
    }
}

/// Some element has this id.
pub open spec fn id_is_known(d: Seq<HtmlNode>, id: Seq<char>) -> bool {
    exists|j: int| 0 <= j < d.len() && trimmed_value(#[trigger] d[j], "id"@) == Some(id)
}

/// Some label points at this id.
pub open spec fn label_points_at(d: Seq<HtmlNode>, id: Seq<char>) -> bool {
    exists|j: int|
        0 <= j < d.len() && has_tag(#[trigger] d[j], "label"@) && trimmed_value(d[j], "for"@)
            == Some(id)
}

/// The node stands inside a label.
pub open spec fn is_in_label(d: Seq<HtmlNode>, i: int) -> bool {
    exists|j: int| 0 <= j < i && i < (#[trigger] d[j]).end && has_tag(d[j], "label"@)
}

/// A control without any label.
pub open spec fn is_unlabeled_control(d: Seq<HtmlNode>, i: int) -> bool {
    &&& is_control(d[i])
    &&& !value_nonblank(d[i], "aria-label"@)
    &&& !value_has_word(d[i], "aria-labelledby"@)
    &&& !is_in_label(d, i)
    &&& match trimmed_value(d[i], "id"@) {
        Some(id) => !label_points_at(d, id),
        None => true,
    }
}

/// A control in an invalid state.
pub open spec fn is_invalid_control(n: HtmlNode) -> bool {
    let state = keyword(n, "aria-invalid"@);
    &&& is_control(n)
    &&& state.len() > 0
    &&& state != "0"@
    &&& state != "false"@
    &&& state != "no"@
    &&& state != "off"@
}

/// One of the words of the attribute is the id of an element.
pub open spec fn refers_to_known(d: Seq<HtmlNode>, n: HtmlNode, name: Seq<char>) -> bool {
    match attr(n, name) {
        Some(v) => exists|w: Seq<char>| words(v).contains(w) && #[trigger] id_is_known(d, w),
        None => false,
    }
}

/// An invalid control whose error is described nowhere.
pub open spec fn is_unidentified_error(d: Seq<HtmlNode>, i: int) -> bool {
    &&& is_invalid_control(d[i])
    &&& !refers_to_known(d, d[i], "aria-describedby"@)
    &&& !refers_to_known(d, d[i], "aria-errormessage"@)
}

/// The `tabindex` of a node as an integer.
pub open spec fn tabindex(n: HtmlNode) -> Option<int> {
    match attr(n, "tabindex"@) {
        Some(v) => parsed_int(trim(v), i32::MIN as int, i32::MAX as int),
        None => None,
    }
}

/// An attribute that holds a script: its name starts with `on` and goes on.
pub open spec fn is_event_handler(a: Attribute) -> bool {
    a.name@.len() > 2 && lower_char(a.name@[0]) == 'o' && lower_char(a.name@[1]) == 'n'
}

/// How many of the attributes are event handlers.
pub open spec fn event_handlers(attrs: Seq<Attribute>) -> nat
    decreases attrs.len(),
{
    if attrs.len() == 0 {
        0
    } else {
        event_handlers(attrs.drop_last()) + (if is_event_handler(attrs.last()) {
            1nat
        } else {
            0nat
        })
    }
}

// ---------------------------------------------------------------------------------------------
// Description lists
// ---------------------------------------------------------------------------------------------
/// What a child of an element means to the description lists among its siblings.
#[derive(Clone, Copy, PartialEq, Eq, Structural)]
pub enum ChildKind {
    /// Not a description list.
    Other,
    /// A description list with at most two complete groups.
    Tiny,
    /// A larger description list.
    Large,
}

/// What the children seen so far say, and the run of lists that is still open.
#[derive(Clone, Copy, PartialEq, Eq, Structural)]
pub struct DlScan {
    pub blocks: usize,
    pub fragments: usize,
    pub uniform: usize,
    pub run: usize,
    pub tiny: usize,
}

/// The kind of node `j` as a child.
pub open spec fn child_kind(d: Seq<HtmlNode>, j: int) -> ChildKind {
    if !has_tag(d[j], "dl"@) {
        ChildKind::Other
    } else if count_tag(d, j, d[j].end as int, "dt"@) <= 2 || count_tag(
        d,
        j,
        d[j].end as int,
        "dd"@,
    ) <= 2 {
        ChildKind::Tiny
    } else {
        ChildKind::Large
    }
}

/// The kinds of the siblings that start at `j`, up to `end`.
pub open spec fn siblings(d: Seq<HtmlNode>, j: int, end: int) -> Seq<ChildKind>
    decreases end - j,
{
    if !(j < d[j].end <= end) {
        Seq::empty()
    } else {
        seq![child_kind(d, j)] + siblings(d, d[j].end as int, end)
    }
}

/// The kinds of the children of node `i`.
pub open spec fn children(d: Seq<HtmlNode>, i: int) -> Seq<ChildKind> {
    siblings(d, i + 1, d[i].end as int)
}

/// Whether a child is a description list.
pub open spec fn is_list(k: ChildKind) -> bool {
    k != ChildKind::Other
}

/// How many of the children are description lists.
pub open spec fn list_count(kids: Seq<ChildKind>) -> nat
    decreases kids.len(),
{
    if kids.len() == 0 {
        0
    } else {
        list_count(kids.drop_last()) + (if is_list(kids.last()) {
            1nat
        } else {
            0nat
        })
    }
}

/// How many neighbouring children are both description lists.
pub open spec fn adjacent_lists(kids: Seq<ChildKind>) -> nat
    decreases kids.len(),
{
    if kids.len() < 2 {
        0
    } else {
        adjacent_lists(kids.drop_last()) + (if is_list(kids.last()) && is_list(
            kids[kids.len() - 2],
        ) {
            1nat
        } else {
            0nat
        })
    }
}

/// The length of the run of description lists at the end of the children.
pub open spec fn open_run(kids: Seq<ChildKind>) -> nat
    decreases kids.len(),
{
    if kids.len() == 0 || !is_list(kids.last()) {
        0
    } else {
        open_run(kids.drop_last()) + 1
    }
}

/// How many lists of the run at the end are tiny.
pub open spec fn open_tiny(kids: Seq<ChildKind>) -> nat
    decreases kids.len(),
{
    if kids.len() == 0 || !is_list(kids.last()) {
        0
    } else {
        open_tiny(kids.drop_last()) + (if kids.last() == ChildKind::Tiny {
            1nat
        } else {
            0nat
        })
    }
}

/// What the run at the end adds when it closes: its neighbourships, if all its lists are tiny.
pub open spec fn closing_uniform(kids: Seq<ChildKind>) -> nat {
    if open_run(kids) >= 2 && open_tiny(kids) == open_run(kids) {
        (open_run(kids) - 1) as nat
    } else {
        0
    }
}

/// The neighbourships in closed runs of which every list is tiny.
pub open spec fn closed_uniform(kids: Seq<ChildKind>) -> nat
    decreases kids.len(),
{
    if kids.len() == 0 {
        0
    } else if is_list(kids.last()) {
        closed_uniform(kids.drop_last())
    } else {
        closed_uniform(kids.drop_last()) + closing_uniform(kids.drop_last())
    }
}

/// The neighbourships in all runs of which every list is tiny.
pub open spec fn uniform_lists(kids: Seq<ChildKind>) -> nat {
    closed_uniform(kids) + closing_uniform(kids)
}

pub proof fn run_bounds(kids: Seq<ChildKind>)
    ensures
        open_tiny(kids) <= open_run(kids) <= kids.len(),
        list_count(kids) <= kids.len(),
        adjacent_lists(kids) <= kids.len(),
        closed_uniform(kids) + open_run(kids) <= kids.len(),
        uniform_lists(kids) <= kids.len(),
    decreases kids.len(),
{
    if kids.len() > 0 {
        run_bounds(kids.drop_last());
    }
}

/// The lists that run into each other are never more than the lists, and the uniform ones never
/// more than those: a document without adjacent lists has no uniform ones.
pub proof fn uniform_lists_are_adjacent(kids: Seq<ChildKind>)
    ensures
        uniform_lists(kids) <= adjacent_lists(kids),
        adjacent_lists(kids) <= list_count(kids),
{
    uniform_within_adjacent(kids);
}

proof fn uniform_within_adjacent(kids: Seq<ChildKind>)
    ensures
        closed_uniform(kids) + (if open_run(kids) > 0 {
            open_run(kids) - 1
        } else {
            0
        }) <= adjacent_lists(kids),
        adjacent_lists(kids) + (if open_run(kids) > 0 {
            1int
        } else {
            0int
        }) <= list_count(kids),
    decreases kids.len(),
{
    if kids.len() > 0 {
        let before = kids.drop_last();
        uniform_within_adjacent(before);
        if kids.len() >= 2 {
            assert(before.last() == kids[kids.len() - 2]);
        } else {
            assert(before.len() == 0);
        }
    }
}

// ---------------------------------------------------------------------------------------------
// Signals
// ---------------------------------------------------------------------------------------------
/// The kinds of signal that a node can give.
#[derive(Clone, Copy, PartialEq, Eq, Structural)]
pub enum Signal {
    Main,
    Signature,
    EmptyHeading,
    EmptyLabel,
    EmptyAriaLabel,
    UnlabeledRegion,
    Image,
    ImageMissingAlt,
    ImageTitleOnly,
    ImageConflict,
    RedundantRole,
    RedundantState,
    Tabindex,
    PositiveTabindex,
    InvalidTabindex,
    Link,
    UnnamedLink,
    GenericLink,
    CustomClick,
    PointerOnlyClick,
    Script,
    EmbeddedActive,
    AutoplayMedia,
    BlinkMarquee,
    EventHandler,
    MetaRefresh,
    PartLang,
    InvalidPartLang,
    Control,
    UnlabeledControl,
    InvalidControl,
    UnidentifiedError,
    DlBlock,
    DlFragment,
    DlUniform,
}

/// One for true, none for false.
pub open spec fn one_if(b: bool) -> nat {
    if b {
        1
    } else {
        0
    }
}

/// What node `i` adds to a signal.
pub open spec fn signal(d: Seq<HtmlNode>, i: int, s: Signal) -> nat {
    let n = d[i];
    match s {
        Signal::Main => one_if(has_tag(n, "main"@)),
        Signal::Signature => one_if(attr(n, "data-fb-a11y-signature-status"@) is Some),
        Signal::EmptyHeading => one_if(is_heading(n) && is_blank(text_contents(d, i))),
        Signal::EmptyLabel => one_if(has_tag(n, "label"@) && is_blank(text_contents(d, i))),
        Signal::EmptyAriaLabel => one_if(
            attr(n, "aria-label"@) is Some && !value_nonblank(n, "aria-label"@),
        ),
        Signal::UnlabeledRegion => one_if(
            keyword(n, "role"@) == "region"@ && !value_nonblank(n, "aria-label"@)
                && !value_has_word(n, "aria-labelledby"@),
        ),
        Signal::Image => one_if(is_image(n)),
        Signal::ImageMissingAlt => one_if(
            is_image(n) && !is_decorative(n) && !is_named_image(n) && !value_nonblank(n, "title"@),
        ),
        Signal::ImageTitleOnly => one_if(
            is_image(n) && !is_decorative(n) && !is_named_image(n) && value_nonblank(n, "title"@),
        ),
        Signal::ImageConflict => one_if(is_image(n) && is_decorative(n) && is_named_image(n)),
        Signal::RedundantRole => one_if(role_is_redundant(n)),
        Signal::RedundantState => redundant_states(n),
        Signal::Tabindex => one_if(attr(n, "tabindex"@) is Some),
        Signal::PositiveTabindex => one_if(tabindex(n) is Some && tabindex(n)->0 > 0),
        Signal::InvalidTabindex => one_if(attr(n, "tabindex"@) is Some && tabindex(n) is None),
        Signal::Link => one_if(is_link(n)),
        Signal::UnnamedLink => one_if(is_unnamed_link(d, i)),
        Signal::GenericLink => one_if(
            is_link(n) && !is_blank(plain_text(d, i)) && is_generic_text(plain_text(d, i)),
        ),
        Signal::CustomClick => one_if(is_custom_click(n)),
        Signal::PointerOnlyClick => one_if(is_pointer_only(n)),
        Signal::Script => one_if(has_tag(n, "script"@)),
        Signal::EmbeddedActive => one_if(
            has_tag(n, "iframe"@) || has_tag(n, "embed"@) || has_tag(n, "object"@) || has_tag(
                n,
                "frame"@,
            ),
        ),
        Signal::AutoplayMedia => one_if(
            (has_tag(n, "audio"@) || has_tag(n, "video"@)) && attr(n, "autoplay"@) is Some,
        ),
        Signal::BlinkMarquee => one_if(has_tag(n, "blink"@) || has_tag(n, "marquee"@)),
        Signal::EventHandler => event_handlers(attributes(n)),
        Signal::MetaRefresh => one_if(
            has_tag(n, "meta"@) && keyword(n, "http-equiv"@) == "refresh"@,
        ),
        Signal::PartLang => one_if(!has_tag(n, "html"@) && attr(n, "lang"@) is Some),
        Signal::InvalidPartLang => one_if(
            !has_tag(n, "html"@) && attr(n, "lang"@) is Some && !lang_tag_valid(attr(n, "lang"@)->0),
        ),
        Signal::Control => one_if(is_control(n)),
        Signal::UnlabeledControl => one_if(is_unlabeled_control(d, i)),
        Signal::InvalidControl => one_if(is_invalid_control(n)),
        Signal::UnidentifiedError => one_if(is_unidentified_error(d, i)),
        Signal::DlBlock => list_count(children(d, i)),
        Signal::DlFragment => adjacent_lists(children(d, i)),
        Signal::DlUniform => uniform_lists(children(d, i)),
    }
}

/// The sum of a signal over the first `n` nodes.
pub open spec fn tally_to(d: Seq<HtmlNode>, s: Signal, n: int) -> nat
    decreases n,
{
    if n <= 0 {
        0
    } else {
        tally_to(d, s, n - 1) + signal(d, n - 1, s)
    }
}

/// The sum of a signal over all nodes.
pub open spec fn tally(d: Seq<HtmlNode>, s: Signal) -> nat {
    tally_to(d, s, d.len() as int)
}

} // verus!

//! What the facts of a document count.
//!
//! Each count is tied to the nodes that it is the number of.
use vstd::prelude::*;

use crate::dom::{
    attr, attributes, has_tag, is_document, nested_in, text_contents, Attribute, HtmlNode,
};
use crate::facts::{facts_of, A11yVerifierFacts};
use crate::signals::{
    adjacent_lists, child_kind, children, closed_uniform, closing_uniform, event_handlers,
    id_is_known, is_event_handler, is_generic_text, is_hidden_input, is_list, is_unlabeled_control,
    keyword, lang_tag_valid, native_role, open_run, open_tiny, refers_to_known, role_is_redundant,
    siblings, signal, tally, tally_to, trimmed_value, value_truthy, ChildKind, Signal,
};
use crate::text::{
    blank_means_all_space, is_alphanumeric, is_blank, is_space, lower, normalize, parsed_int, trim,
    words,
};

verus! {

broadcast use vstd::string::group_string_axioms;

// ---------------------------------------------------------------------------------------------
// What single nodes are
// ---------------------------------------------------------------------------------------------
/// The attribute is there and holds more than white space.
pub open spec fn holds_text(n: HtmlNode, name: Seq<char>) -> bool {
    attr(n, name) matches Some(v) && !is_blank(v)
}

/// The attribute is there and reads as the word, whatever its case and the space around it.
pub open spec fn reads(n: HtmlNode, name: Seq<char>, word: Seq<char>) -> bool {
    attr(n, name) matches Some(v) && lower(trim(v)) == word
}

/// The attribute is there and says yes.
pub open spec fn says_yes(n: HtmlNode, name: Seq<char>) -> bool {
    reads(n, name, "1"@) || reads(n, name, "true"@) || reads(n, name, "yes"@) || reads(n, name, "on"@)
}

/// The element has a name of its own, or points at one.
pub open spec fn names_itself(n: HtmlNode) -> bool {
    ||| holds_text(n, "aria-label"@)
    ||| attr(n, "aria-labelledby"@) matches Some(v) && words(v).len() > 0
}

/// The picture is marked as decoration.
pub open spec fn is_decoration(n: HtmlNode) -> bool {
    ||| says_yes(n, "data-fb-a11y-decorative"@)
    ||| says_yes(n, "aria-hidden"@)
    ||| reads(n, "role"@, "presentation"@)
    ||| reads(n, "role"@, "none"@)
    ||| attr(n, "alt"@) == Some(Seq::<char>::empty())
}

/// The picture can be read out.
pub open spec fn has_alternative(n: HtmlNode) -> bool {
    names_itself(n) || holds_text(n, "alt"@)
}

/// The element has the role without saying so.
pub open spec fn has_role_by_itself(n: HtmlNode, role: Seq<char>) -> bool {
    ||| has_tag(n, "nav"@) && role == "navigation"@
    ||| has_tag(n, "main"@) && role == "main"@
    ||| has_tag(n, "aside"@) && role == "complementary"@
    ||| has_tag(n, "form"@) && role == "form"@
    ||| has_tag(n, "table"@) && role == "table"@
    ||| has_tag(n, "ul"@) && role == "list"@
    ||| has_tag(n, "ol"@) && role == "list"@
    ||| has_tag(n, "li"@) && role == "listitem"@
    ||| has_tag(n, "button"@) && role == "button"@
    ||| has_tag(n, "img"@) && role == "img"@
    ||| has_tag(n, "a"@) && holds_text(n, "href"@) && role == "link"@
}

/// The role is among those that the element states.
pub open spec fn states_role(n: HtmlNode, role: Seq<char>) -> bool {
    attr(n, "role"@) matches Some(v) && words(lower(trim(v))).contains(role)
}

/// The keyboard reaches the element by itself.
pub open spec fn is_reached_by_keyboard(n: HtmlNode) -> bool {
    ||| has_tag(n, "a"@) && holds_text(n, "href"@)
    ||| has_tag(n, "button"@)
    ||| has_tag(n, "select"@)
    ||| has_tag(n, "textarea"@)
    ||| has_tag(n, "summary"@)
    ||| has_tag(n, "input"@) && !reads(n, "type"@, "hidden"@)
}

/// The text of a node in lower case, with single spaces.
pub open spec fn plain_words(d: Seq<HtmlNode>, i: int) -> Seq<char> {
    lower(normalize(text_contents(d, i)))
}

/// A language tag: letters, digits and hyphens, with a hyphen at neither end.
pub open spec fn is_lang_tag(t: Seq<char>) -> bool {
    &&& t.len() > 0
    &&& is_alphanumeric(t[0])
    &&& is_alphanumeric(t[t.len() - 1])
    &&& forall|k: int| 0 <= k < t.len() ==> #[trigger] t[k] == '-' || is_alphanumeric(t[k])
}

/// Node `j` is a label of node `i`: node `i` stands inside it, or has the id that it is for.
pub open spec fn is_label_of(d: Seq<HtmlNode>, j: int, i: int) -> bool {
    &&& has_tag(d[j], "label"@)
    &&& {
        ||| j < i < d[j].end
        ||| match (attr(d[j], "for"@), attr(d[i], "id"@)) {
            (Some(a), Some(b)) => !is_blank(b) && trim(a) == trim(b),
            _ => false,
        }
    }
}

/// One of the words of the attribute is the id of the other element.
pub open spec fn points_at(n: HtmlNode, name: Seq<char>, target: HtmlNode) -> bool {
    match (attr(n, name), attr(target, "id"@)) {
        (Some(v), Some(id)) => !is_blank(id) && words(v).contains(trim(id)),
        _ => false,
    }
}

/// A main part.
pub open spec fn is_main(n: HtmlNode) -> bool {
    has_tag(n, "main"@)
}

/// An element that says how it was signed.
pub open spec fn is_signature(n: HtmlNode) -> bool {
    attr(n, "data-fb-a11y-signature-status"@) is Some
}

/// A heading of one of the six levels without any text.
pub open spec fn is_empty_heading(d: Seq<HtmlNode>, i: int) -> bool {
    &&& (has_tag(d[i], "h1"@) || has_tag(d[i], "h2"@) || has_tag(d[i], "h3"@) || has_tag(d[i], "h4"@) || has_tag(d[i], "h5"@) || has_tag(d[i], "h6"@))
    &&& is_blank(text_contents(d, i))
}

/// A label without any text.
pub open spec fn is_empty_label(d: Seq<HtmlNode>, i: int) -> bool {
    has_tag(d[i], "label"@) && is_blank(text_contents(d, i))
}

/// An element that names itself with nothing.
pub open spec fn has_empty_aria_label(n: HtmlNode) -> bool {
    attr(n, "aria-label"@) matches Some(v) && is_blank(v)
}

/// A region without a name.
pub open spec fn is_unlabeled_region(n: HtmlNode) -> bool {
    reads(n, "role"@, "region"@) && !names_itself(n)
}

/// An image or a drawing.
pub open spec fn is_picture(n: HtmlNode) -> bool {
    has_tag(n, "img"@) || has_tag(n, "svg"@)
}

/// A picture that is no decoration and has neither a text alternative nor a title.
pub open spec fn is_textless_picture(n: HtmlNode) -> bool {
    is_picture(n) && !is_decoration(n) && !has_alternative(n) && !holds_text(n, "title"@)
}

/// A picture that is no decoration and has a title in place of a text alternative.
pub open spec fn is_titled_picture(n: HtmlNode) -> bool {
    is_picture(n) && !is_decoration(n) && !has_alternative(n) && holds_text(n, "title"@)
}

/// A picture that is decoration and has a text alternative all the same.
pub open spec fn is_contradictory_picture(n: HtmlNode) -> bool {
    is_picture(n) && is_decoration(n) && has_alternative(n)
}

/// An element that states the role it has by itself.
pub open spec fn repeats_role(n: HtmlNode) -> bool {
    exists|role: Seq<char>| has_role_by_itself(n, role) && #[trigger] states_role(n, role)
}

/// An element with a place in the focus order.
pub open spec fn has_tabindex(n: HtmlNode) -> bool {
    attr(n, "tabindex"@) is Some
}

/// An element with a focus place above nought.
pub open spec fn has_positive_tabindex(n: HtmlNode) -> bool {
    &&& attr(n, "tabindex"@) matches Some(v)
    &&& (parsed_int(trim(v), -0x8000_0000, 0x7fff_ffff) matches Some(k) && k > 0)
}

/// An element whose focus place is no whole number of 32 bits.
pub open spec fn has_invalid_tabindex(n: HtmlNode) -> bool {
    &&& attr(n, "tabindex"@) matches Some(v)
    &&& parsed_int(trim(v), -0x8000_0000, 0x7fff_ffff) is None
}

/// A link that leads somewhere.
pub open spec fn is_anchor(n: HtmlNode) -> bool {
    has_tag(n, "a"@) && holds_text(n, "href"@)
}

/// A link without text and without a name.
pub open spec fn is_nameless_anchor(d: Seq<HtmlNode>, i: int) -> bool {
    is_anchor(d[i]) && !names_itself(d[i]) && is_blank(plain_words(d, i))
}

/// A link whose text says nothing of where it leads.
pub open spec fn is_vague_anchor(d: Seq<HtmlNode>, i: int) -> bool {
    &&& is_anchor(d[i])
    &&& (plain_words(d, i) == "click here"@ || plain_words(d, i) == "here"@ || plain_words(d, i) == "read more"@ || plain_words(d, i) == "learn more"@ || plain_words(d, i) == "more"@ || plain_words(d, i) == "more..."@)
}

/// An element that can be clicked, and that the keyboard does not reach by itself.
pub open spec fn is_clickable(n: HtmlNode) -> bool {
    attr(n, "onclick"@) is Some && !is_reached_by_keyboard(n)
}

/// A clickable element that the keyboard does not reach at all.
pub open spec fn is_clickable_only(n: HtmlNode) -> bool {
    &&& is_clickable(n)
    &&& attr(n, "onkeydown"@) is None
    &&& attr(n, "onkeyup"@) is None
    &&& attr(n, "onkeypress"@) is None
    &&& attr(n, "tabindex"@) is None
}

/// A script.
pub open spec fn is_script(n: HtmlNode) -> bool {
    has_tag(n, "script"@)
}

/// Another document inside this one.
pub open spec fn is_embedded(n: HtmlNode) -> bool {
    ||| has_tag(n, "iframe"@)
    ||| has_tag(n, "embed"@)
    ||| has_tag(n, "object"@)
    ||| has_tag(n, "frame"@)
}

/// Sound or film that starts by itself.
pub open spec fn plays_by_itself(n: HtmlNode) -> bool {
    (has_tag(n, "audio"@) || has_tag(n, "video"@)) && attr(n, "autoplay"@) is Some
}

/// Text that blinks or moves.
pub open spec fn blinks(n: HtmlNode) -> bool {
    has_tag(n, "blink"@) || has_tag(n, "marquee"@)
}

/// A note that has the page loaded again.
pub open spec fn refreshes(n: HtmlNode) -> bool {
    has_tag(n, "meta"@) && reads(n, "http-equiv"@, "refresh"@)
}

/// A part of the document that says its language.
pub open spec fn has_part_lang(n: HtmlNode) -> bool {
    !has_tag(n, "html"@) && attr(n, "lang"@) is Some
}

/// A part of the document that says its language wrongly.
pub open spec fn has_bad_part_lang(n: HtmlNode) -> bool {
    has_part_lang(n) && (attr(n, "lang"@) matches Some(v) && !is_lang_tag(trim(v)))
}

/// A form control that can be seen.
pub open spec fn is_form_control(n: HtmlNode) -> bool {
    ||| has_tag(n, "select"@)
    ||| has_tag(n, "textarea"@)
    ||| (has_tag(n, "input"@) && !reads(n, "type"@, "hidden"@))
}

/// A form control that has no name of its own, stands in no label, and that no label points at.
pub open spec fn is_nameless_control(d: Seq<HtmlNode>, i: int) -> bool {
    &&& is_form_control(d[i])
    &&& !names_itself(d[i])
    &&& (forall|j: int| 0 <= j < d.len() ==> !#[trigger] is_label_of(d, j, i))
}

/// A form control that says it is invalid.
pub open spec fn is_faulty_control(n: HtmlNode) -> bool {
    &&& is_form_control(n)
    &&& (attr(n, "aria-invalid"@) matches Some(v) && trim(v).len() > 0)
    &&& !reads(n, "aria-invalid"@, "0"@)
    &&& !reads(n, "aria-invalid"@, "false"@)
    &&& !reads(n, "aria-invalid"@, "no"@)
    &&& !reads(n, "aria-invalid"@, "off"@)
}

/// An invalid form control that points at no element to say what is wrong.
pub open spec fn is_unexplained_fault(d: Seq<HtmlNode>, i: int) -> bool {
    &&& is_faulty_control(d[i])
    &&& (forall|j: int| 0 <= j < d.len() ==> !#[trigger] points_at(d[i], "aria-describedby"@, d[j]))
    &&& (forall|j: int| 0 <= j < d.len() ==> !#[trigger] points_at(d[i], "aria-errormessage"@, d[j]))
}

// ---------------------------------------------------------------------------------------------
// What the signals mean
// ---------------------------------------------------------------------------------------------
proof fn no_words_in_nothing()
    ensures
        words(Seq::<char>::empty()).len() == 0,
{
}

proof fn same_trim_same_blank(a: Option<Seq<char>>, b: Option<Seq<char>>)
    ensures
        match (a, b) {
            (Some(x), Some(y)) => trim(x) == trim(y) ==> is_blank(x) == is_blank(y),
            _ => true,
        },
{
}

pub(crate) proof fn lang_tags_agree(v: Seq<char>)
    ensures
        lang_tag_valid(v) == is_lang_tag(trim(v)),
{
    let t = trim(v);
    assert(!is_alphanumeric('-'));
    if t.len() > 0 && lang_tag_valid(v) {
        assert(is_alphanumeric(t[0]) || t[0] == '-');
        assert(is_alphanumeric(t[t.len() - 1]) || t[t.len() - 1] == '-');
    }
}

proof fn pointing_is_referring(d: Seq<HtmlNode>, n: HtmlNode, name: Seq<char>)
    ensures
        refers_to_known(d, n, name) <==> exists|j: int|
            0 <= j < d.len() && #[trigger] points_at(n, name, d[j]),
{
    match attr(n, name) {
        Some(v) => {
            if refers_to_known(d, n, name) {
                let w = choose|w: Seq<char>| words(v).contains(w) && #[trigger] id_is_known(d, w);
                let j = choose|j: int|
                    0 <= j < d.len() && trimmed_value(#[trigger] d[j], "id"@) == Some(w);
                assert(points_at(n, name, d[j]));
            }
            if exists|j: int| 0 <= j < d.len() && #[trigger] points_at(n, name, d[j]) {
                let j = choose|j: int| 0 <= j < d.len() && #[trigger] points_at(n, name, d[j]);
                let w = trim(attr(d[j], "id"@)->0);
                assert(trimmed_value(d[j], "id"@) == Some(w));
                assert(id_is_known(d, w));
            }
        },
        None => {},
    }
}

proof fn native_role_is_one(n: HtmlNode)
    ensures
        forall|role: Seq<char>|
            #[trigger] has_role_by_itself(n, role) <==> native_role(n) == Some(role),
{
    reveal_strlit("nav");
    reveal_strlit("main");
    reveal_strlit("aside");
    reveal_strlit("form");
    reveal_strlit("table");
    reveal_strlit("ul");
    reveal_strlit("ol");
    reveal_strlit("li");
    reveal_strlit("button");
    reveal_strlit("img");
    reveal_strlit("a");
    assert("nav"@[0] == 'n' && "main"@[0] == 'm' && "aside"@[0] == 'a' && "form"@[0] == 'f'
        && "table"@[0] == 't' && "ul"@[0] == 'u' && "ol"@[0] == 'o' && "li"@[0] == 'l'
        && "button"@[0] == 'b' && "img"@[0] == 'i' && "a"@[0] == 'a');
    assert("a"@.len() == 1 && "aside"@.len() == 5);
}

pub(crate) proof fn words_are_there(n: HtmlNode)
    ensures
        is_hidden_input(n) == (has_tag(n, "input"@) && reads(n, "type"@, "hidden"@)),
        forall|name: Seq<char>| #[trigger] value_truthy(n, name) == says_yes(n, name),
        (keyword(n, "role"@) == "region"@) == reads(n, "role"@, "region"@),
        (keyword(n, "role"@) == "presentation"@) == reads(n, "role"@, "presentation"@),
        (keyword(n, "role"@) == "none"@) == reads(n, "role"@, "none"@),
        (keyword(n, "http-equiv"@) == "refresh"@) == reads(n, "http-equiv"@, "refresh"@),
        (keyword(n, "type"@) == "checkbox"@) == reads(n, "type"@, "checkbox"@),
        (keyword(n, "type"@) == "radio"@) == reads(n, "type"@, "radio"@),
{
    reveal_strlit("hidden");
    reveal_strlit("region");
    reveal_strlit("presentation");
    reveal_strlit("none");
    reveal_strlit("refresh");
    reveal_strlit("checkbox");
    reveal_strlit("radio");
    assert("hidden"@.len() == 6 && "region"@.len() == 6 && "presentation"@.len() == 12
        && "none"@.len() == 4 && "refresh"@.len() == 7 && "checkbox"@.len() == 8
        && "radio"@.len() == 5);
}

proof fn controls_differ()
    ensures
        "input"@ != "select"@,
        "input"@ != "textarea"@,
{
    reveal_strlit("input");
    reveal_strlit("select");
    reveal_strlit("textarea");
    assert("input"@.len() == 5 && "select"@.len() == 6 && "textarea"@.len() == 8);
}

proof fn is_main_signal(d: Seq<HtmlNode>, i: int)
    requires
        0 <= i < d.len(),
    ensures
        signal(d, i, Signal::Main) == if is_main(d[i]) {
            1nat
        } else {
            0nat
        },
{
    words_are_there(d[i]);
}

proof fn is_signature_signal(d: Seq<HtmlNode>, i: int)
    requires
        0 <= i < d.len(),
    ensures
        signal(d, i, Signal::Signature) == if is_signature(d[i]) {
            1nat
        } else {
            0nat
        },
{
    words_are_there(d[i]);
}

proof fn is_empty_heading_signal(d: Seq<HtmlNode>, i: int)
    requires
        0 <= i < d.len(),
    ensures
        signal(d, i, Signal::EmptyHeading) == if is_empty_heading(d, i) {
            1nat
        } else {
            0nat
        },
{
    words_are_there(d[i]);
}

proof fn is_empty_label_signal(d: Seq<HtmlNode>, i: int)
    requires
        0 <= i < d.len(),
    ensures
        signal(d, i, Signal::EmptyLabel) == if is_empty_label(d, i) {
            1nat
        } else {
            0nat
        },
{
    words_are_there(d[i]);
}

proof fn has_empty_aria_label_signal(d: Seq<HtmlNode>, i: int)
    requires
        0 <= i < d.len(),
    ensures
        signal(d, i, Signal::EmptyAriaLabel) == if has_empty_aria_label(d[i]) {
            1nat
        } else {
            0nat
        },
{
    words_are_there(d[i]);
}

proof fn is_unlabeled_region_signal(d: Seq<HtmlNode>, i: int)
    requires
        0 <= i < d.len(),
    ensures
        signal(d, i, Signal::UnlabeledRegion) == if is_unlabeled_region(d[i]) {
            1nat
        } else {
            0nat
        },
{
    words_are_there(d[i]);
}

proof fn is_picture_signal(d: Seq<HtmlNode>, i: int)
    requires
        0 <= i < d.len(),
    ensures
        signal(d, i, Signal::Image) == if is_picture(d[i]) {
            1nat
        } else {
            0nat
        },
{
    words_are_there(d[i]);
}

proof fn is_textless_picture_signal(d: Seq<HtmlNode>, i: int)
    requires
        0 <= i < d.len(),
    ensures
        signal(d, i, Signal::ImageMissingAlt) == if is_textless_picture(d[i]) {
            1nat
        } else {
            0nat
        },
{
    words_are_there(d[i]);
}

proof fn is_titled_picture_signal(d: Seq<HtmlNode>, i: int)
    requires
        0 <= i < d.len(),
    ensures
        signal(d, i, Signal::ImageTitleOnly) == if is_titled_picture(d[i]) {
            1nat
        } else {
            0nat
        },
{
    words_are_there(d[i]);
}

proof fn is_contradictory_picture_signal(d: Seq<HtmlNode>, i: int)
    requires
        0 <= i < d.len(),
    ensures
        signal(d, i, Signal::ImageConflict) == if is_contradictory_picture(d[i]) {
            1nat
        } else {
            0nat
        },
{
    words_are_there(d[i]);
}

proof fn repeats_role_signal(d: Seq<HtmlNode>, i: int)
    requires
        0 <= i < d.len(),
    ensures
        signal(d, i, Signal::RedundantRole) == if repeats_role(d[i]) {
            1nat
        } else {
            0nat
        },
{
    words_are_there(d[i]);
    native_role_is_one(d[i]);
    let n = d[i];
    if role_is_redundant(n) {
        let role = native_role(n)->0;
        no_words_in_nothing();
        assert(states_role(n, role));
    }
}

proof fn has_tabindex_signal(d: Seq<HtmlNode>, i: int)
    requires
        0 <= i < d.len(),
    ensures
        signal(d, i, Signal::Tabindex) == if has_tabindex(d[i]) {
            1nat
        } else {
            0nat
        },
{
    words_are_there(d[i]);
}

proof fn has_positive_tabindex_signal(d: Seq<HtmlNode>, i: int)
    requires
        0 <= i < d.len(),
    ensures
        signal(d, i, Signal::PositiveTabindex) == if has_positive_tabindex(d[i]) {
            1nat
        } else {
            0nat
        },
{
    words_are_there(d[i]);
}

proof fn has_invalid_tabindex_signal(d: Seq<HtmlNode>, i: int)
    requires
        0 <= i < d.len(),
    ensures
        signal(d, i, Signal::InvalidTabindex) == if has_invalid_tabindex(d[i]) {
            1nat
        } else {
            0nat
        },
{
    words_are_there(d[i]);
}

proof fn is_anchor_signal(d: Seq<HtmlNode>, i: int)
    requires
        0 <= i < d.len(),
    ensures
        signal(d, i, Signal::Link) == if is_anchor(d[i]) {
            1nat
        } else {
            0nat
        },
{
    words_are_there(d[i]);
}

proof fn is_nameless_anchor_signal(d: Seq<HtmlNode>, i: int)
    requires
        0 <= i < d.len(),
    ensures
        signal(d, i, Signal::UnnamedLink) == if is_nameless_anchor(d, i) {
            1nat
        } else {
            0nat
        },
{
    words_are_there(d[i]);
}

proof fn is_vague_anchor_signal(d: Seq<HtmlNode>, i: int)
    requires
        0 <= i < d.len(),
    ensures
        signal(d, i, Signal::GenericLink) == if is_vague_anchor(d, i) {
            1nat
        } else {
            0nat
        },
{
    words_are_there(d[i]);
    let t = plain_words(d, i);
    reveal_strlit("click here");
    reveal_strlit("here");
    reveal_strlit("read more");
    reveal_strlit("learn more");
    reveal_strlit("more");
    reveal_strlit("more...");
    blank_means_all_space(t);
    if is_generic_text(t) {
        assert(t[0] == 'c' || t[0] == 'h' || t[0] == 'r' || t[0] == 'l' || t[0] == 'm');
        assert(!is_space(t[0]));
    }
}

proof fn is_clickable_signal(d: Seq<HtmlNode>, i: int)
    requires
        0 <= i < d.len(),
    ensures
        signal(d, i, Signal::CustomClick) == if is_clickable(d[i]) {
            1nat
        } else {
            0nat
        },
{
    words_are_there(d[i]);
}

proof fn is_clickable_only_signal(d: Seq<HtmlNode>, i: int)
    requires
        0 <= i < d.len(),
    ensures
        signal(d, i, Signal::PointerOnlyClick) == if is_clickable_only(d[i]) {
            1nat
        } else {
            0nat
        },
{
    words_are_there(d[i]);
}

proof fn is_script_signal(d: Seq<HtmlNode>, i: int)
    requires
        0 <= i < d.len(),
    ensures
        signal(d, i, Signal::Script) == if is_script(d[i]) {
            1nat
        } else {
            0nat
        },
{
    words_are_there(d[i]);
}

proof fn is_embedded_signal(d: Seq<HtmlNode>, i: int)
    requires
        0 <= i < d.len(),
    ensures
        signal(d, i, Signal::EmbeddedActive) == if is_embedded(d[i]) {
            1nat
        } else {
            0nat
        },
{
    words_are_there(d[i]);
}

proof fn plays_by_itself_signal(d: Seq<HtmlNode>, i: int)
    requires
        0 <= i < d.len(),
    ensures
        signal(d, i, Signal::AutoplayMedia) == if plays_by_itself(d[i]) {
            1nat
        } else {
            0nat
        },
{
    words_are_there(d[i]);
}

proof fn blinks_signal(d: Seq<HtmlNode>, i: int)
    requires
        0 <= i < d.len(),
    ensures
        signal(d, i, Signal::BlinkMarquee) == if blinks(d[i]) {
            1nat
        } else {
            0nat
        },
{
    words_are_there(d[i]);
}

proof fn refreshes_signal(d: Seq<HtmlNode>, i: int)
    requires
        0 <= i < d.len(),
    ensures
        signal(d, i, Signal::MetaRefresh) == if refreshes(d[i]) {
            1nat
        } else {
            0nat
        },
{
    words_are_there(d[i]);
}

proof fn has_part_lang_signal(d: Seq<HtmlNode>, i: int)
    requires
        0 <= i < d.len(),
    ensures
        signal(d, i, Signal::PartLang) == if has_part_lang(d[i]) {
            1nat
        } else {
            0nat
        },
{
    words_are_there(d[i]);
}

proof fn has_bad_part_lang_signal(d: Seq<HtmlNode>, i: int)
    requires
        0 <= i < d.len(),
    ensures
        signal(d, i, Signal::InvalidPartLang) == if has_bad_part_lang(d[i]) {
            1nat
        } else {
            0nat
        },
{
    words_are_there(d[i]);
    match attr(d[i], "lang"@) {
        Some(v) => {
            lang_tags_agree(v);
        },
        None => {},
    }
}

proof fn is_form_control_signal(d: Seq<HtmlNode>, i: int)
    requires
        0 <= i < d.len(),
    ensures
        signal(d, i, Signal::Control) == if is_form_control(d[i]) {
            1nat
        } else {
            0nat
        },
{
    words_are_there(d[i]);
    controls_differ();
}

proof fn is_nameless_control_signal(d: Seq<HtmlNode>, i: int)
    requires
        0 <= i < d.len(),
    ensures
        signal(d, i, Signal::UnlabeledControl) == if is_nameless_control(d, i) {
            1nat
        } else {
            0nat
        },
{
    words_are_there(d[i]);
    controls_differ();
    let n = d[i];
    if is_unlabeled_control(d, i) {
        assert forall|j: int| 0 <= j < d.len() implies !#[trigger] is_label_of(d, j, i) by {
            same_trim_same_blank(attr(d[j], "for"@), attr(n, "id"@));
            if is_label_of(d, j, i) && !(j < i < d[j].end) {
                assert(has_tag(d[j], "label"@));
                assert(trimmed_value(d[j], "for"@) == trimmed_value(n, "id"@));
            }
        }
    }
    if is_nameless_control(d, i) {
        assert forall|j: int| 0 <= j < i && i < (#[trigger] d[j]).end implies !has_tag(
            d[j],
            "label"@,
        ) by {
            assert(!is_label_of(d, j, i));
        }
        match trimmed_value(n, "id"@) {
            Some(id) => {
                assert forall|j: int|
                    0 <= j < d.len() && has_tag(#[trigger] d[j], "label"@) implies trimmed_value(
                    d[j],
                    "for"@,
                ) != Some(id) by {
                    assert(!is_label_of(d, j, i));
                }
            },
            None => {},
        }
    }
}

proof fn is_faulty_control_signal(d: Seq<HtmlNode>, i: int)
    requires
        0 <= i < d.len(),
    ensures
        signal(d, i, Signal::InvalidControl) == if is_faulty_control(d[i]) {
            1nat
        } else {
            0nat
        },
{
    words_are_there(d[i]);
    controls_differ();
    reveal_strlit("0");
    reveal_strlit("false");
    reveal_strlit("no");
    reveal_strlit("off");
    assert("0"@.len() == 1 && "false"@.len() == 5 && "no"@.len() == 2 && "off"@.len() == 3);
}

proof fn is_unexplained_fault_signal(d: Seq<HtmlNode>, i: int)
    requires
        0 <= i < d.len(),
    ensures
        signal(d, i, Signal::UnidentifiedError) == if is_unexplained_fault(d, i) {
            1nat
        } else {
            0nat
        },
{
    words_are_there(d[i]);
    is_faulty_control_signal(d, i);
    pointing_is_referring(d, d[i], "aria-describedby"@);
    pointing_is_referring(d, d[i], "aria-errormessage"@);
}

// ---------------------------------------------------------------------------------------------
// Counting
// ---------------------------------------------------------------------------------------------
/// The nodes of the document that the test holds of.
pub open spec fn nodes_with(d: Seq<HtmlNode>, test: spec_fn(int) -> bool) -> Set<int> {
    Set::new(|i: int| 0 <= i < d.len() && test(i))
}

proof fn tally_is_count(d: Seq<HtmlNode>, s: Signal, n: int, test: spec_fn(int) -> bool)
    requires
        0 <= n <= d.len(),
        forall|i: int|
            0 <= i < d.len() ==> #[trigger] signal(d, i, s) == if test(i) {
                1nat
            } else {
                0nat
            },
    ensures
        Set::new(|i: int| 0 <= i < n && test(i)).finite(),
        Set::new(|i: int| 0 <= i < n && test(i)).len() == tally_to(d, s, n),
    decreases n,
{
    let now = Set::new(|i: int| 0 <= i < n && test(i));
    if n > 0 {
        tally_is_count(d, s, n - 1, test);
        let before = Set::new(|i: int| 0 <= i < n - 1 && test(i));
        assert(signal(d, n - 1, s) == if test(n - 1) {
            1nat
        } else {
            0nat
        });
        if test(n - 1) {
            assert(now =~= before.insert(n - 1));
        } else {
            assert(now =~= before);
        }
    } else {
        assert(now =~= Set::empty());
    }
}

/// The count is the number of nodes that the test holds of. It is above nought if and only if there
/// is such a node.
pub open spec fn is_count(d: Seq<HtmlNode>, n: usize, test: spec_fn(int) -> bool) -> bool {
    &&& nodes_with(d, test).finite()
    &&& n == nodes_with(d, test).len()
}

proof fn count_holds(d: Seq<HtmlNode>, s: Signal, n: usize, test: spec_fn(int) -> bool)
    requires
        n == tally(d, s),
        forall|i: int|
            0 <= i < d.len() ==> #[trigger] signal(d, i, s) == if test(i) {
                1nat
            } else {
                0nat
            },
    ensures
        is_count(d, n, test),
        n > 0 <==> exists|i: int| 0 <= i < d.len() && #[trigger] test(i),
{
    tally_is_count(d, s, d.len() as int, test);
    let found = nodes_with(d, test);
    assert(found =~= Set::new(|i: int| 0 <= i < d.len() && test(i)));
    if n > 0 {
        assert(!(found =~= Set::empty()));
        let i = choose|i: int| found.contains(i);
        assert(test(i));
    }
    if exists|i: int| 0 <= i < d.len() && #[trigger] test(i) {
        let i = choose|i: int| 0 <= i < d.len() && #[trigger] test(i);
        assert(found.contains(i));
        assert(found.remove(i).len() + 1 == found.len());
    }
}

pub(crate) proof fn is_main_count(d: Seq<HtmlNode>, f: A11yVerifierFacts)
    requires
        facts_of(d, f),
    ensures
        is_count(d, f.main_count, |i: int| is_main(d[i])),
        f.main_count > 0 <==> exists|i: int| 0 <= i < d.len() && #[trigger] is_main(d[i]),
{
    let test = |i: int| is_main(d[i]);
    assert forall|i: int| 0 <= i < d.len() implies #[trigger] signal(
        d,
        i,
        Signal::Main,
    ) == if test(i) {
        1nat
    } else {
        0nat
    } by {
        is_main_signal(d, i);
    }
    count_holds(d, Signal::Main, f.main_count, test);
    if exists|i: int| 0 <= i < d.len() && #[trigger] is_main(d[i]) {
        let i = choose|i: int| 0 <= i < d.len() && #[trigger] is_main(d[i]);
        assert(test(i));
    }
}

pub(crate) proof fn is_signature_count(d: Seq<HtmlNode>, f: A11yVerifierFacts)
    requires
        facts_of(d, f),
    ensures
        is_count(d, f.signature_semantic_count, |i: int| is_signature(d[i])),
        f.signature_semantic_count > 0 <==> exists|i: int|
            0 <= i < d.len() && #[trigger] is_signature(d[i]),
{
    let test = |i: int| is_signature(d[i]);
    assert forall|i: int| 0 <= i < d.len() implies #[trigger] signal(
        d,
        i,
        Signal::Signature,
    ) == if test(i) {
        1nat
    } else {
        0nat
    } by {
        is_signature_signal(d, i);
    }
    count_holds(d, Signal::Signature, f.signature_semantic_count, test);
    if exists|i: int| 0 <= i < d.len() && #[trigger] is_signature(d[i]) {
        let i = choose|i: int| 0 <= i < d.len() && #[trigger] is_signature(d[i]);
        assert(test(i));
    }
}

pub(crate) proof fn is_empty_heading_count(d: Seq<HtmlNode>, f: A11yVerifierFacts)
    requires
        facts_of(d, f),
    ensures
        is_count(d, f.empty_heading_count, |i: int| is_empty_heading(d, i)),
        f.empty_heading_count > 0 <==> exists|i: int|
            0 <= i < d.len() && #[trigger] is_empty_heading(d, i),
{
    let test = |i: int| is_empty_heading(d, i);
    assert forall|i: int| 0 <= i < d.len() implies #[trigger] signal(
        d,
        i,
        Signal::EmptyHeading,
    ) == if test(i) {
        1nat
    } else {
        0nat
    } by {
        is_empty_heading_signal(d, i);
    }
    count_holds(d, Signal::EmptyHeading, f.empty_heading_count, test);
    if exists|i: int| 0 <= i < d.len() && #[trigger] is_empty_heading(d, i) {
        let i = choose|i: int| 0 <= i < d.len() && #[trigger] is_empty_heading(d, i);
        assert(test(i));
    }
}

pub(crate) proof fn is_empty_label_count(d: Seq<HtmlNode>, f: A11yVerifierFacts)
    requires
        facts_of(d, f),
    ensures
        is_count(d, f.empty_label_count, |i: int| is_empty_label(d, i)),
        f.empty_label_count > 0 <==> exists|i: int|
            0 <= i < d.len() && #[trigger] is_empty_label(d, i),
{
    let test = |i: int| is_empty_label(d, i);
    assert forall|i: int| 0 <= i < d.len() implies #[trigger] signal(
        d,
        i,
        Signal::EmptyLabel,
    ) == if test(i) {
        1nat
    } else {
        0nat
    } by {
        is_empty_label_signal(d, i);
    }
    count_holds(d, Signal::EmptyLabel, f.empty_label_count, test);
    if exists|i: int| 0 <= i < d.len() && #[trigger] is_empty_label(d, i) {
        let i = choose|i: int| 0 <= i < d.len() && #[trigger] is_empty_label(d, i);
        assert(test(i));
    }
}

pub(crate) proof fn has_empty_aria_label_count(d: Seq<HtmlNode>, f: A11yVerifierFacts)
    requires
        facts_of(d, f),
    ensures
        is_count(d, f.empty_aria_label_count, |i: int| has_empty_aria_label(d[i])),
        f.empty_aria_label_count > 0 <==> exists|i: int|
            0 <= i < d.len() && #[trigger] has_empty_aria_label(d[i]),
{
    let test = |i: int| has_empty_aria_label(d[i]);
    assert forall|i: int| 0 <= i < d.len() implies #[trigger] signal(
        d,
        i,
        Signal::EmptyAriaLabel,
    ) == if test(i) {
        1nat
    } else {
        0nat
    } by {
        has_empty_aria_label_signal(d, i);
    }
    count_holds(d, Signal::EmptyAriaLabel, f.empty_aria_label_count, test);
    if exists|i: int| 0 <= i < d.len() && #[trigger] has_empty_aria_label(d[i]) {
        let i = choose|i: int| 0 <= i < d.len() && #[trigger] has_empty_aria_label(d[i]);
        assert(test(i));
    }
}

pub(crate) proof fn is_unlabeled_region_count(d: Seq<HtmlNode>, f: A11yVerifierFacts)
    requires
        facts_of(d, f),
    ensures
        is_count(d, f.unlabeled_region_count, |i: int| is_unlabeled_region(d[i])),
        f.unlabeled_region_count > 0 <==> exists|i: int|
            0 <= i < d.len() && #[trigger] is_unlabeled_region(d[i]),
{
    let test = |i: int| is_unlabeled_region(d[i]);
    assert forall|i: int| 0 <= i < d.len() implies #[trigger] signal(
        d,
        i,
        Signal::UnlabeledRegion,
    ) == if test(i) {
        1nat
    } else {
        0nat
    } by {
        is_unlabeled_region_signal(d, i);
    }
    count_holds(d, Signal::UnlabeledRegion, f.unlabeled_region_count, test);
    if exists|i: int| 0 <= i < d.len() && #[trigger] is_unlabeled_region(d[i]) {
        let i = choose|i: int| 0 <= i < d.len() && #[trigger] is_unlabeled_region(d[i]);
        assert(test(i));
    }
}

pub(crate) proof fn is_picture_count(d: Seq<HtmlNode>, f: A11yVerifierFacts)
    requires
        facts_of(d, f),
    ensures
        is_count(d, f.image_count, |i: int| is_picture(d[i])),
        f.image_count > 0 <==> exists|i: int| 0 <= i < d.len() && #[trigger] is_picture(d[i]),
{
    let test = |i: int| is_picture(d[i]);
    assert forall|i: int| 0 <= i < d.len() implies #[trigger] signal(
        d,
        i,
        Signal::Image,
    ) == if test(i) {
        1nat
    } else {
        0nat
    } by {
        is_picture_signal(d, i);
    }
    count_holds(d, Signal::Image, f.image_count, test);
    if exists|i: int| 0 <= i < d.len() && #[trigger] is_picture(d[i]) {
        let i = choose|i: int| 0 <= i < d.len() && #[trigger] is_picture(d[i]);
        assert(test(i));
    }
}

pub(crate) proof fn is_textless_picture_count(d: Seq<HtmlNode>, f: A11yVerifierFacts)
    requires
        facts_of(d, f),
    ensures
        is_count(d, f.image_missing_alt_count, |i: int| is_textless_picture(d[i])),
        f.image_missing_alt_count > 0 <==> exists|i: int|
            0 <= i < d.len() && #[trigger] is_textless_picture(d[i]),
{
    let test = |i: int| is_textless_picture(d[i]);
    assert forall|i: int| 0 <= i < d.len() implies #[trigger] signal(
        d,
        i,
        Signal::ImageMissingAlt,
    ) == if test(i) {
        1nat
    } else {
        0nat
    } by {
        is_textless_picture_signal(d, i);
    }
    count_holds(d, Signal::ImageMissingAlt, f.image_missing_alt_count, test);
    if exists|i: int| 0 <= i < d.len() && #[trigger] is_textless_picture(d[i]) {
        let i = choose|i: int| 0 <= i < d.len() && #[trigger] is_textless_picture(d[i]);
        assert(test(i));
    }
}

pub(crate) proof fn is_titled_picture_count(d: Seq<HtmlNode>, f: A11yVerifierFacts)
    requires
        facts_of(d, f),
    ensures
        is_count(d, f.image_title_only_count, |i: int| is_titled_picture(d[i])),
        f.image_title_only_count > 0 <==> exists|i: int|
            0 <= i < d.len() && #[trigger] is_titled_picture(d[i]),
{
    let test = |i: int| is_titled_picture(d[i]);
    assert forall|i: int| 0 <= i < d.len() implies #[trigger] signal(
        d,
        i,
        Signal::ImageTitleOnly,
    ) == if test(i) {
        1nat
    } else {
        0nat
    } by {
        is_titled_picture_signal(d, i);
    }
    count_holds(d, Signal::ImageTitleOnly, f.image_title_only_count, test);
    if exists|i: int| 0 <= i < d.len() && #[trigger] is_titled_picture(d[i]) {
        let i = choose|i: int| 0 <= i < d.len() && #[trigger] is_titled_picture(d[i]);
        assert(test(i));
    }
}

pub(crate) proof fn is_contradictory_picture_count(d: Seq<HtmlNode>, f: A11yVerifierFacts)
    requires
        facts_of(d, f),
    ensures
        is_count(d, f.image_semantic_conflict_count, |i: int| is_contradictory_picture(d[i])),
        f.image_semantic_conflict_count > 0 <==> exists|i: int|
            0 <= i < d.len() && #[trigger] is_contradictory_picture(d[i]),
{
    let test = |i: int| is_contradictory_picture(d[i]);
    assert forall|i: int| 0 <= i < d.len() implies #[trigger] signal(
        d,
        i,
        Signal::ImageConflict,
    ) == if test(i) {
        1nat
    } else {
        0nat
    } by {
        is_contradictory_picture_signal(d, i);
    }
    count_holds(d, Signal::ImageConflict, f.image_semantic_conflict_count, test);
    if exists|i: int| 0 <= i < d.len() && #[trigger] is_contradictory_picture(d[i]) {
        let i = choose|i: int| 0 <= i < d.len() && #[trigger] is_contradictory_picture(d[i]);
        assert(test(i));
    }
}

pub(crate) proof fn repeats_role_count(d: Seq<HtmlNode>, f: A11yVerifierFacts)
    requires
        facts_of(d, f),
    ensures
        is_count(d, f.redundant_role_native_count, |i: int| repeats_role(d[i])),
        f.redundant_role_native_count > 0 <==> exists|i: int|
            0 <= i < d.len() && #[trigger] repeats_role(d[i]),
{
    let test = |i: int| repeats_role(d[i]);
    assert forall|i: int| 0 <= i < d.len() implies #[trigger] signal(
        d,
        i,
        Signal::RedundantRole,
    ) == if test(i) {
        1nat
    } else {
        0nat
    } by {
        repeats_role_signal(d, i);
    }
    count_holds(d, Signal::RedundantRole, f.redundant_role_native_count, test);
    if exists|i: int| 0 <= i < d.len() && #[trigger] repeats_role(d[i]) {
        let i = choose|i: int| 0 <= i < d.len() && #[trigger] repeats_role(d[i]);
        assert(test(i));
    }
}

pub(crate) proof fn has_tabindex_count(d: Seq<HtmlNode>, f: A11yVerifierFacts)
    requires
        facts_of(d, f),
    ensures
        is_count(d, f.tabindex_attr_count, |i: int| has_tabindex(d[i])),
        f.tabindex_attr_count > 0 <==> exists|i: int|
            0 <= i < d.len() && #[trigger] has_tabindex(d[i]),
{
    let test = |i: int| has_tabindex(d[i]);
    assert forall|i: int| 0 <= i < d.len() implies #[trigger] signal(
        d,
        i,
        Signal::Tabindex,
    ) == if test(i) {
        1nat
    } else {
        0nat
    } by {
        has_tabindex_signal(d, i);
    }
    count_holds(d, Signal::Tabindex, f.tabindex_attr_count, test);
    if exists|i: int| 0 <= i < d.len() && #[trigger] has_tabindex(d[i]) {
        let i = choose|i: int| 0 <= i < d.len() && #[trigger] has_tabindex(d[i]);
        assert(test(i));
    }
}

pub(crate) proof fn has_positive_tabindex_count(d: Seq<HtmlNode>, f: A11yVerifierFacts)
    requires
        facts_of(d, f),
    ensures
        is_count(d, f.positive_tabindex_count, |i: int| has_positive_tabindex(d[i])),
        f.positive_tabindex_count > 0 <==> exists|i: int|
            0 <= i < d.len() && #[trigger] has_positive_tabindex(d[i]),
{
    let test = |i: int| has_positive_tabindex(d[i]);
    assert forall|i: int| 0 <= i < d.len() implies #[trigger] signal(
        d,
        i,
        Signal::PositiveTabindex,
    ) == if test(i) {
        1nat
    } else {
        0nat
    } by {
        has_positive_tabindex_signal(d, i);
    }
    count_holds(d, Signal::PositiveTabindex, f.positive_tabindex_count, test);
    if exists|i: int| 0 <= i < d.len() && #[trigger] has_positive_tabindex(d[i]) {
        let i = choose|i: int| 0 <= i < d.len() && #[trigger] has_positive_tabindex(d[i]);
        assert(test(i));
    }
}

pub(crate) proof fn has_invalid_tabindex_count(d: Seq<HtmlNode>, f: A11yVerifierFacts)
    requires
        facts_of(d, f),
    ensures
        is_count(d, f.invalid_tabindex_count, |i: int| has_invalid_tabindex(d[i])),
        f.invalid_tabindex_count > 0 <==> exists|i: int|
            0 <= i < d.len() && #[trigger] has_invalid_tabindex(d[i]),
{
    let test = |i: int| has_invalid_tabindex(d[i]);
    assert forall|i: int| 0 <= i < d.len() implies #[trigger] signal(
        d,
        i,
        Signal::InvalidTabindex,
    ) == if test(i) {
        1nat
    } else {
        0nat
    } by {
        has_invalid_tabindex_signal(d, i);
    }
    count_holds(d, Signal::InvalidTabindex, f.invalid_tabindex_count, test);
    if exists|i: int| 0 <= i < d.len() && #[trigger] has_invalid_tabindex(d[i]) {
        let i = choose|i: int| 0 <= i < d.len() && #[trigger] has_invalid_tabindex(d[i]);
        assert(test(i));
    }
}

pub(crate) proof fn is_anchor_count(d: Seq<HtmlNode>, f: A11yVerifierFacts)
    requires
        facts_of(d, f),
    ensures
        is_count(d, f.link_count, |i: int| is_anchor(d[i])),
        f.link_count > 0 <==> exists|i: int| 0 <= i < d.len() && #[trigger] is_anchor(d[i]),
{
    let test = |i: int| is_anchor(d[i]);
    assert forall|i: int| 0 <= i < d.len() implies #[trigger] signal(
        d,
        i,
        Signal::Link,
    ) == if test(i) {
        1nat
    } else {
        0nat
    } by {
        is_anchor_signal(d, i);
    }
    count_holds(d, Signal::Link, f.link_count, test);
    if exists|i: int| 0 <= i < d.len() && #[trigger] is_anchor(d[i]) {
        let i = choose|i: int| 0 <= i < d.len() && #[trigger] is_anchor(d[i]);
        assert(test(i));
    }
}

pub(crate) proof fn is_nameless_anchor_count(d: Seq<HtmlNode>, f: A11yVerifierFacts)
    requires
        facts_of(d, f),
    ensures
        is_count(d, f.unnamed_link_count, |i: int| is_nameless_anchor(d, i)),
        f.unnamed_link_count > 0 <==> exists|i: int|
            0 <= i < d.len() && #[trigger] is_nameless_anchor(d, i),
{
    let test = |i: int| is_nameless_anchor(d, i);
    assert forall|i: int| 0 <= i < d.len() implies #[trigger] signal(
        d,
        i,
        Signal::UnnamedLink,
    ) == if test(i) {
        1nat
    } else {
        0nat
    } by {
        is_nameless_anchor_signal(d, i);
    }
    count_holds(d, Signal::UnnamedLink, f.unnamed_link_count, test);
    if exists|i: int| 0 <= i < d.len() && #[trigger] is_nameless_anchor(d, i) {
        let i = choose|i: int| 0 <= i < d.len() && #[trigger] is_nameless_anchor(d, i);
        assert(test(i));
    }
}

pub(crate) proof fn is_vague_anchor_count(d: Seq<HtmlNode>, f: A11yVerifierFacts)
    requires
        facts_of(d, f),
    ensures
        is_count(d, f.generic_link_text_count, |i: int| is_vague_anchor(d, i)),
        f.generic_link_text_count > 0 <==> exists|i: int|
            0 <= i < d.len() && #[trigger] is_vague_anchor(d, i),
{
    let test = |i: int| is_vague_anchor(d, i);
    assert forall|i: int| 0 <= i < d.len() implies #[trigger] signal(
        d,
        i,
        Signal::GenericLink,
    ) == if test(i) {
        1nat
    } else {
        0nat
    } by {
        is_vague_anchor_signal(d, i);
    }
    count_holds(d, Signal::GenericLink, f.generic_link_text_count, test);
    if exists|i: int| 0 <= i < d.len() && #[trigger] is_vague_anchor(d, i) {
        let i = choose|i: int| 0 <= i < d.len() && #[trigger] is_vague_anchor(d, i);
        assert(test(i));
    }
}

pub(crate) proof fn is_clickable_count(d: Seq<HtmlNode>, f: A11yVerifierFacts)
    requires
        facts_of(d, f),
    ensures
        is_count(d, f.custom_click_handler_count, |i: int| is_clickable(d[i])),
        f.custom_click_handler_count > 0 <==> exists|i: int|
            0 <= i < d.len() && #[trigger] is_clickable(d[i]),
{
    let test = |i: int| is_clickable(d[i]);
    assert forall|i: int| 0 <= i < d.len() implies #[trigger] signal(
        d,
        i,
        Signal::CustomClick,
    ) == if test(i) {
        1nat
    } else {
        0nat
    } by {
        is_clickable_signal(d, i);
    }
    count_holds(d, Signal::CustomClick, f.custom_click_handler_count, test);
    if exists|i: int| 0 <= i < d.len() && #[trigger] is_clickable(d[i]) {
        let i = choose|i: int| 0 <= i < d.len() && #[trigger] is_clickable(d[i]);
        assert(test(i));
    }
}

pub(crate) proof fn is_clickable_only_count(d: Seq<HtmlNode>, f: A11yVerifierFacts)
    requires
        facts_of(d, f),
    ensures
        is_count(d, f.pointer_only_click_handler_count, |i: int| is_clickable_only(d[i])),
        f.pointer_only_click_handler_count > 0 <==> exists|i: int|
            0 <= i < d.len() && #[trigger] is_clickable_only(d[i]),
{
    let test = |i: int| is_clickable_only(d[i]);
    assert forall|i: int| 0 <= i < d.len() implies #[trigger] signal(
        d,
        i,
        Signal::PointerOnlyClick,
    ) == if test(i) {
        1nat
    } else {
        0nat
    } by {
        is_clickable_only_signal(d, i);
    }
    count_holds(d, Signal::PointerOnlyClick, f.pointer_only_click_handler_count, test);
    if exists|i: int| 0 <= i < d.len() && #[trigger] is_clickable_only(d[i]) {
        let i = choose|i: int| 0 <= i < d.len() && #[trigger] is_clickable_only(d[i]);
        assert(test(i));
    }
}

pub(crate) proof fn is_script_count(d: Seq<HtmlNode>, f: A11yVerifierFacts)
    requires
        facts_of(d, f),
    ensures
        is_count(d, f.script_element_count, |i: int| is_script(d[i])),
        f.script_element_count > 0 <==> exists|i: int|
            0 <= i < d.len() && #[trigger] is_script(d[i]),
{
    let test = |i: int| is_script(d[i]);
    assert forall|i: int| 0 <= i < d.len() implies #[trigger] signal(
        d,
        i,
        Signal::Script,
    ) == if test(i) {
        1nat
    } else {
        0nat
    } by {
        is_script_signal(d, i);
    }
    count_holds(d, Signal::Script, f.script_element_count, test);
    if exists|i: int| 0 <= i < d.len() && #[trigger] is_script(d[i]) {
        let i = choose|i: int| 0 <= i < d.len() && #[trigger] is_script(d[i]);
        assert(test(i));
    }
}

pub(crate) proof fn is_embedded_count(d: Seq<HtmlNode>, f: A11yVerifierFacts)
    requires
        facts_of(d, f),
    ensures
        is_count(d, f.embedded_active_content_count, |i: int| is_embedded(d[i])),
        f.embedded_active_content_count > 0 <==> exists|i: int|
            0 <= i < d.len() && #[trigger] is_embedded(d[i]),
{
    let test = |i: int| is_embedded(d[i]);
    assert forall|i: int| 0 <= i < d.len() implies #[trigger] signal(
        d,
        i,
        Signal::EmbeddedActive,
    ) == if test(i) {
        1nat
    } else {
        0nat
    } by {
        is_embedded_signal(d, i);
    }
    count_holds(d, Signal::EmbeddedActive, f.embedded_active_content_count, test);
    if exists|i: int| 0 <= i < d.len() && #[trigger] is_embedded(d[i]) {
        let i = choose|i: int| 0 <= i < d.len() && #[trigger] is_embedded(d[i]);
        assert(test(i));
    }
}

pub(crate) proof fn plays_by_itself_count(d: Seq<HtmlNode>, f: A11yVerifierFacts)
    requires
        facts_of(d, f),
    ensures
        is_count(d, f.autoplay_media_count, |i: int| plays_by_itself(d[i])),
        f.autoplay_media_count > 0 <==> exists|i: int|
            0 <= i < d.len() && #[trigger] plays_by_itself(d[i]),
{
    let test = |i: int| plays_by_itself(d[i]);
    assert forall|i: int| 0 <= i < d.len() implies #[trigger] signal(
        d,
        i,
        Signal::AutoplayMedia,
    ) == if test(i) {
        1nat
    } else {
        0nat
    } by {
        plays_by_itself_signal(d, i);
    }
    count_holds(d, Signal::AutoplayMedia, f.autoplay_media_count, test);
    if exists|i: int| 0 <= i < d.len() && #[trigger] plays_by_itself(d[i]) {
        let i = choose|i: int| 0 <= i < d.len() && #[trigger] plays_by_itself(d[i]);
        assert(test(i));
    }
}

pub(crate) proof fn blinks_count(d: Seq<HtmlNode>, f: A11yVerifierFacts)
    requires
        facts_of(d, f),
    ensures
        is_count(d, f.blink_marquee_count, |i: int| blinks(d[i])),
        f.blink_marquee_count > 0 <==> exists|i: int| 0 <= i < d.len() && #[trigger] blinks(d[i]),
{
    let test = |i: int| blinks(d[i]);
    assert forall|i: int| 0 <= i < d.len() implies #[trigger] signal(
        d,
        i,
        Signal::BlinkMarquee,
    ) == if test(i) {
        1nat
    } else {
        0nat
    } by {
        blinks_signal(d, i);
    }
    count_holds(d, Signal::BlinkMarquee, f.blink_marquee_count, test);
    if exists|i: int| 0 <= i < d.len() && #[trigger] blinks(d[i]) {
        let i = choose|i: int| 0 <= i < d.len() && #[trigger] blinks(d[i]);
        assert(test(i));
    }
}

pub(crate) proof fn refreshes_count(d: Seq<HtmlNode>, f: A11yVerifierFacts)
    requires
        facts_of(d, f),
    ensures
        is_count(d, f.meta_refresh_count, |i: int| refreshes(d[i])),
        f.meta_refresh_count > 0 <==> exists|i: int| 0 <= i < d.len() && #[trigger] refreshes(d[i]),
{
    let test = |i: int| refreshes(d[i]);
    assert forall|i: int| 0 <= i < d.len() implies #[trigger] signal(
        d,
        i,
        Signal::MetaRefresh,
    ) == if test(i) {
        1nat
    } else {
        0nat
    } by {
        refreshes_signal(d, i);
    }
    count_holds(d, Signal::MetaRefresh, f.meta_refresh_count, test);
    if exists|i: int| 0 <= i < d.len() && #[trigger] refreshes(d[i]) {
        let i = choose|i: int| 0 <= i < d.len() && #[trigger] refreshes(d[i]);
        assert(test(i));
    }
}

pub(crate) proof fn has_part_lang_count(d: Seq<HtmlNode>, f: A11yVerifierFacts)
    requires
        facts_of(d, f),
    ensures
        is_count(d, f.part_lang_attr_count, |i: int| has_part_lang(d[i])),
        f.part_lang_attr_count > 0 <==> exists|i: int|
            0 <= i < d.len() && #[trigger] has_part_lang(d[i]),
{
    let test = |i: int| has_part_lang(d[i]);
    assert forall|i: int| 0 <= i < d.len() implies #[trigger] signal(
        d,
        i,
        Signal::PartLang,
    ) == if test(i) {
        1nat
    } else {
        0nat
    } by {
        has_part_lang_signal(d, i);
    }
    count_holds(d, Signal::PartLang, f.part_lang_attr_count, test);
    if exists|i: int| 0 <= i < d.len() && #[trigger] has_part_lang(d[i]) {
        let i = choose|i: int| 0 <= i < d.len() && #[trigger] has_part_lang(d[i]);
        assert(test(i));
    }
}

pub(crate) proof fn has_bad_part_lang_count(d: Seq<HtmlNode>, f: A11yVerifierFacts)
    requires
        facts_of(d, f),
    ensures
        is_count(d, f.invalid_part_lang_attr_count, |i: int| has_bad_part_lang(d[i])),
        f.invalid_part_lang_attr_count > 0 <==> exists|i: int|
            0 <= i < d.len() && #[trigger] has_bad_part_lang(d[i]),
{
    let test = |i: int| has_bad_part_lang(d[i]);
    assert forall|i: int| 0 <= i < d.len() implies #[trigger] signal(
        d,
        i,
        Signal::InvalidPartLang,
    ) == if test(i) {
        1nat
    } else {
        0nat
    } by {
        has_bad_part_lang_signal(d, i);
    }
    count_holds(d, Signal::InvalidPartLang, f.invalid_part_lang_attr_count, test);
    if exists|i: int| 0 <= i < d.len() && #[trigger] has_bad_part_lang(d[i]) {
        let i = choose|i: int| 0 <= i < d.len() && #[trigger] has_bad_part_lang(d[i]);
        assert(test(i));
    }
}

pub(crate) proof fn is_form_control_count(d: Seq<HtmlNode>, f: A11yVerifierFacts)
    requires
        facts_of(d, f),
    ensures
        is_count(d, f.form_control_count, |i: int| is_form_control(d[i])),
        f.form_control_count > 0 <==> exists|i: int|
            0 <= i < d.len() && #[trigger] is_form_control(d[i]),
{
    let test = |i: int| is_form_control(d[i]);
    assert forall|i: int| 0 <= i < d.len() implies #[trigger] signal(
        d,
        i,
        Signal::Control,
    ) == if test(i) {
        1nat
    } else {
        0nat
    } by {
        is_form_control_signal(d, i);
    }
    count_holds(d, Signal::Control, f.form_control_count, test);
    if exists|i: int| 0 <= i < d.len() && #[trigger] is_form_control(d[i]) {
        let i = choose|i: int| 0 <= i < d.len() && #[trigger] is_form_control(d[i]);
        assert(test(i));
    }
}

pub(crate) proof fn is_nameless_control_count(d: Seq<HtmlNode>, f: A11yVerifierFacts)
    requires
        facts_of(d, f),
    ensures
        is_count(d, f.unlabeled_form_control_count, |i: int| is_nameless_control(d, i)),
        f.unlabeled_form_control_count > 0 <==> exists|i: int|
            0 <= i < d.len() && #[trigger] is_nameless_control(d, i),
{
    let test = |i: int| is_nameless_control(d, i);
    assert forall|i: int| 0 <= i < d.len() implies #[trigger] signal(
        d,
        i,
        Signal::UnlabeledControl,
    ) == if test(i) {
        1nat
    } else {
        0nat
    } by {
        is_nameless_control_signal(d, i);
    }
    count_holds(d, Signal::UnlabeledControl, f.unlabeled_form_control_count, test);
    if exists|i: int| 0 <= i < d.len() && #[trigger] is_nameless_control(d, i) {
        let i = choose|i: int| 0 <= i < d.len() && #[trigger] is_nameless_control(d, i);
        assert(test(i));
    }
}

pub(crate) proof fn is_faulty_control_count(d: Seq<HtmlNode>, f: A11yVerifierFacts)
    requires
        facts_of(d, f),
    ensures
        is_count(d, f.invalid_form_control_count, |i: int| is_faulty_control(d[i])),
        f.invalid_form_control_count > 0 <==> exists|i: int|
            0 <= i < d.len() && #[trigger] is_faulty_control(d[i]),
{
    let test = |i: int| is_faulty_control(d[i]);
    assert forall|i: int| 0 <= i < d.len() implies #[trigger] signal(
        d,
        i,
        Signal::InvalidControl,
    ) == if test(i) {
        1nat
    } else {
        0nat
    } by {
        is_faulty_control_signal(d, i);
    }
    count_holds(d, Signal::InvalidControl, f.invalid_form_control_count, test);
    if exists|i: int| 0 <= i < d.len() && #[trigger] is_faulty_control(d[i]) {
        let i = choose|i: int| 0 <= i < d.len() && #[trigger] is_faulty_control(d[i]);
        assert(test(i));
    }
}

pub(crate) proof fn is_unexplained_fault_count(d: Seq<HtmlNode>, f: A11yVerifierFacts)
    requires
        facts_of(d, f),
    ensures
        is_count(d, f.unidentified_error_form_control_count, |i: int| is_unexplained_fault(d, i)),
        f.unidentified_error_form_control_count > 0 <==> exists|i: int|
            0 <= i < d.len() && #[trigger] is_unexplained_fault(d, i),
{
    let test = |i: int| is_unexplained_fault(d, i);
    assert forall|i: int| 0 <= i < d.len() implies #[trigger] signal(
        d,
        i,
        Signal::UnidentifiedError,
    ) == if test(i) {
        1nat
    } else {
        0nat
    } by {
        is_unexplained_fault_signal(d, i);
    }
    count_holds(d, Signal::UnidentifiedError, f.unidentified_error_form_control_count, test);
    if exists|i: int| 0 <= i < d.len() && #[trigger] is_unexplained_fault(d, i) {
        let i = choose|i: int| 0 <= i < d.len() && #[trigger] is_unexplained_fault(d, i);
        assert(test(i));
    }
}

/// Every count of the facts is the number of the nodes that it is named after.
pub proof fn counts_are_exact(d: Seq<HtmlNode>, f: A11yVerifierFacts)
    requires
        facts_of(d, f),
    ensures
        is_count(d, f.main_count, |i: int| is_main(d[i])),
        is_count(d, f.signature_semantic_count, |i: int| is_signature(d[i])),
        is_count(d, f.empty_heading_count, |i: int| is_empty_heading(d, i)),
        is_count(d, f.empty_label_count, |i: int| is_empty_label(d, i)),
        is_count(d, f.empty_aria_label_count, |i: int| has_empty_aria_label(d[i])),
        is_count(d, f.unlabeled_region_count, |i: int| is_unlabeled_region(d[i])),
        is_count(d, f.image_count, |i: int| is_picture(d[i])),
        is_count(d, f.image_missing_alt_count, |i: int| is_textless_picture(d[i])),
        is_count(d, f.image_title_only_count, |i: int| is_titled_picture(d[i])),
        is_count(d, f.image_semantic_conflict_count, |i: int| is_contradictory_picture(d[i])),
        is_count(d, f.redundant_role_native_count, |i: int| repeats_role(d[i])),
        is_count(d, f.tabindex_attr_count, |i: int| has_tabindex(d[i])),
        is_count(d, f.positive_tabindex_count, |i: int| has_positive_tabindex(d[i])),
        is_count(d, f.invalid_tabindex_count, |i: int| has_invalid_tabindex(d[i])),
        is_count(d, f.link_count, |i: int| is_anchor(d[i])),
        is_count(d, f.unnamed_link_count, |i: int| is_nameless_anchor(d, i)),
        is_count(d, f.generic_link_text_count, |i: int| is_vague_anchor(d, i)),
        is_count(d, f.custom_click_handler_count, |i: int| is_clickable(d[i])),
        is_count(d, f.pointer_only_click_handler_count, |i: int| is_clickable_only(d[i])),
        is_count(d, f.script_element_count, |i: int| is_script(d[i])),
        is_count(d, f.embedded_active_content_count, |i: int| is_embedded(d[i])),
        is_count(d, f.autoplay_media_count, |i: int| plays_by_itself(d[i])),
        is_count(d, f.blink_marquee_count, |i: int| blinks(d[i])),
        is_count(d, f.meta_refresh_count, |i: int| refreshes(d[i])),
        is_count(d, f.part_lang_attr_count, |i: int| has_part_lang(d[i])),
        is_count(d, f.invalid_part_lang_attr_count, |i: int| has_bad_part_lang(d[i])),
        is_count(d, f.form_control_count, |i: int| is_form_control(d[i])),
        is_count(d, f.unlabeled_form_control_count, |i: int| is_nameless_control(d, i)),
        is_count(d, f.invalid_form_control_count, |i: int| is_faulty_control(d[i])),
        is_count(d, f.unidentified_error_form_control_count, |i: int| is_unexplained_fault(d, i)),
{
    is_main_count(d, f);
    is_signature_count(d, f);
    is_empty_heading_count(d, f);
    is_empty_label_count(d, f);
    has_empty_aria_label_count(d, f);
    is_unlabeled_region_count(d, f);
    is_picture_count(d, f);
    is_textless_picture_count(d, f);
    is_titled_picture_count(d, f);
    is_contradictory_picture_count(d, f);
    repeats_role_count(d, f);
    has_tabindex_count(d, f);
    has_positive_tabindex_count(d, f);
    has_invalid_tabindex_count(d, f);
    is_anchor_count(d, f);
    is_nameless_anchor_count(d, f);
    is_vague_anchor_count(d, f);
    is_clickable_count(d, f);
    is_clickable_only_count(d, f);
    is_script_count(d, f);
    is_embedded_count(d, f);
    plays_by_itself_count(d, f);
    blinks_count(d, f);
    refreshes_count(d, f);
    has_part_lang_count(d, f);
    has_bad_part_lang_count(d, f);
    is_form_control_count(d, f);
    is_nameless_control_count(d, f);
    is_faulty_control_count(d, f);
    is_unexplained_fault_count(d, f);
}

// ---------------------------------------------------------------------------------------------
// Counts of more than one per node
// ---------------------------------------------------------------------------------------------
proof fn tally_above_nought(d: Seq<HtmlNode>, s: Signal, n: int)
    requires
        0 <= n <= d.len(),
    ensures
        tally_to(d, s, n) > 0 <==> exists|i: int| 0 <= i < n && #[trigger] signal(d, i, s) > 0,
    decreases n,
{
    if n > 0 {
        tally_above_nought(d, s, n - 1);
        if tally_to(d, s, n - 1) > 0 {
            let i = choose|i: int| 0 <= i < n - 1 && #[trigger] signal(d, i, s) > 0;
            assert(signal(d, i, s) > 0);
        } else if signal(d, n - 1, s) > 0 {
            assert(0 <= n - 1 < n);
        }
    }
}

/// An element that states a native state of its own once more.
pub open spec fn repeats_state(n: HtmlNode) -> bool {
    ||| attr(n, "disabled"@) is Some && says_yes(n, "aria-disabled"@)
    ||| attr(n, "required"@) is Some && says_yes(n, "aria-required"@)
    ||| attr(n, "readonly"@) is Some && says_yes(n, "aria-readonly"@)
    ||| has_tag(n, "input"@) && (reads(n, "type"@, "checkbox"@) || reads(n, "type"@, "radio"@))
        && attr(n, "checked"@) is Some && says_yes(n, "aria-checked"@)
    ||| has_tag(n, "option"@) && attr(n, "selected"@) is Some && says_yes(n, "aria-selected"@)
}

/// An element with an attribute that holds a script: its name starts with `on`, in either case, and
/// goes on.
pub open spec fn handles_events(n: HtmlNode) -> bool {
    exists|k: int|
        0 <= k < attributes(n).len() && {
            let name = (#[trigger] attributes(n)[k]).name@;
            name.len() > 2 && (name[0] == 'o' || name[0] == 'O') && (name[1] == 'n' || name[1]
                == 'N')
        }
}

proof fn handlers_above_nought(attrs: Seq<Attribute>)
    ensures
        event_handlers(attrs) > 0 <==> exists|k: int|
            0 <= k < attrs.len() && is_event_handler(#[trigger] attrs[k]),
    decreases attrs.len(),
{
    if attrs.len() > 0 {
        let before = attrs.drop_last();
        handlers_above_nought(before);
        if event_handlers(before) > 0 {
            let k = choose|k: int| 0 <= k < before.len() && is_event_handler(#[trigger] before[k]);
            assert(attrs[k] == before[k]);
        }
        if is_event_handler(attrs.last()) {
            assert(attrs[attrs.len() - 1] == attrs.last());
        }
        if exists|k: int| 0 <= k < attrs.len() && is_event_handler(#[trigger] attrs[k]) {
            let k = choose|k: int| 0 <= k < attrs.len() && is_event_handler(#[trigger] attrs[k]);
            if k < before.len() {
                assert(before[k] == attrs[k]);
            }
        }
    }
}

/// A native state is counted as repeated, and an attribute as an event handler, if and only if the
/// document has one.
pub proof fn other_counts_are_right(d: Seq<HtmlNode>, f: A11yVerifierFacts)
    requires
        facts_of(d, f),
    ensures
        f.redundant_state_native_count > 0 <==> exists|i: int|
            0 <= i < d.len() && #[trigger] repeats_state(d[i]),
        f.inline_event_handler_attr_count > 0 <==> exists|i: int|
            0 <= i < d.len() && #[trigger] handles_events(d[i]),
{
    let n = d.len() as int;
    tally_above_nought(d, Signal::RedundantState, n);
    tally_above_nought(d, Signal::EventHandler, n);
    assert forall|i: int| 0 <= i < n implies (#[trigger] signal(d, i, Signal::RedundantState) > 0)
        == repeats_state(d[i]) by {
        words_are_there(d[i]);
    }
    assert forall|i: int| 0 <= i < n implies (#[trigger] signal(d, i, Signal::EventHandler) > 0)
        == handles_events(d[i]) by {
        let attrs = attributes(d[i]);
        handlers_above_nought(attrs);
        if event_handlers(attrs) > 0 {
            let k = choose|k: int| 0 <= k < attrs.len() && is_event_handler(#[trigger] attrs[k]);
            assert(attributes(d[i])[k].name@.len() > 2);
        }
        if handles_events(d[i]) {
            let k = choose|k: int|
                0 <= k < attributes(d[i]).len() && {
                    let name = (#[trigger] attributes(d[i])[k]).name@;
                    name.len() > 2 && (name[0] == 'o' || name[0] == 'O') && (name[1] == 'n'
                        || name[1] == 'N')
                };
            assert(is_event_handler(attrs[k]));
        }
    }
    if f.redundant_state_native_count > 0 {
        let i = choose|i: int| 0 <= i < n && #[trigger] signal(d, i, Signal::RedundantState) > 0;
        assert(repeats_state(d[i]));
    }
    if exists|i: int| 0 <= i < d.len() && #[trigger] repeats_state(d[i]) {
        let i = choose|i: int| 0 <= i < d.len() && #[trigger] repeats_state(d[i]);
        assert(signal(d, i, Signal::RedundantState) > 0);
    }
    if f.inline_event_handler_attr_count > 0 {
        let i = choose|i: int| 0 <= i < n && #[trigger] signal(d, i, Signal::EventHandler) > 0;
        assert(handles_events(d[i]));
    }
    if exists|i: int| 0 <= i < d.len() && #[trigger] handles_events(d[i]) {
        let i = choose|i: int| 0 <= i < d.len() && #[trigger] handles_events(d[i]);
        assert(signal(d, i, Signal::EventHandler) > 0);
    }
}

// ---------------------------------------------------------------------------------------------
// Description lists
// ---------------------------------------------------------------------------------------------
/// Node `j` is a child of node `i`: it stands inside it, and inside nothing between the two.
pub open spec fn is_child(d: Seq<HtmlNode>, i: int, j: int) -> bool {
    &&& 0 <= i < j < d[i].end <= d.len()
    &&& forall|m: int| i < m < j ==> (#[trigger] d[m]).end <= j
}

/// Two children of one element that follow each other are both description lists.
pub open spec fn are_adjacent_lists(d: Seq<HtmlNode>, i: int, j: int) -> bool {
    &&& is_child(d, i, j)
    &&& d[j].end < d[i].end
    &&& has_tag(d[j], "dl"@)
    &&& has_tag(d[d[j].end as int], "dl"@)
}

/// The siblings from `j` on up to `end`.
spec fn sibling_places(d: Seq<HtmlNode>, j: int, end: int) -> Seq<int>
    decreases end - j,
{
    if !(j < d[j].end <= end) {
        Seq::empty()
    } else {
        seq![j] + sibling_places(d, d[j].end as int, end)
    }
}

proof fn places_are_siblings(d: Seq<HtmlNode>, j: int, end: int)
    ensures
        sibling_places(d, j, end).len() == siblings(d, j, end).len(),
        forall|k: int|
            0 <= k < siblings(d, j, end).len() ==> #[trigger] siblings(d, j, end)[k] == child_kind(
                d,
                sibling_places(d, j, end)[k],
            ),
    decreases end - j,
{
    if j < d[j].end <= end {
        let next = d[j].end as int;
        places_are_siblings(d, next, end);
        let rest = sibling_places(d, next, end);
        let kinds = siblings(d, next, end);
        let all = sibling_places(d, j, end);
        assert forall|k: int| 0 <= k < siblings(d, j, end).len() implies #[trigger] siblings(
            d,
            j,
            end,
        )[k] == child_kind(d, all[k]) by {
            if k > 0 {
                assert(siblings(d, j, end)[k] == kinds[k - 1]);
                assert(all[k] == rest[k - 1]);
            }
        }
    }
}

proof fn place_is_next(d: Seq<HtmlNode>, j: int, end: int, k: int)
    requires
        0 <= k < sibling_places(d, j, end).len(),
    ensures
        k == 0 ==> sibling_places(d, j, end)[k] == j,
        k > 0 ==> sibling_places(d, j, end)[k] == d[sibling_places(d, j, end)[k - 1]].end,
        sibling_places(d, j, end)[k] < d[sibling_places(d, j, end)[k]].end <= end,
    decreases k,
{
    let all = sibling_places(d, j, end);
    if k > 0 {
        let rest = sibling_places(d, d[j].end as int, end);
        place_is_next(d, d[j].end as int, end, k - 1);
        assert(all[k] == rest[k - 1]);
        if k > 1 {
            assert(all[k - 1] == rest[k - 2]);
        }
    }
}

proof fn children_are_places(d: Seq<HtmlNode>, i: int, start: int, j: int)
    requires
        is_document(d),
        is_child(d, i, j),
        i < start <= j,
    ensures
        exists|k: int|
            0 <= k < sibling_places(d, start, d[i].end as int).len() && #[trigger] sibling_places(
                d,
                start,
                d[i].end as int,
            )[k] == j,
    decreases j - start,
{
    let end = d[i].end as int;
    assert(nested_in(d, i, start));
    assert(start < d[start].end);
    let all = sibling_places(d, start, end);
    if start == j {
        assert(all[0] == j);
    } else {
        let next = d[start].end as int;
        assert(next <= j);
        children_are_places(d, i, next, j);
        let rest = sibling_places(d, next, end);
        let k = choose|k: int| 0 <= k < rest.len() && #[trigger] rest[k] == j;
        assert(all[k + 1] == j);
    }
}

proof fn places_are_children(d: Seq<HtmlNode>, i: int, start: int, k: int)
    requires
        is_document(d),
        0 <= i < d.len(),
        i < start,
        forall|m: int| i < m < start ==> (#[trigger] d[m]).end <= start,
        0 <= k < sibling_places(d, start, d[i].end as int).len(),
    ensures
        is_child(d, i, sibling_places(d, start, d[i].end as int)[k]),
    decreases k,
{
    let end = d[i].end as int;
    let all = sibling_places(d, start, end);
    if k > 0 {
        let next = d[start].end as int;
        let rest = sibling_places(d, next, end);
        assert(all[k] == rest[k - 1]);
        assert forall|m: int| i < m < next implies (#[trigger] d[m]).end <= next by {
            if m > start {
                assert(nested_in(d, start, m));
            }
        }
        places_are_children(d, i, next, k - 1);
    }
}

proof fn adjacent_above_nought(kids: Seq<ChildKind>)
    ensures
        adjacent_lists(kids) > 0 <==> exists|k: int|
            0 < k < kids.len() && is_list(#[trigger] kids[k]) && is_list(kids[k - 1]),
    decreases kids.len(),
{
    if kids.len() > 0 {
        let before = kids.drop_last();
        adjacent_above_nought(before);
        if adjacent_lists(before) > 0 {
            let k = choose|k: int|
                0 < k < before.len() && is_list(#[trigger] before[k]) && is_list(before[k - 1]);
            assert(is_list(kids[k]) && is_list(kids[k - 1]));
        }
        if kids.len() >= 2 && is_list(kids.last()) && is_list(kids[kids.len() - 2]) {
            assert(is_list(kids[kids.len() - 1]));
        }
        if exists|k: int|
            0 < k < kids.len() && is_list(#[trigger] kids[k]) && is_list(kids[k - 1]) {
            let k = choose|k: int|
                0 < k < kids.len() && is_list(#[trigger] kids[k]) && is_list(kids[k - 1]);
            if k < before.len() {
                assert(is_list(before[k]) && is_list(before[k - 1]));
            }
        }
    }
}

/// Description lists are counted as running into each other if and only if two of them follow each
/// other in one element.
pub proof fn fragments_are_adjacent_lists(d: Seq<HtmlNode>, f: A11yVerifierFacts)
    requires
        is_document(d),
        facts_of(d, f),
    ensures
        f.dl_fragmentation_count > 0 <==> exists|i: int, j: int|
            0 <= i < d.len() && #[trigger] are_adjacent_lists(d, i, j),
{
    let n = d.len() as int;
    tally_above_nought(d, Signal::DlFragment, n);
    if f.dl_fragmentation_count > 0 {
        let i = choose|i: int| 0 <= i < n && #[trigger] signal(d, i, Signal::DlFragment) > 0;
        let kids = children(d, i);
        adjacent_above_nought(kids);
        let k = choose|k: int|
            0 < k < kids.len() && is_list(#[trigger] kids[k]) && is_list(kids[k - 1]);
        let end = d[i].end as int;
        let all = sibling_places(d, i + 1, end);
        places_are_siblings(d, i + 1, end);
        places_are_children(d, i, i + 1, k - 1);
        place_is_next(d, i + 1, end, k);
        place_is_next(d, i + 1, end, k - 1);
        assert(kids[k] == child_kind(d, all[k]));
        assert(kids[k - 1] == child_kind(d, all[k - 1]));
        assert(are_adjacent_lists(d, i, all[k - 1]));
    }
    if exists|i: int, j: int| 0 <= i < d.len() && #[trigger] are_adjacent_lists(d, i, j) {
        let (i, j) = choose|i: int, j: int|
            0 <= i < d.len() && #[trigger] are_adjacent_lists(d, i, j);
        let end = d[i].end as int;
        let next = d[j].end as int;
        let all = sibling_places(d, i + 1, end);
        let kids = children(d, i);
        places_are_siblings(d, i + 1, end);
        children_are_places(d, i, i + 1, j);
        let k = choose|k: int| 0 <= k < all.len() && #[trigger] all[k] == j;
        assert forall|m: int| i < m < next implies (#[trigger] d[m]).end <= next by {
            if m > j {
                assert(nested_in(d, j, m));
            }
        }
        assert(is_child(d, i, next));
        children_are_places(d, i, i + 1, next);
        let l = choose|l: int| 0 <= l < all.len() && #[trigger] all[l] == next;
        places_follow(d, i + 1, end, k, l);
        assert(kids[l] == child_kind(d, all[l]));
        assert(kids[k] == child_kind(d, all[k]));
        adjacent_above_nought(kids);
        assert(is_list(kids[l]) && is_list(kids[l - 1]));
        assert(signal(d, i, Signal::DlFragment) > 0);
    }
}

proof fn places_rise(d: Seq<HtmlNode>, start: int, end: int, a: int, b: int)
    requires
        0 <= a < b < sibling_places(d, start, end).len(),
    ensures
        d[sibling_places(d, start, end)[a]].end <= sibling_places(d, start, end)[b],
    decreases b - a,
{
    place_is_next(d, start, end, b);
    if a < b - 1 {
        places_rise(d, start, end, a, b - 1);
        place_is_next(d, start, end, b - 1);
    }
}

proof fn places_follow(d: Seq<HtmlNode>, start: int, end: int, k: int, l: int)
    requires
        0 <= k < sibling_places(d, start, end).len(),
        0 <= l < sibling_places(d, start, end).len(),
        sibling_places(d, start, end)[l] == d[sibling_places(d, start, end)[k]].end,
    ensures
        l == k + 1,
{
    place_is_next(d, start, end, k);
    place_is_next(d, start, end, l);
    if l < k {
        places_rise(d, start, end, l, k);
    } else if l > k + 1 {
        place_is_next(d, start, end, k + 1);
        places_rise(d, start, end, k + 1, l);
    }
}

/// The children from `a` up to `b` are description lists with at most two complete groups, at least
/// two of them, and neither neighbour is a list.
pub open spec fn is_tiny_run(kids: Seq<ChildKind>, a: int, b: int) -> bool {
    &&& 0 <= a && a + 2 <= b <= kids.len()
    &&& forall|k: int| a <= k < b ==> #[trigger] kids[k] == ChildKind::Tiny
    &&& a > 0 ==> !is_list(kids[a - 1])
    &&& b < kids.len() ==> !is_list(kids[b])
}

proof fn open_runs_are_runs(kids: Seq<ChildKind>)
    ensures
        open_run(kids) <= kids.len(),
        forall|k: int|
            kids.len() - open_run(kids) <= k < kids.len() ==> is_list(#[trigger] kids[k]),
        open_run(kids) < kids.len() ==> !is_list(kids[kids.len() - open_run(kids) - 1]),
        open_tiny(kids) <= open_run(kids),
        open_tiny(kids) == open_run(kids) <==> forall|k: int|
            kids.len() - open_run(kids) <= k < kids.len() ==> #[trigger] kids[k] == ChildKind::Tiny,
    decreases kids.len(),
{
    if kids.len() > 0 && is_list(kids.last()) {
        let before = kids.drop_last();
        open_runs_are_runs(before);
        assert forall|k: int| kids.len() - open_run(kids) <= k < kids.len() implies is_list(
            #[trigger] kids[k],
        ) by {
            if k < before.len() {
                assert(before[k] == kids[k]);
            }
        }
        if open_tiny(kids) == open_run(kids) {
            assert forall|k: int|
                kids.len() - open_run(kids) <= k < kids.len() implies #[trigger] kids[k]
                == ChildKind::Tiny by {
                if k < before.len() {
                    assert(before[k] == kids[k]);
                }
            }
        }
        if forall|k: int|
            kids.len() - open_run(kids) <= k < kids.len() ==> #[trigger] kids[k]
                == ChildKind::Tiny {
            assert(kids[kids.len() - 1] == ChildKind::Tiny);
            assert forall|k: int|
                before.len() - open_run(before) <= k < before.len() implies #[trigger] before[k]
                == ChildKind::Tiny by {
                assert(kids[k] == before[k]);
            }
        }
    }
}

proof fn closing_above_nought(kids: Seq<ChildKind>)
    ensures
        closing_uniform(kids) > 0 <==> exists|a: int| #[trigger]
            is_tiny_run(kids, a, kids.len() as int),
{
    open_runs_are_runs(kids);
    let n = kids.len() as int;
    if closing_uniform(kids) > 0 {
        assert(is_tiny_run(kids, n - open_run(kids), n));
    }
    if exists|a: int| #[trigger] is_tiny_run(kids, a, n) {
        let a = choose|a: int| #[trigger] is_tiny_run(kids, a, n);
        let r = n - open_run(kids);
        if r > a {
            assert(kids[r - 1] == ChildKind::Tiny);
        } else if r < a {
            assert(is_list(kids[a - 1]));
        }
        assert(r == a);
    }
}

proof fn closed_above_nought(kids: Seq<ChildKind>)
    ensures
        closed_uniform(kids) > 0 <==> exists|a: int, b: int| #[trigger]
            is_tiny_run(kids, a, b) && b < kids.len(),
    decreases kids.len(),
{
    if kids.len() > 0 {
        let before = kids.drop_last();
        closed_above_nought(before);
        closing_above_nought(before);
        assert forall|a: int, b: int| b < before.len() implies #[trigger] is_tiny_run(kids, a, b)
            == is_tiny_run(before, a, b) by {
            assert forall|k: int| 0 <= k < before.len() implies #[trigger] before[k] == kids[k] by {}
            if is_tiny_run(kids, a, b) {
                assert forall|k: int| a <= k < b implies #[trigger] before[k]
                    == ChildKind::Tiny by {
                    assert(kids[k] == ChildKind::Tiny);
                }
            }
            if is_tiny_run(before, a, b) {
                assert forall|k: int| a <= k < b implies #[trigger] kids[k] == ChildKind::Tiny by {
                    assert(before[k] == ChildKind::Tiny);
                }
            }
        }
        let m = before.len() as int;
        assert forall|a: int| #[trigger] is_tiny_run(kids, a, m) == (is_tiny_run(before, a, m)
            && !is_list(kids.last())) by {
            if is_tiny_run(kids, a, m) {
                assert forall|k: int| a <= k < m implies #[trigger] before[k]
                    == ChildKind::Tiny by {
                    assert(kids[k] == ChildKind::Tiny);
                }
            }
            if is_tiny_run(before, a, m) {
                assert forall|k: int| a <= k < m implies #[trigger] kids[k] == ChildKind::Tiny by {
                    assert(before[k] == ChildKind::Tiny);
                }
            }
        }
        if closed_uniform(before) > 0 {
            let (a, b) = choose|a: int, b: int| #[trigger]
                is_tiny_run(before, a, b) && b < before.len();
            assert(is_tiny_run(kids, a, b));
        }
        if closing_uniform(before) > 0 && !is_list(kids.last()) {
            let a = choose|a: int| #[trigger] is_tiny_run(before, a, m);
            assert(is_tiny_run(kids, a, m));
        }
        if exists|a: int, b: int| #[trigger] is_tiny_run(kids, a, b) && b < kids.len() {
            let (a, b) = choose|a: int, b: int| #[trigger]
                is_tiny_run(kids, a, b) && b < kids.len();
            if b < m {
                assert(is_tiny_run(before, a, b));
            } else {
                assert(b == m);
                assert(is_tiny_run(before, a, m));
            }
        }
    }
}

/// Description lists are counted as uniform if and only if a run of them in one element holds
/// nothing but small ones.
pub proof fn uniform_lists_are_tiny_runs(d: Seq<HtmlNode>, f: A11yVerifierFacts)
    requires
        facts_of(d, f),
    ensures
        f.dl_group_consistency_count > 0 <==> exists|i: int, a: int, b: int|
            0 <= i < d.len() && #[trigger] is_tiny_run(children(d, i), a, b),
{
    let n = d.len() as int;
    tally_above_nought(d, Signal::DlUniform, n);
    if f.dl_group_consistency_count > 0 {
        let i = choose|i: int| 0 <= i < n && #[trigger] signal(d, i, Signal::DlUniform) > 0;
        let kids = children(d, i);
        closed_above_nought(kids);
        closing_above_nought(kids);
        if closed_uniform(kids) > 0 {
            let (a, b) = choose|a: int, b: int| #[trigger]
                is_tiny_run(kids, a, b) && b < kids.len();
            assert(is_tiny_run(children(d, i), a, b));
        } else {
            let a = choose|a: int| #[trigger] is_tiny_run(kids, a, kids.len() as int);
            assert(is_tiny_run(children(d, i), a, kids.len() as int));
        }
    }
    if exists|i: int, a: int, b: int|
        0 <= i < d.len() && #[trigger] is_tiny_run(children(d, i), a, b) {
        let (i, a, b) = choose|i: int, a: int, b: int|
            0 <= i < d.len() && #[trigger] is_tiny_run(children(d, i), a, b);
        let kids = children(d, i);
        closed_above_nought(kids);
        closing_above_nought(kids);
        assert(signal(d, i, Signal::DlUniform) > 0);
    }
}

} // verus!

//! What the accessibility verifier knows about a document.
use vstd::prelude::*;
use vstd::set_lib::*;

use crate::dom::{
    attr, attributes, count_tag, count_tag_with, first_tag, has_tag, is_document, text_contents,
    HtmlDocument, HtmlNode,
};
use crate::signals::{
    id_is_known, is_control, is_decorative, is_link, is_image, is_named_image, one_if, tally, tally_to, trimmed_value, Signal,
    children, uniform_lists_are_adjacent,
};
use crate::tally::{decorative, image, list_holds, named_image, trimmed_value_of};
use crate::text::{
    a11y_normalize_text, chars_of, join, join_strings, lower, lower_char, lowered, normalize,
    pieces, same, split_pieces, strings_of, texts, trim, trimmed, words, words_of, Breaks,
};

verus! {

broadcast use vstd::string::group_string_axioms;

// ---------------------------------------------------------------------------------------------
// Similar texts
// ---------------------------------------------------------------------------------------------
/// The characters that `char::to_lowercase` yields for a character.
pub uninterp spec fn unicode_lowercase(c: char) -> Seq<char>;

/// `char::to_lowercase`: the Unicode lower-case mapping of one character, which is a function of
/// the character alone. For an ASCII character it is the ASCII lower-case form.
#[verifier::external_body]
fn lowercase_chars(c: char) -> (r: Vec<char>)
    ensures
        r@ == unicode_lowercase(c),
        (c as u32) < 128 ==> r@ == seq![lower_char(c)],
{
    c.to_lowercase().collect()
}

/// The Unicode lower-case form of a text.
pub open spec fn lowercase_all(s: Seq<char>) -> Seq<char>
    decreases s.len(),
{
    if s.len() == 0 {
        Seq::empty()
    } else {
        lowercase_all(s.drop_last()) + unicode_lowercase(s.last())
    }
}

/// The words of letters and digits that occur in a text, whatever their case.
pub open spec fn text_tokens(s: Seq<char>) -> Set<Seq<char>> {
    pieces(lowercase_all(s), Breaks::NonAlphanumeric).to_set()
}

fn lowercase_text(s: &[char]) -> (out: Vec<char>)
    ensures
        out@ == lowercase_all(s@),
{
    let mut out: Vec<char> = Vec::new();
    let mut i: usize = 0;
    while i < s.len()
        invariant
            i <= s@.len(),
            out@ == lowercase_all(s@.take(i as int)),
        decreases s@.len() - i,
    {
        proof {
            assert(s@.take(i + 1).drop_last() =~= s@.take(i as int));
        }
        let mut low = lowercase_chars(s[i]);
        out.append(&mut low);
        i += 1;
    }
    proof {
        assert(s@.take(s@.len() as int) =~= s@);
    }
    out
}

/// The distinct words of letters and digits that occur in a text, whatever their case.
pub fn a11y_text_tokens(value: &str) -> (out: Vec<String>)
    ensures
        texts(out@).no_duplicates(),
        texts(out@).to_set() == text_tokens(value@),
{
    let all = strings_of(&split_pieces(&lowercase_text(&chars_of(value)), Breaks::NonAlphanumeric));
    let mut out: Vec<String> = Vec::new();
    proof {
        assert(texts(out@) =~= Seq::empty());
        assert(texts(all@).take(0) =~= Seq::empty());
    }
    add_distinct(&mut out, &all);
    proof {
        assert(texts(out@).to_set() =~= text_tokens(value@)) by {
            assert forall|x: Seq<char>|
                texts(out@).to_set().contains(x) <==> #[trigger] text_tokens(value@).contains(x) by {
                assert(texts(out@).contains(x) <==> texts(all@).contains(x));
            }
        }
    }
    out
}

/// Adds to `out` what `more` holds and `out` does not.
fn add_distinct(out: &mut Vec<String>, more: &Vec<String>)
    requires
        texts(old(out)@).no_duplicates(),
    ensures
        texts(final(out)@).no_duplicates(),
        forall|x: Seq<char>| #[trigger]
            texts(final(out)@).contains(x) <==> texts(old(out)@).contains(x) || texts(
                more@,
            ).contains(x),
{
    let mut i: usize = 0;
    proof {
        assert(texts(more@).take(0) =~= Seq::empty());
    }
    while i < more.len()
        invariant
            i <= more@.len(),
            texts(out@).no_duplicates(),
            forall|x: Seq<char>| #[trigger]
                texts(out@).contains(x) <==> texts(old(out)@).contains(x) || texts(
                    more@,
                ).take(i as int).contains(x),
        decreases more@.len() - i,
    {
        let ghost before = texts(out@);
        let ghost word = more@[i as int]@;
        let held = list_holds(out, &more[i]);
        if !held {
            out.push(more[i].clone());
            proof {
                assert(texts(out@) =~= before.push(word));
            }
        }
        proof {
            let prefix = texts(more@).take(i as int);
            assert(texts(more@).take(i + 1) =~= prefix.push(word));
            assert forall|x: Seq<char>|
                #[trigger] texts(out@).contains(x) <==> texts(old(out)@).contains(x) || texts(
                    more@,
                ).take(i + 1).contains(x) by {
                push_contains(prefix, word, x);
                push_contains(before, word, x);
                assert(before.contains(x) <==> texts(old(out)@).contains(x) || prefix.contains(x));
            }
        }
        i += 1;
    }
    proof {
        assert(texts(more@).take(more@.len() as int) =~= texts(more@));
    }
}

proof fn push_contains(s: Seq<Seq<char>>, w: Seq<char>, x: Seq<char>)
    ensures
        s.push(w).contains(x) <==> s.contains(x) || x == w,
{
    if s.contains(x) {
        let k = choose|k: int| 0 <= k < s.len() && s[k] == x;
        assert(s.push(w)[k] == x);
    }
    if x == w {
        assert(s.push(w)[s.len() as int] == x);
    }
    if s.push(w).contains(x) {
        let k = choose|k: int| 0 <= k < s.push(w).len() && s.push(w)[k] == x;
        if k < s.len() {
            assert(s[k] == x);
        }
    }
}

/// A part of a whole, such as the words that two texts share among all their words.
#[derive(Clone, Copy, PartialEq, Eq, Structural)]
pub struct Share {
    pub part: usize,
    pub whole: usize,
}

/// Whether the share `a` is larger than the share `b`.
pub open spec fn share_exceeds(a: Share, b: Share) -> bool {
    a.part * b.whole > b.part * a.whole
}

/// Whether the share is at least `part` out of `whole`.
pub open spec fn share_reaches(a: Share, b: Share) -> bool {
    a.part * b.whole >= b.part * a.whole
}

proof fn product_fits(a: usize, b: usize)
    ensures
        0 <= a * b <= u128::MAX,
{
    assert(0 <= a * b <= 0xffff_ffff_ffff_ffff * 0xffff_ffff_ffff_ffff) by (nonlinear_arith)
        requires
            0 <= a <= 0xffff_ffff_ffff_ffff,
            0 <= b <= 0xffff_ffff_ffff_ffff,
    ;
}

impl Share {
    /// Tells whether this share is larger than another.
    pub fn exceeds(&self, other: &Share) -> (r: bool)
        ensures
            r == share_exceeds(*self, *other),
    {
        proof {
            product_fits(self.part, other.whole);
            product_fits(other.part, self.whole);
        }
        (self.part as u128) * (other.whole as u128) > (other.part as u128) * (self.whole as u128)
    }

    /// Tells whether this share is at least as large as another.
    pub fn reaches(&self, other: &Share) -> (r: bool)
        ensures
            r == share_reaches(*self, *other),
    {
        proof {
            product_fits(self.part, other.whole);
            product_fits(other.part, self.whole);
        }
        (self.part as u128) * (other.whole as u128) >= (other.part as u128) * (self.whole as u128)
    }
}

/// The share of common words among the words of two texts; none when a text has no words.
pub open spec fn similarity(a: Seq<char>, b: Seq<char>) -> (nat, nat) {
    if text_tokens(a).len() == 0 || text_tokens(b).len() == 0 {
        (0, 1)
    } else {
        (
            text_tokens(a).intersect(text_tokens(b)).len(),
            text_tokens(a).union(text_tokens(b)).len(),
        )
    }
}

/// Similarity does not depend on the order of the texts.
pub proof fn similarity_is_symmetric(a: Seq<char>, b: Seq<char>)
    ensures
        similarity(a, b) == similarity(b, a),
{
    let x = text_tokens(a);
    let y = text_tokens(b);
    assert(x.intersect(y) =~= y.intersect(x));
    assert(x.union(y) =~= y.union(x));
}

/// A text with words is wholly similar to itself.
pub proof fn similarity_to_itself_is_whole(a: Seq<char>)
    requires
        text_tokens(a).len() > 0,
    ensures
        similarity(a, a).0 == similarity(a, a).1,
        similarity(a, a).0 > 0,
{
    let x = text_tokens(a);
    assert(x.intersect(x) =~= x);
    assert(x.union(x) =~= x);
}

/// The share of common words among the words of two texts.
pub fn a11y_text_similarity(a: &str, b: &str) -> (r: Share)
    ensures
        (r.part as nat, r.whole as nat) == similarity(a@, b@),
        r.part <= r.whole,
        r.whole > 0,
{
    let ta = a11y_text_tokens(a);
    let tb = a11y_text_tokens(b);
    proof {
        texts(ta@).unique_seq_to_set();
        texts(tb@).unique_seq_to_set();
    }
    if ta.len() == 0 || tb.len() == 0 {
        return Share { part: 0, whole: 1 };
    }
    let mut common: Vec<String> = Vec::new();
    let mut i: usize = 0;
    proof {
        assert(texts(common@) =~= Seq::empty());
    }
    while i < ta.len()
        invariant
            i <= ta@.len(),
            texts(ta@).no_duplicates(),
            common@.len() <= i,
            texts(common@).no_duplicates(),
            forall|x: Seq<char>| #[trigger]
                texts(common@).contains(x) <==> texts(ta@).take(i as int).contains(x) && texts(
                    tb@,
                ).contains(x),
        decreases ta@.len() - i,
    {
        let ghost before = texts(common@);
        let ghost word = ta@[i as int]@;
        let ghost prefix = texts(ta@).take(i as int);
        let held = list_holds(&tb, &ta[i]);
        proof {
            assert(texts(ta@).take(i + 1) =~= prefix.push(word));
            assert(!prefix.contains(word)) by {
                if prefix.contains(word) {
                    let k = choose|k: int| 0 <= k < prefix.len() && prefix[k] == word;
                    assert(texts(ta@)[k] == texts(ta@)[i as int]);
                }
            }
        }
        if held {
            common.push(ta[i].clone());
            proof {
                assert(!before.contains(word));
                assert(texts(common@) =~= before.push(word));
            }
        }
        proof {
            assert forall|x: Seq<char>|
                #[trigger] texts(common@).contains(x) <==> texts(ta@).take(i + 1).contains(x)
                    && texts(tb@).contains(x) by {
                push_contains(prefix, word, x);
                push_contains(before, word, x);
                assert(before.contains(x) <==> prefix.contains(x) && texts(tb@).contains(x));
            }
        }
        i += 1;
    }
    let mut all = clone_strings(&ta);
    add_distinct(&mut all, &tb);
    proof {
        assert(texts(ta@).take(ta@.len() as int) =~= texts(ta@));
        let sa = text_tokens(a@);
        let sb = text_tokens(b@);
        texts(common@).unique_seq_to_set();
        texts(all@).unique_seq_to_set();
        assert(texts(common@).to_set() =~= sa.intersect(sb)) by {
            assert forall|x: Seq<char>|
                texts(common@).to_set().contains(x) <==> #[trigger] sa.intersect(sb).contains(x) by {
                assert(texts(common@).contains(x) <==> texts(ta@).contains(x) && texts(
                    tb@,
                ).contains(x));
                assert(texts(ta@).to_set().contains(x) <==> sa.contains(x));
                assert(texts(tb@).to_set().contains(x) <==> sb.contains(x));
            }
        }
        assert(texts(all@).to_set() =~= sa.union(sb)) by {
            assert forall|x: Seq<char>|
                texts(all@).to_set().contains(x) <==> #[trigger] sa.union(sb).contains(x) by {
                assert(texts(all@).contains(x) <==> texts(ta@).contains(x) || texts(
                    tb@,
                ).contains(x));
                assert(texts(ta@).to_set().contains(x) <==> sa.contains(x));
                assert(texts(tb@).to_set().contains(x) <==> sb.contains(x));
            }
        }
        assert(texts(ta@).to_set().finite());
        assert(sa.intersect(sb).subset_of(sa.union(sb)));
        assert(texts(all@).to_set().finite());
        lemma_len_subset(sa.intersect(sb), sa.union(sb));
        lemma_len_subset(sa, sa.union(sb));
    }
    Share { part: common.len(), whole: all.len() }
}

/// Copies a list of strings.
pub fn clone_strings(list: &Vec<String>) -> (out: Vec<String>)
    ensures
        texts(out@) == texts(list@),
{
    let mut out: Vec<String> = Vec::new();
    let mut i: usize = 0;
    while i < list.len()
        invariant
            i <= list@.len(),
            out@.len() == i,
            forall|k: int| 0 <= k < i ==> out@[k]@ == #[trigger] list@[k]@,
        decreases list@.len() - i,
    {
        out.push(list[i].clone());
        i += 1;
    }
    proof {
        assert(texts(out@) =~= texts(list@));
    }
    out
}

// ---------------------------------------------------------------------------------------------
// Identifiers and references
// ---------------------------------------------------------------------------------------------
/// The ids of the first `n` nodes, in document order.
pub open spec fn ids(d: Seq<HtmlNode>, n: int) -> Seq<Seq<char>>
    decreases n,
{
    if n <= 0 {
        Seq::empty()
    } else {
        match trimmed_value(d[n - 1], "id"@) {
            Some(id) => ids(d, n - 1).push(id),
            None => ids(d, n - 1),
        }
    }
}

/// How often `x` occurs in a list.
pub open spec fn occurrences(list: Seq<Seq<char>>, x: Seq<char>) -> nat
    decreases list.len(),
{
    if list.len() == 0 {
        0
    } else {
        occurrences(list.drop_last(), x) + (if list.last() == x {
            1nat
        } else {
            0nat
        })
    }
}

/// What occurs more than once, in the order in which the second occurrences stand.
pub open spec fn repeated(list: Seq<Seq<char>>) -> Seq<Seq<char>>
    decreases list.len(),
{
    if list.len() == 0 {
        Seq::empty()
    } else if occurrences(list.drop_last(), list.last()) == 1 {
        repeated(list.drop_last()).push(list.last())
    } else {
        repeated(list.drop_last())
    }
}

fn occurrence_count(list: &Vec<String>, x: &str) -> (r: usize)
    ensures
        r == occurrences(texts(list@), x@),
{
    let mut r: usize = 0;
    let mut i: usize = 0;
    while i < list.len()
        invariant
            i <= list@.len(),
            r == occurrences(texts(list@).take(i as int), x@),
            r <= i,
        decreases list@.len() - i,
    {
        proof {
            assert(texts(list@).take(i + 1).drop_last() =~= texts(list@).take(i as int));
        }
        if same(&list[i], x) {
            r += 1;
        }
        i += 1;
    }
    proof {
        assert(texts(list@).take(list@.len() as int) =~= texts(list@));
    }
    r
}

fn duplicate_ids_of(doc: &HtmlDocument) -> (out: Vec<String>)
    ensures
        texts(out@) == repeated(ids(doc.nodes@, doc.nodes@.len() as int)),
{
    let mut seen: Vec<String> = Vec::new();
    let mut out: Vec<String> = Vec::new();
    let mut i: usize = 0;
    proof {
        assert(texts(seen@) =~= Seq::empty());
        assert(texts(out@) =~= Seq::empty());
    }
    while i < doc.nodes.len()
        invariant
            i <= doc.nodes@.len(),
            texts(seen@) == ids(doc.nodes@, i as int),
            texts(out@) == repeated(ids(doc.nodes@, i as int)),
        decreases doc.nodes@.len() - i,
    {
        match trimmed_value_of(&doc.nodes[i], "id") {
            Some(id) => {
                let ghost before = texts(seen@);
                let ghost found = texts(out@);
                let earlier: usize = occurrence_count(&seen, &id);
                if earlier == 1 {
                    out.push(id.clone());
                    proof {
                        assert(texts(out@) =~= found.push(id@));
                    }
                }
                let ghost key = id@;
                seen.push(id);
                proof {
                    assert(texts(seen@) =~= before.push(key));
                    assert(before.push(key).drop_last() =~= before);
                }
            },
            None => {},
        }
        i += 1;
    }
    out
}

/// The words that are no id, each with the name of the attribute that holds it.
pub open spec fn dangling_words(
    d: Seq<HtmlNode>,
    name: Seq<char>,
    list: Seq<Seq<char>>,
) -> Seq<(Seq<char>, Seq<char>)>
    decreases list.len(),
{
    if list.len() == 0 {
        Seq::empty()
    } else if id_is_known(d, list.last()) {
        dangling_words(d, name, list.drop_last())
    } else {
        dangling_words(d, name, list.drop_last()).push((name, list.last()))
    }
}

/// The references of one attribute of a node that point nowhere.
pub open spec fn dangling(d: Seq<HtmlNode>, n: HtmlNode, name: Seq<char>) -> Seq<
    (Seq<char>, Seq<char>),
> {
    match attr(n, name) {
        Some(v) => dangling_words(d, name, words(v)),
        None => Seq::empty(),
    }
}

/// The label and description references of the first `n` nodes that point nowhere.
pub open spec fn dangling_refs(d: Seq<HtmlNode>, n: int) -> Seq<(Seq<char>, Seq<char>)>
    decreases n,
{
    if n <= 0 {
        Seq::empty()
    } else {
        dangling_refs(d, n - 1) + dangling(d, d[n - 1], "aria-labelledby"@) + dangling(
            d,
            d[n - 1],
            "aria-describedby"@,
        )
    }
}

/// The views of a list of string pairs.
pub open spec fn pairs(v: Seq<(String, String)>) -> Seq<(Seq<char>, Seq<char>)> {
    Seq::new(v.len(), |i: int| (v[i].0@, v[i].1@))
}

fn add_dangling(out: &mut Vec<(String, String)>, known: &Vec<String>, doc: &HtmlDocument, i: usize, name: &str)
    requires
        i < doc.nodes@.len(),
        forall|x: Seq<char>| #[trigger]
            texts(known@).contains(x) <==> id_is_known(doc.nodes@, x),
    ensures
        pairs(final(out)@) == pairs(old(out)@) + dangling(doc.nodes@, doc.nodes@[i as int], name@),
{
    let ghost start = pairs(out@);
    match doc.nodes[i].get(name) {
        Some(v) => {
            let list = words_of(v);
            let mut k: usize = 0;
            proof {
                assert(texts(list@).take(0) =~= Seq::empty());
                assert(start + Seq::<(Seq<char>, Seq<char>)>::empty() =~= start);
            }
            while k < list.len()
                invariant
                    k <= list@.len(),
                    forall|x: Seq<char>| #[trigger]
                        texts(known@).contains(x) <==> id_is_known(doc.nodes@, x),
                    pairs(out@) == start + dangling_words(
                        doc.nodes@,
                        name@,
                        texts(list@).take(k as int),
                    ),
                decreases list@.len() - k,
            {
                let ghost before = pairs(out@);
                proof {
                    assert(texts(list@).take(k + 1).drop_last() =~= texts(list@).take(k as int));
                    assert(texts(list@).take(k + 1).last() == list@[k as int]@);
                }
                if !list_holds(known, &list[k]) {
                    out.push((name.to_owned(), list[k].clone()));
                    proof {
                        assert(pairs(out@) =~= before.push((name@, list@[k as int]@)));
                        let old_words = dangling_words(
                            doc.nodes@,
                            name@,
                            texts(list@).take(k as int),
                        );
                        assert(start + old_words.push((name@, list@[k as int]@)) =~= (start
                            + old_words).push((name@, list@[k as int]@)));
                    }
                }
                k += 1;
            }
            proof {
                assert(texts(list@).take(list@.len() as int) =~= texts(list@));
            }
        },
        None => {
            proof {
                assert(start + Seq::<(Seq<char>, Seq<char>)>::empty() =~= start);
            }
        },
    }
}

/// An id is known exactly when it is among the ids of the document.
proof fn known_ids(d: Seq<HtmlNode>, n: int, x: Seq<char>)
    requires
        0 <= n <= d.len(),
    ensures
        ids(d, n).contains(x) <==> exists|j: int|
            0 <= j < n && trimmed_value(#[trigger] d[j], "id"@) == Some(x),
    decreases n,
{
    if n > 0 {
        known_ids(d, n - 1, x);
        match trimmed_value(d[n - 1], "id"@) {
            Some(id) => {
                push_contains(ids(d, n - 1), id, x);
            },
            None => {},
        }
    }
}

fn all_ids(doc: &HtmlDocument) -> (out: Vec<String>)
    ensures
        forall|x: Seq<char>| #[trigger]
            texts(out@).contains(x) <==> id_is_known(doc.nodes@, x),
{
    let mut out: Vec<String> = Vec::new();
    let mut i: usize = 0;
    proof {
        assert(texts(out@) =~= Seq::empty());
    }
    while i < doc.nodes.len()
        invariant
            i <= doc.nodes@.len(),
            texts(out@) == ids(doc.nodes@, i as int),
        decreases doc.nodes@.len() - i,
    {
        match trimmed_value_of(&doc.nodes[i], "id") {
            Some(id) => {
                let ghost before = texts(out@);
                let ghost key = id@;
                out.push(id);
                proof {
                    assert(texts(out@) =~= before.push(key));
                }
            },
            None => {},
        }
        i += 1;
    }
    proof {
        assert forall|x: Seq<char>| #[trigger]
            texts(out@).contains(x) <==> id_is_known(doc.nodes@, x) by {
            known_ids(doc.nodes@, doc.nodes@.len() as int, x);
        }
    }
    out
}

fn missing_idrefs_of(doc: &HtmlDocument) -> (out: Vec<(String, String)>)
    ensures
        pairs(out@) == dangling_refs(doc.nodes@, doc.nodes@.len() as int),
{
    let known = all_ids(doc);
    let mut out: Vec<(String, String)> = Vec::new();
    let mut i: usize = 0;
    proof {
        assert(pairs(out@) =~= Seq::empty());
    }
    while i < doc.nodes.len()
        invariant
            i <= doc.nodes@.len(),
            forall|x: Seq<char>| #[trigger]
                texts(known@).contains(x) <==> id_is_known(doc.nodes@, x),
            pairs(out@) == dangling_refs(doc.nodes@, i as int),
        decreases doc.nodes@.len() - i,
    {
        add_dangling(&mut out, &known, doc, i, "aria-labelledby");
        add_dangling(&mut out, &known, doc, i, "aria-describedby");
        i += 1;
    }
    out
}

// ---------------------------------------------------------------------------------------------
// Style sheets and tables
// ---------------------------------------------------------------------------------------------
/// The target of a style sheet link.
pub open spec fn css_href(n: HtmlNode) -> Option<Seq<char>> {
    match attr(n, "rel"@) {
        Some(rel) => if words(lower(rel)).contains("stylesheet"@) {
            trimmed_value(n, "href"@)
        } else {
            None
        },
        None => None,
    }
}

/// The style sheets that the first `n` nodes link to.
pub open spec fn css_hrefs(d: Seq<HtmlNode>, n: int) -> Seq<Seq<char>>
    decreases n,
{
    if n <= 0 {
        Seq::empty()
    } else {
        match css_href(d[n - 1]) {
            Some(href) => css_hrefs(d, n - 1).push(href),
            None => css_hrefs(d, n - 1),
        }
    }
}

fn css_hrefs_of(doc: &HtmlDocument) -> (out: Vec<String>)
    ensures
        texts(out@) == css_hrefs(doc.nodes@, doc.nodes@.len() as int),
{
    let mut out: Vec<String> = Vec::new();
    let mut i: usize = 0;
    proof {
        assert(texts(out@) =~= Seq::empty());
    }
    while i < doc.nodes.len()
        invariant
            i <= doc.nodes@.len(),
            texts(out@) == css_hrefs(doc.nodes@, i as int),
        decreases doc.nodes@.len() - i,
    {
        let n = &doc.nodes[i];
        let linked = match n.get("rel") {
            Some(rel) => list_holds(&words_of(&lowered(rel)), "stylesheet"),
            None => false,
        };
        if linked {
            match trimmed_value_of(n, "href") {
                Some(href) => {
                    let ghost before = texts(out@);
                    let ghost target = href@;
                    out.push(href);
                    proof {
                        assert(texts(out@) =~= before.push(target));
                    }
                },
                None => {},
            }
        }
        i += 1;
    }
    out
}

/// What the verifier counts in one table.
pub struct HtmlTableFacts {
    pub has_caption: bool,
    pub th_count: usize,
    pub th_scope_count: usize,
}

/// What is to be counted in the table at node `i`.
pub open spec fn table_facts(d: Seq<HtmlNode>, i: int) -> (bool, nat, nat) {
    let end = d[i].end as int;
    (
        count_tag(d, i, end, "caption"@) > 0,
        count_tag(d, i, end, "th"@),
        count_tag_with(d, i, end, "th"@, "scope"@),
    )
}

/// The tables among the first `n` nodes.
pub open spec fn tables(d: Seq<HtmlNode>, n: int) -> Seq<(bool, nat, nat)>
    decreases n,
{
    if n <= 0 {
        Seq::empty()
    } else if has_tag(d[n - 1], "table"@) {
        tables(d, n - 1).push(table_facts(d, n - 1))
    } else {
        tables(d, n - 1)
    }
}

/// The table facts as plain numbers.
pub open spec fn table_rows(v: Seq<HtmlTableFacts>) -> Seq<(bool, nat, nat)> {
    Seq::new(v.len(), |i: int| (v[i].has_caption, v[i].th_count as nat, v[i].th_scope_count as nat))
}

fn tables_of(doc: &HtmlDocument) -> (out: Vec<HtmlTableFacts>)
    requires
        is_document(doc.nodes@),
    ensures
        table_rows(out@) == tables(doc.nodes@, doc.nodes@.len() as int),
{
    let mut out: Vec<HtmlTableFacts> = Vec::new();
    let mut i: usize = 0;
    proof {
        assert(table_rows(out@) =~= Seq::empty());
    }
    while i < doc.nodes.len()
        invariant
            is_document(doc.nodes@),
            i <= doc.nodes@.len(),
            table_rows(out@) == tables(doc.nodes@, i as int),
        decreases doc.nodes@.len() - i,
    {
        if doc.nodes[i].is_tag("table") {
            let end: usize = doc.nodes[i].end;
            let ghost before = table_rows(out@);
            out.push(
                HtmlTableFacts {
                    has_caption: doc.count_tag(i, end, "caption") > 0,
                    th_count: doc.count_tag(i, end, "th"),
                    th_scope_count: doc.count_tag_with(i, end, "th", "scope"),
                },
            );
            proof {
                assert(table_rows(out@) =~= before.push(table_facts(doc.nodes@, i as int)));
            }
        }
        i += 1;
    }
    out
}

/// A header cell that says its scope is a header cell.
pub proof fn scoped_headers_are_headers(d: Seq<HtmlNode>, a: int, b: int)
    ensures
        count_tag_with(d, a, b, "th"@, "scope"@) <= count_tag(d, a, b, "th"@),
    decreases b - a,
{
    if a < b {
        scoped_headers_are_headers(d, a, b - 1);
    }
}

// ---------------------------------------------------------------------------------------------
// Figures
// ---------------------------------------------------------------------------------------------
/// How long an alternative text should be at most.
pub const FIGURE_ALT_LENGTH_BUDGET: usize = 150;

/// An image that tells something.
pub open spec fn is_informative(n: HtmlNode) -> bool {
    is_image(n) && !is_decorative(n)
}

/// The captions among the nodes from `a` up to `b`.
pub open spec fn captions(d: Seq<HtmlNode>, a: int, b: int) -> Seq<Seq<char>>
    decreases b - a,
{
    if b <= a {
        Seq::empty()
    } else if has_tag(d[b - 1], "figcaption"@) {
        captions(d, a, b - 1).push(text_contents(d, b - 1))
    } else {
        captions(d, a, b - 1)
    }
}

/// The caption of the figure at node `i`, with its white space collapsed.
pub open spec fn caption_text(d: Seq<HtmlNode>, i: int) -> Seq<char> {
    normalize(join(captions(d, i, d[i].end as int), " "@))
}

/// How many of the nodes from `a` up to `b` are informative images.
pub open spec fn informative_count(d: Seq<HtmlNode>, a: int, b: int) -> nat
    decreases b - a,
{
    if b <= a {
        0
    } else {
        informative_count(d, a, b - 1) + (if is_informative(d[b - 1]) {
            1nat
        } else {
            0nat
        })
    }
}

/// An informative image among the nodes from `a` up to `b` carries a text alternative.
pub open spec fn some_named(d: Seq<HtmlNode>, a: int, b: int) -> bool {
    exists|k: int| a <= k < b && is_informative(#[trigger] d[k]) && is_named_image(d[k])
}

/// The alternative texts of the informative images from `a` up to `b` that hold a word.
pub open spec fn alt_texts(d: Seq<HtmlNode>, a: int, b: int) -> Seq<Seq<char>>
    decreases b - a,
{
    if b <= a {
        Seq::empty()
    } else if is_informative(d[b - 1]) && attr(d[b - 1], "alt"@) is Some && normalize(
        attr(d[b - 1], "alt"@)->0,
    ).len() > 0 {
        alt_texts(d, a, b - 1).push(normalize(attr(d[b - 1], "alt"@)->0))
    } else {
        alt_texts(d, a, b - 1)
    }
}

/// The longest text of a list, the last one where several are equally long.
pub open spec fn longest(list: Seq<Seq<char>>) -> Seq<char>
    decreases list.len(),
{
    if list.len() == 0 {
        Seq::empty()
    } else if list.last().len() >= longest(list.drop_last()).len() {
        list.last()
    } else {
        longest(list.drop_last())
    }
}

/// What the verifier reads off one figure.
struct FigureReading {
    informative: bool,
    named: bool,
    caption: String,
    longest_alt: String,
}

spec fn reads_figure(d: Seq<HtmlNode>, i: int, r: FigureReading) -> bool {
    let end = d[i].end as int;
    &&& r.informative == (informative_count(d, i, end) > 0)
    &&& r.named == some_named(d, i, end)
    &&& r.caption@ == caption_text(d, i)
    &&& r.longest_alt@ == longest(alt_texts(d, i, end))
}

fn read_figure(doc: &HtmlDocument, i: usize) -> (r: FigureReading)
    requires
        is_document(doc.nodes@),
        i < doc.nodes@.len(),
    ensures
        reads_figure(doc.nodes@, i as int, r),
{
    let end: usize = doc.nodes[i].end;
    let mut caps: Vec<String> = Vec::new();
    let mut informative = false;
    let mut named = false;
    let mut best: Vec<char> = Vec::new();
    let mut j: usize = i;
    proof {
        assert(texts(caps@) =~= Seq::empty());
        assert(best@ =~= Seq::empty());
    }
    while j < end
        invariant
            is_document(doc.nodes@),
            i <= j <= end <= doc.nodes@.len(),
            texts(caps@) == captions(doc.nodes@, i as int, j as int),
            informative == (informative_count(doc.nodes@, i as int, j as int) > 0),
            named == some_named(doc.nodes@, i as int, j as int),
            best@ == longest(alt_texts(doc.nodes@, i as int, j as int)),
        decreases end - j,
    {
        let n = &doc.nodes[j];
        if n.is_tag("figcaption") {
            let ghost before = texts(caps@);
            caps.push(doc.text_contents(j));
            proof {
                assert(texts(caps@) =~= before.push(text_contents(doc.nodes@, j as int)));
            }
        }
        if image(n) && !decorative(n) {
            informative = true;
            let named_here = named_image(n);
            proof {
                assert(some_named(doc.nodes@, i as int, j + 1) == (some_named(
                    doc.nodes@,
                    i as int,
                    j as int,
                ) || is_named_image(doc.nodes@[j as int]))) by {
                    if is_named_image(doc.nodes@[j as int]) {
                        assert(is_informative(doc.nodes@[j as int]));
                    }
                }
            }
            named = named || named_here;
            match n.get("alt") {
                Some(alt) => {
                    let plain = chars_of(&a11y_normalize_text(alt));
                    if plain.len() > 0 {
                        proof {
                            let before = alt_texts(doc.nodes@, i as int, j as int);
                            assert(before.push(plain@).drop_last() =~= before);
                        }
                        if plain.len() >= best.len() {
                            best = plain;
                        }
                    }
                },
                None => {},
            }
        }
        j += 1;
    }
    let caption = a11y_normalize_text(&join_strings(&caps, " "));
    FigureReading { informative, named, caption, longest_alt: crate::text::text_of(&best) }
}

/// What the figures of a document say together.
pub struct FigureTotals {
    pub informative: usize,
    pub over_budget: usize,
    pub max_alt_len: usize,
    pub redundant: usize,
    pub max_similarity: Share,
    pub missing_text: usize,
}

/// The same as plain numbers; the similarity is `best_part` out of `best_whole`.
pub struct FigureSums {
    pub informative: nat,
    pub over_budget: nat,
    pub max_alt_len: nat,
    pub redundant: nat,
    pub best_part: nat,
    pub best_whole: nat,
    pub missing_text: nat,
}

impl FigureTotals {
    /// The totals as plain numbers.
    pub open spec fn sums(self) -> FigureSums {
        FigureSums {
            informative: self.informative as nat,
            over_budget: self.over_budget as nat,
            max_alt_len: self.max_alt_len as nat,
            redundant: self.redundant as nat,
            best_part: self.max_similarity.part as nat,
            best_whole: self.max_similarity.whole as nat,
            missing_text: self.missing_text as nat,
        }
    }
}

/// The sums after the figure at node `i`. A figure counts when it holds an informative image. Its
/// longest alternative text is held against the length budget and, where there is a caption,
/// against the caption: from four words in five on, the caption repeats it.
pub open spec fn add_figure(t: FigureSums, d: Seq<HtmlNode>, i: int) -> FigureSums {
    let end = d[i].end as int;
    let caption = caption_text(d, i);
    let alt = longest(alt_texts(d, i, end));
    let compared = alt.len() > 0 && caption.len() > 0;
    let (part, whole) = similarity(alt, caption);
    let better = compared && part * t.best_whole > t.best_part * whole;
    if informative_count(d, i, end) == 0 {
        t
    } else {
        FigureSums {
            informative: t.informative + 1,
            over_budget: t.over_budget + one_if(alt.len() > FIGURE_ALT_LENGTH_BUDGET),
            max_alt_len: if alt.len() > t.max_alt_len {
                alt.len()
            } else {
                t.max_alt_len
            },
            redundant: t.redundant + one_if(compared && part * 5 >= 4 * whole),
            best_part: if better {
                part
            } else {
                t.best_part
            },
            best_whole: if better {
                whole
            } else {
                t.best_whole
            },
            missing_text: t.missing_text + one_if(!some_named(d, i, end) && caption.len() == 0),
        }
    }
}

/// The sums over the figures among the first `n` nodes.
pub open spec fn figure_sums(d: Seq<HtmlNode>, n: int) -> FigureSums
    decreases n,
{
    if n <= 0 {
        FigureSums {
            informative: 0,
            over_budget: 0,
            max_alt_len: 0,
            redundant: 0,
            best_part: 0,
            best_whole: 1,
            missing_text: 0,
        }
    } else if has_tag(d[n - 1], "figure"@) {
        add_figure(figure_sums(d, n - 1), d, n - 1)
    } else {
        figure_sums(d, n - 1)
    }
}

fn figure_totals(doc: &HtmlDocument) -> (t: FigureTotals)
    requires
        is_document(doc.nodes@),
    ensures
        t.sums() == figure_sums(doc.nodes@, doc.nodes@.len() as int),
{
    let mut t = FigureTotals {
        informative: 0,
        over_budget: 0,
        max_alt_len: 0,
        redundant: 0,
        max_similarity: Share { part: 0, whole: 1 },
        missing_text: 0,
    };
    let threshold = Share { part: 4, whole: 5 };
    let mut i: usize = 0;
    while i < doc.nodes.len()
        invariant
            is_document(doc.nodes@),
            i <= doc.nodes@.len(),
            threshold == (Share { part: 4, whole: 5 }),
            t.sums() == figure_sums(doc.nodes@, i as int),
            t.informative <= i,
            t.over_budget <= i,
            t.redundant <= i,
            t.missing_text <= i,
        decreases doc.nodes@.len() - i,
    {
        if doc.nodes[i].is_tag("figure") {
            let r = read_figure(doc, i);
            let s = a11y_text_similarity(&r.longest_alt, &r.caption);
            if r.informative {
                let alt_len: usize = chars_of(&r.longest_alt).len();
                let caption_empty = r.caption.as_str().is_empty();
                t.informative = t.informative + 1;
                if alt_len > t.max_alt_len {
                    t.max_alt_len = alt_len;
                }
                if alt_len > FIGURE_ALT_LENGTH_BUDGET {
                    t.over_budget = t.over_budget + 1;
                }
                if !r.named && caption_empty {
                    t.missing_text = t.missing_text + 1;
                }
                if alt_len > 0 && !caption_empty {
                    if s.exceeds(&t.max_similarity) {
                        t.max_similarity = s;
                    }
                    if s.reaches(&threshold) {
                        t.redundant = t.redundant + 1;
                    }
                }
            }
            proof {
                assert(t.sums() == add_figure(
                    figure_sums(doc.nodes@, i as int),
                    doc.nodes@,
                    i as int,
                ));
            }
        }
        i += 1;
    }
    t
}

// ---------------------------------------------------------------------------------------------
// All facts
// ---------------------------------------------------------------------------------------------
/// What the accessibility verifier knows about a document.
pub struct A11yVerifierFacts {
    pub html_lang: Option<String>,
    pub title: String,
    pub duplicate_ids: Vec<String>,
    pub missing_idrefs: Vec<(String, String)>,
    pub has_html_wrapper: bool,
    pub has_css_link: bool,
    pub css_link_hrefs: Vec<String>,
    pub figure_informative_count: usize,
    pub figure_alt_length_budget: usize,
    pub figure_alt_over_budget_count: usize,
    pub figure_max_alt_len: usize,
    pub figure_caption_redundancy_threshold: Share,
    pub figure_caption_redundancy_count: usize,
    pub figure_max_caption_similarity: Share,
    pub figure_missing_effective_text_count: usize,
    pub tables: Vec<HtmlTableFacts>,
    pub body_text: String,
    pub part_lang_attr_count: usize,
    pub invalid_part_lang_attr_count: usize,
    pub main_count: usize,
    pub signature_semantic_count: usize,
    pub empty_heading_count: usize,
    pub empty_label_count: usize,
    pub empty_aria_label_count: usize,
    pub unlabeled_region_count: usize,
    pub image_count: usize,
    pub image_missing_alt_count: usize,
    pub image_title_only_count: usize,
    pub image_semantic_conflict_count: usize,
    pub dl_block_count: usize,
    pub dl_fragmentation_count: usize,
    pub dl_group_consistency_count: usize,
    pub redundant_role_native_count: usize,
    pub redundant_state_native_count: usize,
    pub form_control_count: usize,
    pub unlabeled_form_control_count: usize,
    pub invalid_form_control_count: usize,
    pub unidentified_error_form_control_count: usize,
    pub tabindex_attr_count: usize,
    pub positive_tabindex_count: usize,
    pub invalid_tabindex_count: usize,
    pub link_count: usize,
    pub unnamed_link_count: usize,
    pub generic_link_text_count: usize,
    pub custom_click_handler_count: usize,
    pub pointer_only_click_handler_count: usize,
    pub script_element_count: usize,
    pub embedded_active_content_count: usize,
    pub autoplay_media_count: usize,
    pub blink_marquee_count: usize,
    pub inline_event_handler_attr_count: usize,
    pub meta_refresh_count: usize,
}

/// The trimmed language of the first `html` element, when it is not empty.
pub open spec fn document_lang_of(d: Seq<HtmlNode>) -> Option<Seq<char>> {
    match first_tag(d, 0, "html"@) {
        Some(i) => trimmed_value(d[i], "lang"@),
        None => None,
    }
}

/// The trimmed text of the first `title` element.
pub open spec fn document_title_of(d: Seq<HtmlNode>) -> Seq<char> {
    match first_tag(d, 0, "title"@) {
        Some(i) => trim(text_contents(d, i)),
        None => Seq::empty(),
    }
}

/// The text of the first `body` element with its white space collapsed.
pub open spec fn body_text_of(d: Seq<HtmlNode>) -> Seq<char> {
    match first_tag(d, 0, "body"@) {
        Some(i) => normalize(text_contents(d, i)),
        None => Seq::empty(),
    }
}

/// The facts on figures as plain numbers.
pub open spec fn figure_facts(f: A11yVerifierFacts) -> FigureSums {
    FigureSums {
        informative: f.figure_informative_count as nat,
        over_budget: f.figure_alt_over_budget_count as nat,
        max_alt_len: f.figure_max_alt_len as nat,
        redundant: f.figure_caption_redundancy_count as nat,
        best_part: f.figure_max_caption_similarity.part as nat,
        best_whole: f.figure_max_caption_similarity.whole as nat,
        missing_text: f.figure_missing_effective_text_count as nat,
    }
}

/// The facts `f` are those of the document `d`.
pub open spec fn facts_of(d: Seq<HtmlNode>, f: A11yVerifierFacts) -> bool {
    let n = d.len() as int;
    &&& match f.html_lang {
        Some(lang) => document_lang_of(d) == Some(lang@),
        None => document_lang_of(d) is None,
    }
    &&& f.title@ == document_title_of(d)
    &&& texts(f.duplicate_ids@) == repeated(ids(d, n))
    &&& pairs(f.missing_idrefs@) == dangling_refs(d, n)
    &&& f.has_html_wrapper == (first_tag(d, 0, "html"@) is Some && first_tag(d, 0, "head"@) is Some
        && first_tag(d, 0, "body"@) is Some)
    &&& texts(f.css_link_hrefs@) == css_hrefs(d, n)
    &&& f.has_css_link == (css_hrefs(d, n).len() > 0)
    &&& figure_facts(f) == figure_sums(d, n)
    &&& f.figure_alt_length_budget == FIGURE_ALT_LENGTH_BUDGET
    &&& f.figure_caption_redundancy_threshold == (Share { part: 4, whole: 5 })
    &&& table_rows(f.tables@) == tables(d, n)
    &&& f.body_text@ == body_text_of(d)
    &&& f.part_lang_attr_count == tally(d, Signal::PartLang)
    &&& f.invalid_part_lang_attr_count == tally(d, Signal::InvalidPartLang)
    &&& f.main_count == tally(d, Signal::Main)
    &&& f.signature_semantic_count == tally(d, Signal::Signature)
    &&& f.empty_heading_count == tally(d, Signal::EmptyHeading)
    &&& f.empty_label_count == tally(d, Signal::EmptyLabel)
    &&& f.empty_aria_label_count == tally(d, Signal::EmptyAriaLabel)
    &&& f.unlabeled_region_count == tally(d, Signal::UnlabeledRegion)
    &&& f.image_count == tally(d, Signal::Image)
    &&& f.image_missing_alt_count == tally(d, Signal::ImageMissingAlt)
    &&& f.image_title_only_count == tally(d, Signal::ImageTitleOnly)
    &&& f.image_semantic_conflict_count == tally(d, Signal::ImageConflict)
    &&& f.dl_block_count == tally(d, Signal::DlBlock)
    &&& f.dl_fragmentation_count == tally(d, Signal::DlFragment)
    &&& f.dl_group_consistency_count == tally(d, Signal::DlUniform)
    &&& f.redundant_role_native_count == tally(d, Signal::RedundantRole)
    &&& f.redundant_state_native_count == tally(d, Signal::RedundantState)
    &&& f.form_control_count == tally(d, Signal::Control)
    &&& f.unlabeled_form_control_count == tally(d, Signal::UnlabeledControl)
    &&& f.invalid_form_control_count == tally(d, Signal::InvalidControl)
    &&& f.unidentified_error_form_control_count == tally(d, Signal::UnidentifiedError)
    &&& f.tabindex_attr_count == tally(d, Signal::Tabindex)
    &&& f.positive_tabindex_count == tally(d, Signal::PositiveTabindex)
    &&& f.invalid_tabindex_count == tally(d, Signal::InvalidTabindex)
    &&& f.link_count == tally(d, Signal::Link)
    &&& f.unnamed_link_count == tally(d, Signal::UnnamedLink)
    &&& f.generic_link_text_count == tally(d, Signal::GenericLink)
    &&& f.custom_click_handler_count == tally(d, Signal::CustomClick)
    &&& f.pointer_only_click_handler_count == tally(d, Signal::PointerOnlyClick)
    &&& f.script_element_count == tally(d, Signal::Script)
    &&& f.embedded_active_content_count == tally(d, Signal::EmbeddedActive)
    &&& f.autoplay_media_count == tally(d, Signal::AutoplayMedia)
    &&& f.blink_marquee_count == tally(d, Signal::BlinkMarquee)
    &&& f.inline_event_handler_attr_count == tally(d, Signal::EventHandler)
    &&& f.meta_refresh_count == tally(d, Signal::MetaRefresh)
}

/// Gathers everything that the verifier needs to know about a document.
pub fn verify_accessibility_html_facts(document: &HtmlDocument) -> (f: A11yVerifierFacts)
    requires
        is_document(document.nodes@),
    ensures
        facts_of(document.nodes@, f),
{
    let html = document.first_tag("html");
    let html_lang = match html {
        Some(i) => trimmed_value_of(&document.nodes[i], "lang"),
        None => None,
    };
    let title = match document.first_tag("title") {
        Some(i) => trimmed(&document.text_contents(i)),
        None => String::new(),
    };
    let body = document.first_tag("body");
    let body_text = match body {
        Some(i) => a11y_normalize_text(&document.text_contents(i)),
        None => String::new(),
    };
    let has_html_wrapper = html.is_some() && document.first_tag("head").is_some() && body.is_some();
    let css_link_hrefs = css_hrefs_of(document);
    let has_css_link = css_link_hrefs.len() > 0;
    let figures = figure_totals(document);
    proof {
        assert(texts(css_link_hrefs@).len() == css_link_hrefs@.len());
    }
    A11yVerifierFacts {
        html_lang,
        title,
        duplicate_ids: duplicate_ids_of(document),
        missing_idrefs: missing_idrefs_of(document),
        has_html_wrapper,
        has_css_link,
        css_link_hrefs,
        figure_informative_count: figures.informative,
        figure_alt_length_budget: FIGURE_ALT_LENGTH_BUDGET,
        figure_alt_over_budget_count: figures.over_budget,
        figure_max_alt_len: figures.max_alt_len,
        figure_caption_redundancy_threshold: Share { part: 4, whole: 5 },
        figure_caption_redundancy_count: figures.redundant,
        figure_max_caption_similarity: figures.max_similarity,
        figure_missing_effective_text_count: figures.missing_text,
        tables: tables_of(document),
        body_text,
        part_lang_attr_count: document.tally(Signal::PartLang),
        invalid_part_lang_attr_count: document.tally(Signal::InvalidPartLang),
        main_count: document.tally(Signal::Main),
        signature_semantic_count: document.tally(Signal::Signature),
        empty_heading_count: document.tally(Signal::EmptyHeading),
        empty_label_count: document.tally(Signal::EmptyLabel),
        empty_aria_label_count: document.tally(Signal::EmptyAriaLabel),
        unlabeled_region_count: document.tally(Signal::UnlabeledRegion),
        image_count: document.tally(Signal::Image),
        image_missing_alt_count: document.tally(Signal::ImageMissingAlt),
        image_title_only_count: document.tally(Signal::ImageTitleOnly),
        image_semantic_conflict_count: document.tally(Signal::ImageConflict),
        dl_block_count: document.tally(Signal::DlBlock),
        dl_fragmentation_count: document.tally(Signal::DlFragment),
        dl_group_consistency_count: document.tally(Signal::DlUniform),
        redundant_role_native_count: document.tally(Signal::RedundantRole),
        redundant_state_native_count: document.tally(Signal::RedundantState),
        form_control_count: document.tally(Signal::Control),
        unlabeled_form_control_count: document.tally(Signal::UnlabeledControl),
        invalid_form_control_count: document.tally(Signal::InvalidControl),
        unidentified_error_form_control_count: document.tally(Signal::UnidentifiedError),
        tabindex_attr_count: document.tally(Signal::Tabindex),
        positive_tabindex_count: document.tally(Signal::PositiveTabindex),
        invalid_tabindex_count: document.tally(Signal::InvalidTabindex),
        link_count: document.tally(Signal::Link),
        unnamed_link_count: document.tally(Signal::UnnamedLink),
        generic_link_text_count: document.tally(Signal::GenericLink),
        custom_click_handler_count: document.tally(Signal::CustomClick),
        pointer_only_click_handler_count: document.tally(Signal::PointerOnlyClick),
        script_element_count: document.tally(Signal::Script),
        embedded_active_content_count: document.tally(Signal::EmbeddedActive),
        autoplay_media_count: document.tally(Signal::AutoplayMedia),
        blink_marquee_count: document.tally(Signal::BlinkMarquee),
        inline_event_handler_attr_count: document.tally(Signal::EventHandler),
        meta_refresh_count: document.tally(Signal::MetaRefresh),
    }
}

/// Faults are counted among what they are faults of: no more images are wrong than there are
/// images, and likewise for links, tab stops, form controls, click handlers, language attributes
/// and description lists.
pub proof fn faults_are_among_their_subjects(d: Seq<HtmlNode>, n: int)
    requires
        0 <= n <= d.len(),
    ensures
        tally_to(d, Signal::ImageMissingAlt, n) + tally_to(d, Signal::ImageTitleOnly, n) + tally_to(
            d,
            Signal::ImageConflict,
            n,
        ) <= tally_to(d, Signal::Image, n),
        tally_to(d, Signal::UnnamedLink, n) + tally_to(d, Signal::GenericLink, n) <= tally_to(
            d,
            Signal::Link,
            n,
        ),
        tally_to(d, Signal::PositiveTabindex, n) + tally_to(d, Signal::InvalidTabindex, n)
            <= tally_to(d, Signal::Tabindex, n),
        tally_to(d, Signal::UnlabeledControl, n) <= tally_to(d, Signal::Control, n),
        tally_to(d, Signal::UnidentifiedError, n) <= tally_to(d, Signal::InvalidControl, n)
            <= tally_to(d, Signal::Control, n),
        tally_to(d, Signal::PointerOnlyClick, n) <= tally_to(d, Signal::CustomClick, n),
        tally_to(d, Signal::InvalidPartLang, n) <= tally_to(d, Signal::PartLang, n),
        tally_to(d, Signal::DlUniform, n) <= tally_to(d, Signal::DlFragment, n) <= tally_to(
            d,
            Signal::DlBlock,
            n,
        ),
    decreases n,
{
    if n > 0 {
        faults_are_among_their_subjects(d, n - 1);
        uniform_lists_are_adjacent(children(d, n - 1));
    }
}

/// A reference to an element of the document is never reported as missing.
pub proof fn dangling_words_are_unknown(d: Seq<HtmlNode>, name: Seq<char>, list: Seq<Seq<char>>)
    ensures
        forall|k: int|
            0 <= k < dangling_words(d, name, list).len() ==> {
                let r = #[trigger] dangling_words(d, name, list)[k];
                r.0 == name && list.contains(r.1) && !id_is_known(d, r.1)
            },
    decreases list.len(),
{
    if list.len() > 0 {
        let before = list.drop_last();
        dangling_words_are_unknown(d, name, before);
        assert forall|k: int| 0 <= k < dangling_words(d, name, list).len() implies {
            let r = #[trigger] dangling_words(d, name, list)[k];
            r.0 == name && list.contains(r.1) && !id_is_known(d, r.1)
        } by {
            if k < dangling_words(d, name, before).len() {
                let r = dangling_words(d, name, before)[k];
                assert(before.contains(r.1));
                let m = choose|m: int| 0 <= m < before.len() && before[m] == r.1;
                assert(list[m] == r.1);
            } else {
                assert(list[list.len() - 1] == list.last());
            }
        }
    }
}

/// Links and form controls are different elements, so that together they are no more than the
/// nodes of the document.
pub proof fn focus_targets_are_nodes(d: Seq<HtmlNode>, n: int)
    requires
        0 <= n <= d.len(),
    ensures
        tally_to(d, Signal::Link, n) + tally_to(d, Signal::Control, n) <= n,
    decreases n,
{
    if n > 0 {
        focus_targets_are_nodes(d, n - 1);
        reveal_strlit("a");
        reveal_strlit("input");
        reveal_strlit("select");
        reveal_strlit("textarea");
        assert("a"@.len() == 1 && "input"@.len() == 5 && "select"@.len() == 6 && "textarea"@.len()
            == 8);
        assert(!(is_link(d[n - 1]) && is_control(d[n - 1])));
    }
}

/// Texts that share no word are not similar at all, and no two texts are more than wholly similar.
pub proof fn similarity_is_a_share(a: Seq<char>, b: Seq<char>)
    requires
        text_tokens(a).finite(),
        text_tokens(b).finite(),
    ensures
        similarity(a, b).0 <= similarity(a, b).1,
        similarity(a, b).1 > 0,
        (forall|w: Seq<char>| !(#[trigger] text_tokens(a).contains(w) && text_tokens(b).contains(w)))
            ==> similarity(a, b).0 == 0,
{
    let x = text_tokens(a);
    let y = text_tokens(b);
    let both = x.intersect(y);
    let all = x.union(y);
    vstd::set_lib::lemma_len_subset(both, x);
    vstd::set_lib::lemma_len_subset(x, all);
    if forall|w: Seq<char>| !(#[trigger] x.contains(w) && y.contains(w)) {
        assert(both =~= Set::empty());
    }
}

} // verus!

//! What the facts of a document say of its figures, its ids and its references.
use vstd::prelude::*;

use crate::counts::{has_alternative, is_count, is_decoration, is_picture, nodes_with};
use crate::dom::{attr, has_tag, HtmlNode};
use crate::facts::{
    alt_texts, caption_text, dangling, dangling_refs, dangling_words, facts_of, figure_sums, ids,
    informative_count, is_informative, longest, occurrences, pairs, repeated, similarity,
    some_named, A11yVerifierFacts,
};
use crate::signals::{id_is_known, is_named_image, trimmed_value};
use crate::text::{is_blank, normalize, texts, trim, words};

verus! {

broadcast use vstd::string::group_string_axioms;

// ---------------------------------------------------------------------------------------------
// Figures
// ---------------------------------------------------------------------------------------------
/// A picture that is no decoration.
pub open spec fn tells_something(n: HtmlNode) -> bool {
    is_picture(n) && !is_decoration(n)
}

/// Node `k` is a picture inside node `i` that is no decoration.
pub open spec fn is_picture_in(d: Seq<HtmlNode>, i: int, k: int) -> bool {
    i <= k < d[i].end && tells_something(d[k])
}

/// A figure with a picture that is no decoration.
pub open spec fn is_telling_figure(d: Seq<HtmlNode>, i: int) -> bool {
    has_tag(d[i], "figure"@) && exists|k: int| #[trigger] is_picture_in(d, i, k)
}

/// A figure in which the alternative text of a picture has more than 150 characters.
pub open spec fn is_wordy_figure(d: Seq<HtmlNode>, i: int) -> bool {
    has_tag(d[i], "figure"@) && exists|k: int| #[trigger]
        is_picture_in(d, i, k) && (attr(d[k], "alt"@) matches Some(v) && normalize(v).len() > 150)
}

/// A figure that has no caption and no picture with a text alternative.
pub open spec fn is_textless_figure(d: Seq<HtmlNode>, i: int) -> bool {
    &&& is_telling_figure(d, i)
    &&& forall|k: int| #[trigger] is_picture_in(d, i, k) ==> !has_alternative(d[k])
    &&& caption_text(d, i).len() == 0
}

/// A figure with a caption that shares at least four in five words with the longest alternative
/// text of its pictures.
pub open spec fn is_repeating_figure(d: Seq<HtmlNode>, i: int) -> bool {
    let alt = longest(alt_texts(d, i, d[i].end as int));
    let caption = caption_text(d, i);
    &&& is_telling_figure(d, i)
    &&& alt.len() > 0
    &&& caption.len() > 0
    &&& similarity(alt, caption).0 * 5 >= similarity(alt, caption).1 * 4
}

proof fn picture_predicates(n: HtmlNode)
    ensures
        is_informative(n) == tells_something(n),
        is_named_image(n) == has_alternative(n),
{
    crate::counts::words_are_there(n);
}

proof fn informative_above_nought(d: Seq<HtmlNode>, a: int, b: int)
    ensures
        informative_count(d, a, b) > 0 <==> exists|k: int|
            a <= k < b && tells_something(#[trigger] d[k]),
    decreases b - a,
{
    if b > a {
        informative_above_nought(d, a, b - 1);
        picture_predicates(d[b - 1]);
    }
}

proof fn longest_is_longest(list: Seq<Seq<char>>)
    ensures
        forall|k: int| 0 <= k < list.len() ==> (#[trigger] list[k]).len() <= longest(list).len(),
        list.len() > 0 ==> list.contains(longest(list)),
        list.len() == 0 ==> longest(list).len() == 0,
    decreases list.len(),
{
    if list.len() > 0 {
        let before = list.drop_last();
        longest_is_longest(before);
        assert forall|k: int| 0 <= k < list.len() implies (#[trigger] list[k]).len() <= longest(
            list,
        ).len() by {
            if k < before.len() {
                assert(before[k] == list[k]);
            }
        }
        if list.last().len() >= longest(before).len() {
            assert(list[list.len() - 1] == longest(list));
        } else {
            let k = choose|k: int| 0 <= k < before.len() && before[k] == longest(before);
            assert(list[k] == longest(list));
        }
    }
}

proof fn alt_texts_are_all(d: Seq<HtmlNode>, a: int, b: int, v: Seq<char>)
    ensures
        alt_texts(d, a, b).contains(v) <==> v.len() > 0 && exists|k: int|
            a <= k < b && tells_something(#[trigger] d[k]) && (attr(d[k], "alt"@) matches Some(t)
                && normalize(t) == v),
    decreases b - a,
{
    if b > a {
        alt_texts_are_all(d, a, b - 1, v);
        picture_predicates(d[b - 1]);
        let before = alt_texts(d, a, b - 1);
        let now = alt_texts(d, a, b);
        if before.contains(v) {
            let k = choose|k: int| 0 <= k < before.len() && before[k] == v;
            assert(now[k] == v);
        }
        if now.len() > before.len() {
            assert(now[now.len() - 1] == normalize(attr(d[b - 1], "alt"@)->0));
        }
        if now.contains(v) {
            let k = choose|k: int| 0 <= k < now.len() && now[k] == v;
            if k < before.len() {
                assert(before[k] == v);
            }
        }
    }
}

proof fn figure_tests(d: Seq<HtmlNode>, i: int)
    requires
        0 <= i < d.len(),
        has_tag(d[i], "figure"@),
    ensures
        (informative_count(d, i, d[i].end as int) > 0) == is_telling_figure(d, i),
        is_telling_figure(d, i) ==> (longest(alt_texts(d, i, d[i].end as int)).len() > 150)
            == is_wordy_figure(d, i),
        is_wordy_figure(d, i) ==> is_telling_figure(d, i),
        is_telling_figure(d, i) ==> (!some_named(d, i, d[i].end as int) && caption_text(d, i).len()
            == 0) == is_textless_figure(d, i),
{
    let end = d[i].end as int;
    informative_above_nought(d, i, end);
    if informative_count(d, i, end) > 0 {
        let k = choose|k: int| i <= k < end && tells_something(#[trigger] d[k]);
        assert(is_picture_in(d, i, k));
    }
    let list = alt_texts(d, i, end);
    let most = longest(list);
    longest_is_longest(list);
    if most.len() > 150 {
        alt_texts_are_all(d, i, end, most);
        let k = choose|k: int|
            i <= k < end && tells_something(#[trigger] d[k]) && (attr(d[k], "alt"@) matches Some(t)
                && normalize(t) == most);
        assert(is_picture_in(d, i, k));
    }
    if is_wordy_figure(d, i) {
        let k = choose|k: int| #[trigger]
            is_picture_in(d, i, k) && (attr(d[k], "alt"@) matches Some(v) && normalize(v).len()
                > 150);
        let v = normalize(attr(d[k], "alt"@)->0);
        alt_texts_are_all(d, i, end, v);
        assert(tells_something(d[k]));
        assert(list.contains(v));
        let m = choose|m: int| 0 <= m < list.len() && list[m] == v;
        assert(list[m].len() <= most.len());
    }
    if some_named(d, i, end) {
        let k = choose|k: int|
            i <= k < end && is_informative(#[trigger] d[k]) && is_named_image(d[k]);
        picture_predicates(d[k]);
        assert(is_picture_in(d, i, k));
    } else {
        assert forall|k: int| #[trigger] is_picture_in(d, i, k) implies !has_alternative(d[k]) by {
            picture_predicates(d[k]);
            assert(!(is_informative(d[k]) && is_named_image(d[k])));
        }
    }
}

/// The first `n` nodes that the test holds of.
spec fn first_with(n: int, test: spec_fn(int) -> bool) -> Set<int> {
    Set::new(|i: int| 0 <= i < n && test(i))
}

proof fn one_more(n: int, test: spec_fn(int) -> bool)
    requires
        n > 0,
        first_with(n - 1, test).finite(),
    ensures
        first_with(n, test).finite(),
        first_with(n, test).len() == first_with(n - 1, test).len() + if test(n - 1) {
            1nat
        } else {
            0nat
        },
{
    if test(n - 1) {
        assert(first_with(n, test) =~= first_with(n - 1, test).insert(n - 1));
    } else {
        assert(first_with(n, test) =~= first_with(n - 1, test));
    }
}

proof fn figure_sums_count(d: Seq<HtmlNode>, n: int)
    requires
        0 <= n <= d.len(),
    ensures
        ({
            let t = figure_sums(d, n);
            let telling = first_with(n, |i: int| is_telling_figure(d, i));
            let wordy = first_with(n, |i: int| is_wordy_figure(d, i));
            let textless = first_with(n, |i: int| is_textless_figure(d, i));
            let repeating = first_with(n, |i: int| is_repeating_figure(d, i));
            &&& telling.finite() && t.informative == telling.len()
            &&& wordy.finite() && t.over_budget == wordy.len()
            &&& textless.finite() && t.missing_text == textless.len()
            &&& repeating.finite() && t.redundant == repeating.len()
        }),
    decreases n,
{
    let telling = |i: int| is_telling_figure(d, i);
    let wordy = |i: int| is_wordy_figure(d, i);
    let textless = |i: int| is_textless_figure(d, i);
    let repeating = |i: int| is_repeating_figure(d, i);
    if n > 0 {
        figure_sums_count(d, n - 1);
        one_more(n, telling);
        one_more(n, wordy);
        one_more(n, textless);
        one_more(n, repeating);
        if has_tag(d[n - 1], "figure"@) {
            figure_tests(d, n - 1);
        }
    } else {
        assert(first_with(0, telling) =~= Set::empty());
        assert(first_with(0, wordy) =~= Set::empty());
        assert(first_with(0, textless) =~= Set::empty());
        assert(first_with(0, repeating) =~= Set::empty());
    }
}

/// There is a node that the test holds of, if and only if they number more than nought.
proof fn count_above_nought(d: Seq<HtmlNode>, n: usize, test: spec_fn(int) -> bool)
    requires
        is_count(d, n, test),
    ensures
        n > 0 <==> exists|i: int| 0 <= i < d.len() && #[trigger] test(i),
{
    let found = nodes_with(d, test);
    if n > 0 {
        assert(!(found =~= Set::empty()));
        let i = choose|i: int| found.contains(i);
        assert(test(i));
    }
    if exists|i: int| 0 <= i < d.len() && #[trigger] test(i) {
        let i = choose|i: int| 0 <= i < d.len() && #[trigger] test(i);
        assert(found.contains(i));
        assert(found.remove(i).len() + 1 == found.len());
    }
}

/// The counts of figures are the numbers of the figures that they are named after.
pub proof fn figure_counts_are_exact(d: Seq<HtmlNode>, f: A11yVerifierFacts)
    requires
        facts_of(d, f),
    ensures
        is_count(d, f.figure_informative_count, |i: int| is_telling_figure(d, i)),
        is_count(d, f.figure_alt_over_budget_count, |i: int| is_wordy_figure(d, i)),
        is_count(d, f.figure_missing_effective_text_count, |i: int| is_textless_figure(d, i)),
        is_count(d, f.figure_caption_redundancy_count, |i: int| is_repeating_figure(d, i)),
        f.figure_informative_count > 0 <==> exists|i: int|
            0 <= i < d.len() && #[trigger] is_telling_figure(d, i),
        f.figure_alt_over_budget_count > 0 <==> exists|i: int|
            0 <= i < d.len() && #[trigger] is_wordy_figure(d, i),
        f.figure_missing_effective_text_count > 0 <==> exists|i: int|
            0 <= i < d.len() && #[trigger] is_textless_figure(d, i),
        f.figure_caption_redundancy_count > 0 <==> exists|i: int|
            0 <= i < d.len() && #[trigger] is_repeating_figure(d, i),
{
    let n = d.len() as int;
    figure_sums_count(d, n);
    let telling = |i: int| is_telling_figure(d, i);
    let wordy = |i: int| is_wordy_figure(d, i);
    let textless = |i: int| is_textless_figure(d, i);
    let repeating = |i: int| is_repeating_figure(d, i);
    assert(nodes_with(d, telling) =~= first_with(n, telling));
    assert(nodes_with(d, wordy) =~= first_with(n, wordy));
    assert(nodes_with(d, textless) =~= first_with(n, textless));
    assert(nodes_with(d, repeating) =~= first_with(n, repeating));
    count_above_nought(d, f.figure_informative_count, telling);
    count_above_nought(d, f.figure_alt_over_budget_count, wordy);
    count_above_nought(d, f.figure_missing_effective_text_count, textless);
    count_above_nought(d, f.figure_caption_redundancy_count, repeating);
    assert forall|i: int| 0 <= i < n implies #[trigger] is_telling_figure(d, i) == telling(i) by {}
    assert forall|i: int| 0 <= i < n implies #[trigger] is_wordy_figure(d, i) == wordy(i) by {}
    assert forall|i: int| 0 <= i < n implies #[trigger] is_textless_figure(d, i) == textless(i) by {}
    assert forall|i: int| 0 <= i < n implies #[trigger] is_repeating_figure(d, i) == repeating(
        i,
    ) by {}
}

proof fn longest_alt_so_far(d: Seq<HtmlNode>, n: int)
    requires
        0 <= n <= d.len(),
    ensures
        forall|i: int|
            0 <= i < n && #[trigger] is_telling_figure(d, i) ==> longest(
                alt_texts(d, i, d[i].end as int),
            ).len() <= figure_sums(d, n).max_alt_len,
        figure_sums(d, n).max_alt_len == 0 || exists|i: int|
            0 <= i < n && #[trigger] is_telling_figure(d, i) && longest(
                alt_texts(d, i, d[i].end as int),
            ).len() == figure_sums(d, n).max_alt_len,
    decreases n,
{
    if n > 0 {
        longest_alt_so_far(d, n - 1);
        if has_tag(d[n - 1], "figure"@) {
            figure_tests(d, n - 1);
        }
        let before = figure_sums(d, n - 1).max_alt_len;
        if before > 0 {
            let i = choose|i: int|
                0 <= i < n - 1 && #[trigger] is_telling_figure(d, i) && longest(
                    alt_texts(d, i, d[i].end as int),
                ).len() == before;
            assert(is_telling_figure(d, i));
        }
    }
}

/// The longest alternative text that is reported is that of a picture in a figure.
pub proof fn longest_alternative_is_of_a_picture(d: Seq<HtmlNode>, f: A11yVerifierFacts)
    requires
        facts_of(d, f),
        f.figure_max_alt_len > 0,
    ensures
        exists|i: int, k: int|
            0 <= i < d.len() && has_tag(d[i], "figure"@) && #[trigger] is_picture_in(d, i, k) && (
            attr(d[k], "alt"@) matches Some(v) && normalize(v).len() == f.figure_max_alt_len),
{
    longest_alt_so_far(d, d.len() as int);
    let i = choose|i: int|
        0 <= i < d.len() && #[trigger] is_telling_figure(d, i) && longest(
            alt_texts(d, i, d[i].end as int),
        ).len() == f.figure_max_alt_len;
    let list = alt_texts(d, i, d[i].end as int);
    let t = longest(list);
    longest_is_longest(list);
    alt_texts_are_all(d, i, d[i].end as int, t);
    let k = choose|k: int|
        i <= k < d[i].end as int && tells_something(#[trigger] d[k]) && (attr(
            d[k],
            "alt"@,
        ) matches Some(v) && normalize(v) == t);
    assert(is_picture_in(d, i, k));
}

/// No picture in a figure has a longer alternative text than the longest that is reported.
pub proof fn longest_alternative_is_found(d: Seq<HtmlNode>, f: A11yVerifierFacts, i: int, k: int)
    requires
        facts_of(d, f),
        0 <= i < d.len(),
        has_tag(d[i], "figure"@),
        is_picture_in(d, i, k),
    ensures
        attr(d[k], "alt"@) matches Some(v) ==> normalize(v).len() <= f.figure_max_alt_len,
{
    longest_alt_so_far(d, d.len() as int);
    assert(is_telling_figure(d, i));
    let list = alt_texts(d, i, d[i].end as int);
    longest_is_longest(list);
    match attr(d[k], "alt"@) {
        Some(v) => {
            let t = normalize(v);
            if t.len() > 0 {
                alt_texts_are_all(d, i, d[i].end as int, t);
                assert(tells_something(d[k]));
                assert(list.contains(t));
                let m = choose|m: int| 0 <= m < list.len() && list[m] == t;
                assert(list[m].len() <= longest(list).len());
            }
        },
        None => {},
    }
}

// ---------------------------------------------------------------------------------------------
// Ids and references
// ---------------------------------------------------------------------------------------------
/// The element has this id, but for the space around it.
pub open spec fn has_id(n: HtmlNode, id: Seq<char>) -> bool {
    attr(n, "id"@) matches Some(v) && !is_blank(v) && trim(v) == id
}

/// Two elements of the document have this id.
pub open spec fn is_shared_id(d: Seq<HtmlNode>, id: Seq<char>) -> bool {
    exists|i: int, j: int|
        0 <= i < j < d.len() && #[trigger] has_id(d[i], id) && #[trigger] has_id(d[j], id)
}

proof fn ids_are_counted(d: Seq<HtmlNode>, n: int, id: Seq<char>)
    requires
        0 <= n <= d.len(),
    ensures
        occurrences(ids(d, n), id) >= 1 <==> exists|i: int| 0 <= i < n && #[trigger] has_id(d[i], id),
        occurrences(ids(d, n), id) >= 2 <==> exists|i: int, j: int|
            0 <= i < j < n && #[trigger] has_id(d[i], id) && #[trigger] has_id(d[j], id),
    decreases n,
{
    if n > 0 {
        ids_are_counted(d, n - 1, id);
        let before = ids(d, n - 1);
        let now = ids(d, n);
        match trimmed_value(d[n - 1], "id"@) {
            Some(x) => {
                assert(now.drop_last() =~= before);
                assert(now.last() == x);
            },
            None => {},
        }
        assert(has_id(d[n - 1], id) == (trimmed_value(d[n - 1], "id"@) == Some(id)));
        if has_id(d[n - 1], id) && occurrences(before, id) >= 1 {
            let i = choose|i: int| 0 <= i < n - 1 && #[trigger] has_id(d[i], id);
            assert(has_id(d[i], id) && has_id(d[n - 1], id));
        }
        if exists|i: int, j: int|
            0 <= i < j < n && #[trigger] has_id(d[i], id) && #[trigger] has_id(d[j], id) {
            let (i, j) = choose|i: int, j: int|
                0 <= i < j < n && #[trigger] has_id(d[i], id) && #[trigger] has_id(d[j], id);
            assert(has_id(d[i], id));
            if j < n - 1 {
                assert(has_id(d[j], id));
            }
        }
    }
}

proof fn repeated_are_all(list: Seq<Seq<char>>, x: Seq<char>)
    ensures
        repeated(list).contains(x) <==> occurrences(list, x) >= 2,
        repeated(list).no_duplicates(),
    decreases list.len(),
{
    if list.len() > 0 {
        let before = list.drop_last();
        let last = list.last();
        repeated_are_all(before, x);
        repeated_are_all(before, last);
        let old_found = repeated(before);
        let found = repeated(list);
        if old_found.contains(x) {
            let k = choose|k: int| 0 <= k < old_found.len() && old_found[k] == x;
            assert(found[k] == x);
        }
        if occurrences(before, last) == 1 {
            assert(found[found.len() - 1] == last);
            assert(!old_found.contains(last));
        }
        if found.contains(x) {
            let k = choose|k: int| 0 <= k < found.len() && found[k] == x;
            if k < old_found.len() {
                assert(old_found[k] == x);
            }
        }
    }
}

/// The ids that are reported as repeated are those that two elements share, each of them once.
pub proof fn repeated_ids_are_shared(d: Seq<HtmlNode>, f: A11yVerifierFacts)
    requires
        facts_of(d, f),
    ensures
        forall|id: Seq<char>| #[trigger] texts(f.duplicate_ids@).contains(id) <==> is_shared_id(d, id),
        texts(f.duplicate_ids@).no_duplicates(),
{
    let n = d.len() as int;
    repeated_are_all(ids(d, n), Seq::empty());
    assert forall|id: Seq<char>| #[trigger] texts(f.duplicate_ids@).contains(id) <==> is_shared_id(
        d,
        id,
    ) by {
        ids_are_counted(d, n, id);
        repeated_are_all(ids(d, n), id);
    }
}

/// The element names the id in one of the two attributes that name the elements which label and
/// describe it, and no element has that id.
pub open spec fn is_broken_reference(
    d: Seq<HtmlNode>,
    i: int,
    name: Seq<char>,
    word: Seq<char>,
) -> bool {
    &&& name == "aria-labelledby"@ || name == "aria-describedby"@
    &&& attr(d[i], name) matches Some(v) && words(v).contains(word)
    &&& forall|j: int| 0 <= j < d.len() ==> !#[trigger] has_id(d[j], word)
}

proof fn unknown_ids(d: Seq<HtmlNode>, word: Seq<char>)
    ensures
        !id_is_known(d, word) <==> forall|j: int| 0 <= j < d.len() ==> !#[trigger] has_id(d[j], word),
{
    if id_is_known(d, word) {
        let j = choose|j: int| 0 <= j < d.len() && trimmed_value(#[trigger] d[j], "id"@) == Some(word);
        assert(has_id(d[j], word));
    }
    if !id_is_known(d, word) {
        assert forall|j: int| 0 <= j < d.len() implies !#[trigger] has_id(d[j], word) by {
            assert(trimmed_value(d[j], "id"@) != Some(word));
        }
    }
}

proof fn dangling_words_are_all(
    d: Seq<HtmlNode>,
    name: Seq<char>,
    list: Seq<Seq<char>>,
    r: (Seq<char>, Seq<char>),
)
    ensures
        dangling_words(d, name, list).contains(r) <==> r.0 == name && list.contains(r.1)
            && !id_is_known(d, r.1),
    decreases list.len(),
{
    if list.len() > 0 {
        let before = list.drop_last();
        let last = list.last();
        dangling_words_are_all(d, name, before, r);
        let old_found = dangling_words(d, name, before);
        let found = dangling_words(d, name, list);
        if before.contains(r.1) {
            let k = choose|k: int| 0 <= k < before.len() && before[k] == r.1;
            assert(list[k] == r.1);
        }
        if list.contains(r.1) && r.1 != last {
            let k = choose|k: int| 0 <= k < list.len() && list[k] == r.1;
            assert(before[k] == r.1);
        }
        assert(list[list.len() - 1] == last);
        if old_found.contains(r) {
            let k = choose|k: int| 0 <= k < old_found.len() && old_found[k] == r;
            assert(found[k] == r);
        }
        if !id_is_known(d, last) {
            assert(found[found.len() - 1] == (name, last));
        }
        if found.contains(r) {
            let k = choose|k: int| 0 <= k < found.len() && found[k] == r;
            if k < old_found.len() {
                assert(old_found[k] == r);
            }
        }
    }
}

proof fn part_contains(
    a: Seq<(Seq<char>, Seq<char>)>,
    b: Seq<(Seq<char>, Seq<char>)>,
    r: (Seq<char>, Seq<char>),
)
    ensures
        (a + b).contains(r) <==> a.contains(r) || b.contains(r),
{
    let c = a + b;
    if a.contains(r) {
        let k = choose|k: int| 0 <= k < a.len() && a[k] == r;
        assert(c[k] == r);
    }
    if b.contains(r) {
        let k = choose|k: int| 0 <= k < b.len() && b[k] == r;
        assert(c[a.len() + k] == r);
    }
    if c.contains(r) {
        let k = choose|k: int| 0 <= k < c.len() && c[k] == r;
        if k < a.len() {
            assert(a[k] == r);
        } else {
            assert(b[k - a.len()] == r);
        }
    }
}

proof fn dangling_refs_are_all(d: Seq<HtmlNode>, n: int, r: (Seq<char>, Seq<char>))
    requires
        0 <= n <= d.len(),
    ensures
        dangling_refs(d, n).contains(r) <==> exists|i: int|
            0 <= i < n && #[trigger] is_broken_reference(d, i, r.0, r.1),
    decreases n,
{
    unknown_ids(d, r.1);
    if n > 0 {
        dangling_refs_are_all(d, n - 1, r);
        let before = dangling_refs(d, n - 1);
        let a = dangling(d, d[n - 1], "aria-labelledby"@);
        let b = dangling(d, d[n - 1], "aria-describedby"@);
        part_contains(before, a, r);
        part_contains(before + a, b, r);
        match attr(d[n - 1], "aria-labelledby"@) {
            Some(v) => {
                dangling_words_are_all(d, "aria-labelledby"@, words(v), r);
            },
            None => {},
        }
        match attr(d[n - 1], "aria-describedby"@) {
            Some(v) => {
                dangling_words_are_all(d, "aria-describedby"@, words(v), r);
            },
            None => {},
        }
        assert((a.contains(r) || b.contains(r)) == is_broken_reference(d, n - 1, r.0, r.1));
        if exists|i: int| 0 <= i < n && #[trigger] is_broken_reference(d, i, r.0, r.1) {
            let i = choose|i: int| 0 <= i < n && #[trigger] is_broken_reference(d, i, r.0, r.1);
            if i < n - 1 {
                assert(is_broken_reference(d, i, r.0, r.1));
            }
        }
    }
}

/// The references that are reported as missing are those that name an id which no element has.
pub proof fn missing_references_are_broken(d: Seq<HtmlNode>, f: A11yVerifierFacts)
    requires
        facts_of(d, f),
    ensures
        forall|r: (Seq<char>, Seq<char>)| #[trigger]
            pairs(f.missing_idrefs@).contains(r) <==> exists|i: int|
                0 <= i < d.len() && #[trigger] is_broken_reference(d, i, r.0, r.1),
{
    assert forall|r: (Seq<char>, Seq<char>)| #[trigger]
        pairs(f.missing_idrefs@).contains(r) <==> exists|i: int|
            0 <= i < d.len() && #[trigger] is_broken_reference(d, i, r.0, r.1) by {
        dangling_refs_are_all(d, d.len() as int, r);
    }
}

} // verus!

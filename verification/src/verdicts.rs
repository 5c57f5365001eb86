//! What the report of the accessibility verifier says of a document.
//!
//! Every rule has one finding, and its verdict is tied to the nodes of the document.
use vstd::prelude::*;

use crate::contents::{
    figure_counts_are_exact, is_broken_reference, is_repeating_figure, is_shared_id,
    is_telling_figure, is_textless_figure, is_wordy_figure, missing_references_are_broken,
    repeated_ids_are_shared,
};
use crate::counts::{
    are_adjacent_lists, blinks, blinks_count, fragments_are_adjacent_lists, handles_events,
    has_bad_part_lang, has_bad_part_lang_count, has_empty_aria_label, has_empty_aria_label_count,
    has_invalid_tabindex, has_invalid_tabindex_count, has_part_lang, has_part_lang_count,
    has_positive_tabindex, has_positive_tabindex_count, is_anchor, is_anchor_count,
    is_contradictory_picture, is_contradictory_picture_count, is_embedded, is_embedded_count,
    is_empty_heading, is_empty_heading_count, is_empty_label, is_empty_label_count,
    is_faulty_control, is_faulty_control_count, is_form_control, is_form_control_count, is_lang_tag,
    is_main, is_main_count, is_nameless_anchor, is_nameless_anchor_count, is_nameless_control,
    is_nameless_control_count, is_picture, is_picture_count, is_script, is_script_count,
    is_signature, is_signature_count, is_textless_picture, is_textless_picture_count, is_tiny_run,
    is_titled_picture, is_titled_picture_count, is_unexplained_fault, is_unexplained_fault_count,
    is_unlabeled_region, is_unlabeled_region_count, is_vague_anchor, is_vague_anchor_count,
    lang_tags_agree, nodes_with, other_counts_are_right, plays_by_itself, plays_by_itself_count,
    refreshes, refreshes_count, repeats_role, repeats_role_count, repeats_state,
    uniform_lists_are_tiny_runs,
};
use crate::dom::{attr, first_tag, has_tag, is_document, text_contents, HtmlNode};
use crate::facts::{facts_of, pairs, A11yVerifierFacts};
use crate::findings::{
    alt_budget_rule, asks_for_signatures, caption_rule, closing_rules, core_rules,
    dl_consistency_rule, dl_fragmentation_rule, duplicate_rules, figure_text_rule, focus_rule,
    form_errors_rule, form_labels_rule, headings_labels_rule, images_rule, interference_rule,
    is_active, lang_rule, leading_rules, links_rule, main_rule, missing_rules, parts_lang_rule,
    phrase_hits, redundant_role_rule, redundant_state_rule, sensory_phrases, sensory_rule,
    signature_rule, title_rule, A11yQuestion, FindingView,
};
use crate::signals::{children, lang_tag_valid};
use crate::text::{contains, decimal, is_blank, lower, normalize, texts, trim, trim_is_idempotent};

verus! {

broadcast use vstd::string::group_string_axioms;

// ---------------------------------------------------------------------------------------------
// Reading a report
// ---------------------------------------------------------------------------------------------
/// Finding `i` is the only one of the rule.
pub open spec fn is_sole(r: Seq<FindingView>, id: Seq<char>, i: int) -> bool {
    &&& 0 <= i < r.len()
    &&& r[i].rule_id == id
    &&& forall|j: int| 0 <= j < r.len() && (#[trigger] r[j]).rule_id == id ==> j == i
}

/// The report holds one finding of the rule, and this is its verdict.
pub open spec fn verdict_is(r: Seq<FindingView>, id: Seq<char>, verdict: Seq<char>) -> bool {
    exists|i: int| #[trigger] is_sole(r, id, i) && r[i].verdict == verdict
}

/// The report holds one finding of the rule, which says this.
pub open spec fn concludes(
    r: Seq<FindingView>,
    id: Seq<char>,
    verdict: Seq<char>,
    severity: Seq<char>,
    confidence: Seq<char>,
    message: Seq<char>,
) -> bool {
    exists|i: int| #[trigger]
        is_sole(r, id, i) && r[i].verdict == verdict && r[i].severity == severity && r[i].confidence
            == confidence && r[i].message == message && r[i].applicability == (if verdict
            == "not_applicable"@ && id != "fb.a11y.signatures.text_semantics_present"@ {
            "not_applicable"@
        } else {
            "applicable"@
        })
}

/// The one finding of the rule rests on this value under this name.
pub open spec fn shows(
    r: Seq<FindingView>,
    id: Seq<char>,
    name: Seq<char>,
    value: Seq<char>,
) -> bool {
    exists|i: int, k: int| #[trigger]
        is_sole(r, id, i) && r[i].evidence.len() == 1 && 0 <= k < r[i].evidence[0].values.len() && (
        #[trigger] r[i].evidence[0].values[k]) == (name, value)
}

/// The four verdicts are different words.
pub(crate) proof fn verdicts_differ()
    ensures
        "fail"@ != "pass"@,
        "fail"@ != "warn"@,
        "pass"@ != "warn"@,
        "not_applicable"@ != "fail"@,
        "not_applicable"@ != "warn"@,
        "not_applicable"@ != "pass"@,
{
    reveal_strlit("fail");
    reveal_strlit("pass");
    reveal_strlit("warn");
    reveal_strlit("not_applicable");
    assert("fail"@[0] == 'f' && "pass"@[0] == 'p' && "warn"@[0] == 'w' && "not_applicable"@[0] == 'n');
}

// ---------------------------------------------------------------------------------------------
// The rules of a report
// ---------------------------------------------------------------------------------------------
/// A number that tells the ids of the rules apart.
spec fn id_key(id: Seq<char>) -> int {
    id.len() * 256 + id[9] as int
}

/// The ids of the rules that come first, in their order.
spec fn lead_id(j: int) -> Seq<char> {
    if j == 0 {
        "fb.a11y.html.lang_present_valid"@
    } else if j == 1 {
        "fb.a11y.language.parts_declared_valid_seed"@
    } else if j == 2 {
        "fb.a11y.html.title_present_nonempty"@
    } else if j == 3 {
        "fb.a11y.structure.single_main"@
    } else if j == 4 {
        "fb.a11y.headings_labels.present_nonempty"@
    } else if j == 5 {
        "fb.a11y.images.alt_or_decorative"@
    } else if j == 6 {
        "fb.a11y.figure.alt_length_budget_seed"@
    } else if j == 7 {
        "fb.a11y.figure.caption_redundancy_seed"@
    } else if j == 8 {
        "fb.a11y.figure.missing_effective_text_seed"@
    } else if j == 9 {
        "fb.a11y.dl.fragmentation_seed"@
    } else if j == 10 {
        "fb.a11y.dl.group_consistency_seed"@
    } else if j == 11 {
        "fb.a11y.forms.labels_or_instructions_present"@
    } else if j == 12 {
        "fb.a11y.forms.error_identification_present"@
    } else if j == 13 {
        "fb.a11y.focus.order_seed"@
    } else if j == 14 {
        "fb.a11y.links.purpose_in_context"@
    } else {
        "fb.a11y.instructions.sensory_characteristics_seed"@
    }
}

spec fn lead_key(j: int) -> int {
    if j == 0 {
        8052
    } else if j == 1 {
        10849
    } else if j == 2 {
        9076
    } else if j == 3 {
        7540
    } else if j == 4 {
        10341
    } else if j == 5 {
        8301
    } else if j == 6 {
        9577
    } else if j == 7 {
        9833
    } else if j == 8 {
        10857
    } else if j == 9 {
        7532
    } else if j == 10 {
        8556
    } else if j == 11 {
        11375
    } else if j == 12 {
        10863
    } else if j == 13 {
        6255
    } else if j == 14 {
        8297
    } else {
        12654
    }
}

proof fn id_key_1()
    ensures
        id_key("fb.a11y.html.lang_present_valid"@) == 8052,
{
    reveal_strlit("fb.a11y.html.lang_present_valid");
    let id = "fb.a11y.html.lang_present_valid"@;
    assert(id.len() == 31);
    assert(id[9] == 't');
    assert('t' as int == 116);
}

proof fn id_key_2()
    ensures
        id_key("fb.a11y.language.parts_declared_valid_seed"@) == 10849,
{
    reveal_strlit("fb.a11y.language.parts_declared_valid_seed");
    let id = "fb.a11y.language.parts_declared_valid_seed"@;
    assert(id.len() == 42);
    assert(id[9] == 'a');
    assert('a' as int == 97);
}

proof fn id_key_3()
    ensures
        id_key("fb.a11y.html.title_present_nonempty"@) == 9076,
{
    reveal_strlit("fb.a11y.html.title_present_nonempty");
    let id = "fb.a11y.html.title_present_nonempty"@;
    assert(id.len() == 35);
    assert(id[9] == 't');
    assert('t' as int == 116);
}

proof fn id_key_4()
    ensures
        id_key("fb.a11y.structure.single_main"@) == 7540,
{
    reveal_strlit("fb.a11y.structure.single_main");
    let id = "fb.a11y.structure.single_main"@;
    assert(id.len() == 29);
    assert(id[9] == 't');
    assert('t' as int == 116);
}

proof fn id_key_5()
    ensures
        id_key("fb.a11y.headings_labels.present_nonempty"@) == 10341,
{
    reveal_strlit("fb.a11y.headings_labels.present_nonempty");
    let id = "fb.a11y.headings_labels.present_nonempty"@;
    assert(id.len() == 40);
    assert(id[9] == 'e');
    assert('e' as int == 101);
}

proof fn id_key_6()
    ensures
        id_key("fb.a11y.images.alt_or_decorative"@) == 8301,
{
    reveal_strlit("fb.a11y.images.alt_or_decorative");
    let id = "fb.a11y.images.alt_or_decorative"@;
    assert(id.len() == 32);
    assert(id[9] == 'm');
    assert('m' as int == 109);
}

proof fn id_key_7()
    ensures
        id_key("fb.a11y.figure.alt_length_budget_seed"@) == 9577,
{
    reveal_strlit("fb.a11y.figure.alt_length_budget_seed");
    let id = "fb.a11y.figure.alt_length_budget_seed"@;
    assert(id.len() == 37);
    assert(id[9] == 'i');
    assert('i' as int == 105);
}

proof fn id_key_8()
    ensures
        id_key("fb.a11y.figure.caption_redundancy_seed"@) == 9833,
{
    reveal_strlit("fb.a11y.figure.caption_redundancy_seed");
    let id = "fb.a11y.figure.caption_redundancy_seed"@;
    assert(id.len() == 38);
    assert(id[9] == 'i');
    assert('i' as int == 105);
}

proof fn id_key_9()
    ensures
        id_key("fb.a11y.figure.missing_effective_text_seed"@) == 10857,
{
    reveal_strlit("fb.a11y.figure.missing_effective_text_seed");
    let id = "fb.a11y.figure.missing_effective_text_seed"@;
    assert(id.len() == 42);
    assert(id[9] == 'i');
    assert('i' as int == 105);
}

proof fn id_key_10()
    ensures
        id_key("fb.a11y.dl.fragmentation_seed"@) == 7532,
{
    reveal_strlit("fb.a11y.dl.fragmentation_seed");
    let id = "fb.a11y.dl.fragmentation_seed"@;
    assert(id.len() == 29);
    assert(id[9] == 'l');
    assert('l' as int == 108);
}

proof fn id_key_11()
    ensures
        id_key("fb.a11y.dl.group_consistency_seed"@) == 8556,
{
    reveal_strlit("fb.a11y.dl.group_consistency_seed");
    let id = "fb.a11y.dl.group_consistency_seed"@;
    assert(id.len() == 33);
    assert(id[9] == 'l');
    assert('l' as int == 108);
}

proof fn id_key_12()
    ensures
        id_key("fb.a11y.forms.labels_or_instructions_present"@) == 11375,
{
    reveal_strlit("fb.a11y.forms.labels_or_instructions_present");
    let id = "fb.a11y.forms.labels_or_instructions_present"@;
    assert(id.len() == 44);
    assert(id[9] == 'o');
    assert('o' as int == 111);
}

proof fn id_key_13()
    ensures
        id_key("fb.a11y.forms.error_identification_present"@) == 10863,
{
    reveal_strlit("fb.a11y.forms.error_identification_present");
    let id = "fb.a11y.forms.error_identification_present"@;
    assert(id.len() == 42);
    assert(id[9] == 'o');
    assert('o' as int == 111);
}

proof fn id_key_14()
    ensures
        id_key("fb.a11y.focus.order_seed"@) == 6255,
{
    reveal_strlit("fb.a11y.focus.order_seed");
    let id = "fb.a11y.focus.order_seed"@;
    assert(id.len() == 24);
    assert(id[9] == 'o');
    assert('o' as int == 111);
}

proof fn id_key_15()
    ensures
        id_key("fb.a11y.links.purpose_in_context"@) == 8297,
{
    reveal_strlit("fb.a11y.links.purpose_in_context");
    let id = "fb.a11y.links.purpose_in_context"@;
    assert(id.len() == 32);
    assert(id[9] == 'i');
    assert('i' as int == 105);
}

proof fn id_key_16()
    ensures
        id_key("fb.a11y.instructions.sensory_characteristics_seed"@) == 12654,
{
    reveal_strlit("fb.a11y.instructions.sensory_characteristics_seed");
    let id = "fb.a11y.instructions.sensory_characteristics_seed"@;
    assert(id.len() == 49);
    assert(id[9] == 'n');
    assert('n' as int == 110);
}

proof fn id_key_17()
    ensures
        id_key("fb.a11y.ids.duplicate_id"@) == 6244,
{
    reveal_strlit("fb.a11y.ids.duplicate_id");
    let id = "fb.a11y.ids.duplicate_id"@;
    assert(id.len() == 24);
    assert(id[9] == 'd');
    assert('d' as int == 100);
}

proof fn id_key_18()
    ensures
        id_key("fb.a11y.aria.reference_target_exists"@) == 9330,
{
    reveal_strlit("fb.a11y.aria.reference_target_exists");
    let id = "fb.a11y.aria.reference_target_exists"@;
    assert(id.len() == 36);
    assert(id[9] == 'r');
    assert('r' as int == 114);
}

proof fn id_key_19()
    ensures
        id_key("fb.a11y.aria.redundant_role_native_seed"@) == 10098,
{
    reveal_strlit("fb.a11y.aria.redundant_role_native_seed");
    let id = "fb.a11y.aria.redundant_role_native_seed"@;
    assert(id.len() == 39);
    assert(id[9] == 'r');
    assert('r' as int == 114);
}

proof fn id_key_20()
    ensures
        id_key("fb.a11y.aria.redundant_state_native_seed"@) == 10354,
{
    reveal_strlit("fb.a11y.aria.redundant_state_native_seed");
    let id = "fb.a11y.aria.redundant_state_native_seed"@;
    assert(id.len() == 40);
    assert(id[9] == 'r');
    assert('r' as int == 114);
}

proof fn id_key_21()
    ensures
        id_key("fb.a11y.signatures.text_semantics_present"@) == 10601,
{
    reveal_strlit("fb.a11y.signatures.text_semantics_present");
    let id = "fb.a11y.signatures.text_semantics_present"@;
    assert(id.len() == 41);
    assert(id[9] == 'i');
    assert('i' as int == 105);
}

proof fn id_key_22()
    ensures
        id_key("fb.a11y.claim.non_interference_seed"@) == 9068,
{
    reveal_strlit("fb.a11y.claim.non_interference_seed");
    let id = "fb.a11y.claim.non_interference_seed"@;
    assert(id.len() == 35);
    assert(id[9] == 'l');
    assert('l' as int == 108);
}

proof fn id_keys_hold()
    ensures
        forall|j: int| 0 <= j < 16 ==> id_key(#[trigger] lead_id(j)) == lead_key(j),
        id_key("fb.a11y.ids.duplicate_id"@) == 6244,
        id_key("fb.a11y.aria.reference_target_exists"@) == 9330,
        id_key("fb.a11y.aria.redundant_role_native_seed"@) == 10098,
        id_key("fb.a11y.aria.redundant_state_native_seed"@) == 10354,
        id_key("fb.a11y.signatures.text_semantics_present"@) == 10601,
        id_key("fb.a11y.claim.non_interference_seed"@) == 9068,
{
    id_key_1();
    id_key_2();
    id_key_3();
    id_key_4();
    id_key_5();
    id_key_6();
    id_key_7();
    id_key_8();
    id_key_9();
    id_key_10();
    id_key_11();
    id_key_12();
    id_key_13();
    id_key_14();
    id_key_15();
    id_key_16();
    id_key_17();
    id_key_18();
    id_key_19();
    id_key_20();
    id_key_21();
    id_key_22();
}

proof fn lead_keys_differ(j: int, k: int)
    requires
        0 <= j < 16,
        0 <= k < 16,
        j != k,
    ensures
        lead_key(j) != lead_key(k),
{
}

proof fn leading_ids(f: A11yVerifierFacts, q: A11yQuestion)
    ensures
        leading_rules(f, q).len() == 16,
        forall|j: int| 0 <= j < 16 ==> (#[trigger] leading_rules(f, q)[j]).rule_id == lead_id(j),
{
}

spec fn rest_from(f: A11yVerifierFacts) -> int {
    16int + duplicate_rules(texts(f.duplicate_ids@)).len() + missing_rules(
        pairs(f.missing_idrefs@),
    ).len()
}

proof fn report_parts(f: A11yVerifierFacts, q: A11yQuestion)
    ensures
        ({
            let r = core_rules(f, q);
            let a = duplicate_rules(texts(f.duplicate_ids@));
            let b = missing_rules(pairs(f.missing_idrefs@));
            let c = closing_rules(f, q);
            &&& r.len() == rest_from(f) + c.len()
            &&& forall|j: int| 0 <= j < 16 ==> #[trigger] r[j] == leading_rules(f, q)[j]
            &&& forall|j: int| 16 <= j < 16 + a.len() ==> #[trigger] r[j] == a[j - 16]
            &&& forall|j: int|
                16 + a.len() <= j < rest_from(f) ==> #[trigger] r[j] == b[j - 16 - a.len()]
            &&& forall|j: int| rest_from(f) <= j < r.len() ==> #[trigger] r[j] == c[j - rest_from(f)]
        }),
{
    leading_ids(f, q);
}

/// The findings of the rules on single ids.
proof fn middle_ids(f: A11yVerifierFacts, q: A11yQuestion)
    ensures
        ({
            let r = core_rules(f, q);
            let a = duplicate_rules(texts(f.duplicate_ids@));
            &&& forall|j: int|
                16 <= j < 16 + a.len() ==> (#[trigger] r[j]).rule_id == "fb.a11y.ids.duplicate_id"@
            &&& forall|j: int|
                16 + a.len() <= j < rest_from(f) ==> (#[trigger] r[j]).rule_id
                    == "fb.a11y.aria.reference_target_exists"@
        }),
{
    report_parts(f, q);
}

proof fn closing_ids(f: A11yVerifierFacts, q: A11yQuestion)
    ensures
        ({
            let c = closing_rules(f, q);
            &&& c[0].rule_id == "fb.a11y.aria.redundant_role_native_seed"@
            &&& c[1].rule_id == "fb.a11y.aria.redundant_state_native_seed"@
            &&& c.len() == if asks_for_signatures(q.profile@) {
                4nat
            } else {
                3nat
            }
            &&& asks_for_signatures(q.profile@) ==> c[2].rule_id
                == "fb.a11y.signatures.text_semantics_present"@
            &&& c[c.len() - 1].rule_id == "fb.a11y.claim.non_interference_seed"@
        }),
{
}

/// The ids of the closing rules, in their order.
spec fn closing_id(asked: bool, m: int) -> Seq<char> {
    if m == 0 {
        "fb.a11y.aria.redundant_role_native_seed"@
    } else if m == 1 {
        "fb.a11y.aria.redundant_state_native_seed"@
    } else if m == 2 && asked {
        "fb.a11y.signatures.text_semantics_present"@
    } else {
        "fb.a11y.claim.non_interference_seed"@
    }
}

/// The id of finding `j` of a report with `a` findings on ids and `b` on references.
spec fn report_id(a: int, b: int, asked: bool, j: int) -> Seq<char> {
    if j < 16 {
        lead_id(j)
    } else if j < 16 + a {
        "fb.a11y.ids.duplicate_id"@
    } else if j < 16 + a + b {
        "fb.a11y.aria.reference_target_exists"@
    } else {
        closing_id(asked, j - 16 - a - b)
    }
}

spec fn report_len(a: int, b: int, asked: bool) -> int {
    if asked {
        16 + a + b + 4
    } else {
        16 + a + b + 3
    }
}

/// The findings of a report have the ids of its rules.
spec fn has_ids(r: Seq<FindingView>, a: int, b: int, asked: bool) -> bool {
    &&& a >= 0 && b >= 0
    &&& r.len() == report_len(a, b, asked)
    &&& forall|j: int|
        0 <= j < r.len() ==> (#[trigger] r[j]).rule_id == report_id(a, b, asked, j)
}

spec fn dup_count(f: A11yVerifierFacts) -> int {
    duplicate_rules(texts(f.duplicate_ids@)).len() as int
}

spec fn miss_count(f: A11yVerifierFacts) -> int {
    missing_rules(pairs(f.missing_idrefs@)).len() as int
}

proof fn report_has_ids(f: A11yVerifierFacts, q: A11yQuestion)
    ensures
        has_ids(core_rules(f, q), dup_count(f), miss_count(f), asks_for_signatures(q.profile@)),
{
    report_parts(f, q);
    leading_ids(f, q);
    middle_ids(f, q);
    closing_ids(f, q);
    let r = core_rules(f, q);
    let a = dup_count(f);
    let b = miss_count(f);
    let asked = asks_for_signatures(q.profile@);
    let rest = rest_from(f);
    assert forall|j: int| 0 <= j < r.len() implies (#[trigger] r[j]).rule_id == report_id(
        a,
        b,
        asked,
        j,
    ) by {
        if j >= rest {
            assert(j == rest || j == rest + 1 || j == rest + 2 || j == rest + 3);
        }
    }
}

proof fn ids_apart(a: int, b: int, asked: bool, i: int, j: int)
    requires
        a >= 0,
        b >= 0,
        0 <= i < report_len(a, b, asked),
        0 <= j < report_len(a, b, asked),
        report_id(a, b, asked, i) == report_id(a, b, asked, j),
    ensures
        i == j || (16 <= i < 16 + a && 16 <= j < 16 + a) || (16 + a <= i < 16 + a + b && 16 + a <= j
            < 16 + a + b),
{
    id_keys_hold();
    if i < 16 {
        assert(id_key(lead_id(i)) == lead_key(i));
    }
    if j < 16 {
        assert(id_key(lead_id(j)) == lead_key(j));
    }
    if i < 16 && j < 16 && i != j {
        lead_keys_differ(i, j);
    }
}

/// A finding of a rule that has one is the only one of it.
proof fn place_is_sole(r: Seq<FindingView>, a: int, b: int, asked: bool, at: int)
    requires
        has_ids(r, a, b, asked),
        0 <= at < 16 || 16 + a + b <= at < r.len(),
    ensures
        is_sole(r, report_id(a, b, asked, at), at),
{
    assert forall|j: int|
        0 <= j < r.len() && (#[trigger] r[j]).rule_id == report_id(a, b, asked, at) implies j
        == at by {
        ids_apart(a, b, asked, at, j);
    }
    assert(r[at].rule_id == report_id(a, b, asked, at));
}

proof fn lead_is_sole(f: A11yVerifierFacts, q: A11yQuestion, k: int)
    requires
        0 <= k < 16,
    ensures
        is_sole(core_rules(f, q), lead_id(k), k),
        core_rules(f, q)[k] == leading_rules(f, q)[k],
{
    report_has_ids(f, q);
    report_parts(f, q);
    place_is_sole(
        core_rules(f, q),
        dup_count(f),
        miss_count(f),
        asks_for_signatures(q.profile@),
        k,
    );
}

proof fn closing_is_sole(f: A11yVerifierFacts, q: A11yQuestion, m: int)
    requires
        0 <= m < closing_rules(f, q).len(),
    ensures
        is_sole(
            core_rules(f, q),
            closing_id(asks_for_signatures(q.profile@), m),
            rest_from(f) + m,
        ),
        core_rules(f, q)[rest_from(f) + m] == closing_rules(f, q)[m],
{
    report_has_ids(f, q);
    report_parts(f, q);
    place_is_sole(
        core_rules(f, q),
        dup_count(f),
        miss_count(f),
        asks_for_signatures(q.profile@),
        rest_from(f) + m,
    );
}

/// The findings of a rule on single ids stand in one stretch of the report.
proof fn stretch_of(r: Seq<FindingView>, a: int, b: int, asked: bool)
    requires
        has_ids(r, a, b, asked),
        a > 0,
        b > 0,
    ensures
        forall|j: int|
            0 <= j < r.len() && (#[trigger] r[j]).rule_id == "fb.a11y.ids.duplicate_id"@ ==> 16 <= j
                < 16 + a,
        forall|j: int|
            0 <= j < r.len() && (#[trigger] r[j]).rule_id == "fb.a11y.aria.reference_target_exists"@
                ==> 16 + a <= j < 16 + a + b,
{
    assert forall|j: int|
        0 <= j < r.len() && (#[trigger] r[j]).rule_id == "fb.a11y.ids.duplicate_id"@ implies 16 <= j
        < 16 + a by {
        ids_apart(a, b, asked, 16, j);
    }
    assert forall|j: int|
        0 <= j < r.len() && (#[trigger] r[j]).rule_id
            == "fb.a11y.aria.reference_target_exists"@ implies 16 + a <= j < 16 + a + b by {
        ids_apart(a, b, asked, 16 + a, j);
    }
}

proof fn unasked_signatures(r: Seq<FindingView>, a: int, b: int)
    requires
        has_ids(r, a, b, false),
    ensures
        forall|j: int|
            0 <= j < r.len() ==> (#[trigger] r[j]).rule_id
                != "fb.a11y.signatures.text_semantics_present"@,
{
    id_keys_hold();
    assert forall|j: int| 0 <= j < r.len() implies (#[trigger] r[j]).rule_id
        != "fb.a11y.signatures.text_semantics_present"@ by {
        if j < 16 {
            assert(id_key(lead_id(j)) == lead_key(j));
        }
    }
}

proof fn lead_rules(f: A11yVerifierFacts, q: A11yQuestion)
    ensures
        leading_rules(f, q)[0] == lang_rule(f, q.expected_lang),
        leading_rules(f, q)[1] == parts_lang_rule(f),
        leading_rules(f, q)[2] == title_rule(f, q.expected_title),
        leading_rules(f, q)[3] == main_rule(f),
        leading_rules(f, q)[4] == headings_labels_rule(f),
        leading_rules(f, q)[5] == images_rule(f),
        leading_rules(f, q)[6] == alt_budget_rule(f),
        leading_rules(f, q)[7] == caption_rule(f, q.similarity_text@),
        leading_rules(f, q)[8] == figure_text_rule(f),
        leading_rules(f, q)[9] == dl_fragmentation_rule(f),
        leading_rules(f, q)[10] == dl_consistency_rule(f),
        leading_rules(f, q)[11] == form_labels_rule(f),
        leading_rules(f, q)[12] == form_errors_rule(f),
        leading_rules(f, q)[13] == focus_rule(f),
        leading_rules(f, q)[14] == links_rule(f),
        leading_rules(f, q)[15] == sensory_rule(f),
{
}

// ---------------------------------------------------------------------------------------------
// Names and labels
// ---------------------------------------------------------------------------------------------
/// What the report says: of the labels of form controls.
pub open spec fn form_labels_holds(
    d: Seq<HtmlNode>,
    f: A11yVerifierFacts,
    r: Seq<FindingView>,
) -> bool {
    let id = "fb.a11y.forms.labels_or_instructions_present"@;
    let any = exists|i: int| 0 <= i < d.len() && #[trigger] is_form_control(d[i]);
    let fault = exists|i: int| 0 <= i < d.len() && #[trigger] is_nameless_control(d, i);
    &&& verdict_is(r, id, "not_applicable"@) <==> !any
    &&& verdict_is(r, id, "fail"@) <==> fault
    &&& verdict_is(r, id, "pass"@) <==> any && !fault
    &&& !any ==> concludes(
        r,
        id,
        "not_applicable"@,
        "low"@,
        "high"@,
        "No form controls detected; labels/instructions rule not applicable."@,
    )
    &&& fault ==> concludes(
        r,
        id,
        "fail"@,
        "high"@,
        "medium"@,
        "Unlabeled form controls detected."@,
    )
    &&& any && !fault ==> concludes(
        r,
        id,
        "pass"@,
        "medium"@,
        "medium"@,
        "Detected form controls have label/ARIA naming signals."@,
    )
    &&& any ==> shows(r, id, "form_control_count"@, decimal(f.form_control_count as nat))
    &&& any ==> shows(r, id, "unlabeled_form_control_count"@, decimal(f.unlabeled_form_control_count as nat))
}

proof fn form_labels_at(d: Seq<HtmlNode>, f: A11yVerifierFacts, r: Seq<FindingView>, at: int)
    requires
        facts_of(d, f),
        is_sole(r, "fb.a11y.forms.labels_or_instructions_present"@, at),
        r[at] == form_labels_rule(f),
    ensures
        form_labels_holds(d, f, r),
{
    is_form_control_count(d, f);
    is_nameless_control_count(d, f);
    verdicts_differ();
    let id = "fb.a11y.forms.labels_or_instructions_present"@;
    id_keys_hold();
    id_key_12();
    if r[at].evidence.len() == 1 {
        assert(r[at].evidence[0].values[0] == ("form_control_count"@, decimal(f.form_control_count as nat)));
    }
    if r[at].evidence.len() == 1 {
        assert(r[at].evidence[0].values[1] == ("unlabeled_form_control_count"@, decimal(f.unlabeled_form_control_count as nat)));
    }
}

/// The rule on form labels fails if and only if the document has a form control without a label,
/// passes if and only if it has form controls and all of them have one, and does not apply if and
/// only if it has none.
pub proof fn form_labels_verdict(d: Seq<HtmlNode>, f: A11yVerifierFacts, q: A11yQuestion)
    requires
        facts_of(d, f),
    ensures
        form_labels_holds(d, f, core_rules(f, q)),
{
    lead_is_sole(f, q, 11);
    lead_rules(f, q);
    form_labels_at(d, f, core_rules(f, q), 11);
}

/// What the report says: of the errors of form controls.
pub open spec fn form_errors_holds(
    d: Seq<HtmlNode>,
    f: A11yVerifierFacts,
    r: Seq<FindingView>,
) -> bool {
    let id = "fb.a11y.forms.error_identification_present"@;
    let any = exists|i: int| 0 <= i < d.len() && #[trigger] is_faulty_control(d[i]);
    let fault = exists|i: int| 0 <= i < d.len() && #[trigger] is_unexplained_fault(d, i);
    &&& verdict_is(r, id, "not_applicable"@) <==> !any
    &&& verdict_is(r, id, "fail"@) <==> fault
    &&& verdict_is(r, id, "pass"@) <==> any && !fault
    &&& !any ==> concludes(
        r,
        id,
        "not_applicable"@,
        "low"@,
        "high"@,
        "No invalid form controls detected; error-identification rule not applicable."@,
    )
    &&& fault ==> concludes(
        r,
        id,
        "fail"@,
        "high"@,
        "medium"@,
        "Invalid form controls without associated error-identification text detected."@,
    )
    &&& any && !fault ==> concludes(
        r,
        id,
        "pass"@,
        "medium"@,
        "medium"@,
        "Invalid form controls expose associated error-identification text signals."@,
    )
    &&& any ==> shows(r, id, "invalid_form_control_count"@, decimal(f.invalid_form_control_count as nat))
    &&& any ==> shows(r, id, "unidentified_error_form_control_count"@, decimal(f.unidentified_error_form_control_count as nat))
}

proof fn form_errors_at(d: Seq<HtmlNode>, f: A11yVerifierFacts, r: Seq<FindingView>, at: int)
    requires
        facts_of(d, f),
        is_sole(r, "fb.a11y.forms.error_identification_present"@, at),
        r[at] == form_errors_rule(f),
    ensures
        form_errors_holds(d, f, r),
{
    is_faulty_control_count(d, f);
    is_unexplained_fault_count(d, f);
    verdicts_differ();
    let id = "fb.a11y.forms.error_identification_present"@;
    id_keys_hold();
    id_key_13();
    if r[at].evidence.len() == 1 {
        assert(r[at].evidence[0].values[0] == ("invalid_form_control_count"@, decimal(f.invalid_form_control_count as nat)));
    }
    if r[at].evidence.len() == 1 {
        assert(r[at].evidence[0].values[1] == ("unidentified_error_form_control_count"@, decimal(f.unidentified_error_form_control_count as nat)));
    }
}

/// The rule on form errors fails if and only if an invalid form control points at no element that
/// says what is wrong, and does not apply if and only if no form control is invalid.
pub proof fn form_errors_verdict(d: Seq<HtmlNode>, f: A11yVerifierFacts, q: A11yQuestion)
    requires
        facts_of(d, f),
    ensures
        form_errors_holds(d, f, core_rules(f, q)),
{
    lead_is_sole(f, q, 12);
    lead_rules(f, q);
    form_errors_at(d, f, core_rules(f, q), 12);
}

/// What the report says: of headings, labels and regions.
pub open spec fn headings_labels_holds(
    d: Seq<HtmlNode>,
    f: A11yVerifierFacts,
    r: Seq<FindingView>,
) -> bool {
    let id = "fb.a11y.headings_labels.present_nonempty"@;
    let fault = exists|i: int| 0 <= i < d.len() && #[trigger] is_empty_heading(d, i);
    let blank_label = exists|i: int| 0 <= i < d.len() && #[trigger] is_empty_label(d, i);
    let blank_name = exists|i: int| 0 <= i < d.len() && #[trigger] has_empty_aria_label(d[i]);
    let nameless = exists|i: int| 0 <= i < d.len() && #[trigger] is_unlabeled_region(d[i]);
    let bad = fault || blank_label || blank_name;
    &&& verdict_is(r, id, "fail"@) <==> bad
    &&& verdict_is(r, id, "warn"@) <==> !bad && nameless
    &&& verdict_is(r, id, "pass"@) <==> !bad && !nameless
    &&& bad ==> concludes(
        r,
        id,
        "fail"@,
        "high"@,
        "high"@,
        "Empty heading/label naming signals detected."@,
    )
    &&& !bad && nameless ==> concludes(
        r,
        id,
        "warn"@,
        "medium"@,
        "high"@,
        "Headings/labels are non-empty, but some region landmarks are unlabeled."@,
    )
    &&& !bad && !nameless ==> concludes(
        r,
        id,
        "pass"@,
        "medium"@,
        "medium"@,
        "No empty headings/labels or unlabeled regions detected."@,
    )
    &&& shows(r, id, "empty_heading_count"@, decimal(f.empty_heading_count as nat))
    &&& shows(r, id, "empty_label_count"@, decimal(f.empty_label_count as nat))
    &&& shows(r, id, "empty_aria_label_count"@, decimal(f.empty_aria_label_count as nat))
    &&& shows(r, id, "unlabeled_region_count"@, decimal(f.unlabeled_region_count as nat))
}

proof fn headings_labels_at(d: Seq<HtmlNode>, f: A11yVerifierFacts, r: Seq<FindingView>, at: int)
    requires
        facts_of(d, f),
        is_sole(r, "fb.a11y.headings_labels.present_nonempty"@, at),
        r[at] == headings_labels_rule(f),
    ensures
        headings_labels_holds(d, f, r),
{
    is_empty_heading_count(d, f);
    is_empty_label_count(d, f);
    has_empty_aria_label_count(d, f);
    is_unlabeled_region_count(d, f);
    verdicts_differ();
    let id = "fb.a11y.headings_labels.present_nonempty"@;
    assert(r[at].evidence[0].values[0] == ("empty_heading_count"@, decimal(f.empty_heading_count as nat)));
    assert(r[at].evidence[0].values[1] == ("empty_label_count"@, decimal(f.empty_label_count as nat)));
    assert(r[at].evidence[0].values[2] == ("empty_aria_label_count"@, decimal(f.empty_aria_label_count as nat)));
    assert(r[at].evidence[0].values[3] == ("unlabeled_region_count"@, decimal(f.unlabeled_region_count as nat)));
}

/// The rule on headings and labels fails if and only if a heading, a label or a name is empty. Else
/// it warns if and only if a region has no name.
pub proof fn headings_labels_verdict(d: Seq<HtmlNode>, f: A11yVerifierFacts, q: A11yQuestion)
    requires
        facts_of(d, f),
    ensures
        headings_labels_holds(d, f, core_rules(f, q)),
{
    lead_is_sole(f, q, 4);
    lead_rules(f, q);
    headings_labels_at(d, f, core_rules(f, q), 4);
}

/// What the report says: of images.
pub open spec fn images_holds(d: Seq<HtmlNode>, f: A11yVerifierFacts, r: Seq<FindingView>) -> bool {
    let id = "fb.a11y.images.alt_or_decorative"@;
    let any = exists|i: int| 0 <= i < d.len() && #[trigger] is_picture(d[i]);
    let textless = exists|i: int| 0 <= i < d.len() && #[trigger] is_textless_picture(d[i]);
    let torn = exists|i: int| 0 <= i < d.len() && #[trigger] is_contradictory_picture(d[i]);
    let titled = exists|i: int| 0 <= i < d.len() && #[trigger] is_titled_picture(d[i]);
    let bad = textless || torn;
    &&& verdict_is(r, id, "not_applicable"@) <==> !any
    &&& verdict_is(r, id, "fail"@) <==> bad
    &&& verdict_is(r, id, "warn"@) <==> !bad && titled
    &&& verdict_is(r, id, "pass"@) <==> any && !bad && !titled
    &&& !any ==> concludes(
        r,
        id,
        "not_applicable"@,
        "low"@,
        "high"@,
        "No img/svg elements detected; non-text-content image rule not applicable."@,
    )
    &&& bad ==> concludes(
        r,
        id,
        "fail"@,
        "high"@,
        "high"@,
        "Image text alternative errors detected."@,
    )
    &&& !bad && titled ==> concludes(
        r,
        id,
        "warn"@,
        "medium"@,
        "high"@,
        "Some images rely on title without alt/ARIA text alternatives."@,
    )
    &&& any && !bad && !titled ==> concludes(
        r,
        id,
        "pass"@,
        "medium"@,
        "high"@,
        "Image text alternatives/decorative semantics look consistent."@,
    )
    &&& any ==> shows(r, id, "image_count"@, decimal(f.image_count as nat))
    &&& any ==> shows(r, id, "image_missing_alt_count"@, decimal(f.image_missing_alt_count as nat))
    &&& any ==> shows(r, id, "image_title_only_count"@, decimal(f.image_title_only_count as nat))
    &&& any ==> shows(r, id, "image_semantic_conflict_count"@, decimal(f.image_semantic_conflict_count as nat))
}

proof fn images_at(d: Seq<HtmlNode>, f: A11yVerifierFacts, r: Seq<FindingView>, at: int)
    requires
        facts_of(d, f),
        is_sole(r, "fb.a11y.images.alt_or_decorative"@, at),
        r[at] == images_rule(f),
    ensures
        images_holds(d, f, r),
{
    is_picture_count(d, f);
    is_textless_picture_count(d, f);
    is_contradictory_picture_count(d, f);
    is_titled_picture_count(d, f);
    verdicts_differ();
    let id = "fb.a11y.images.alt_or_decorative"@;
    id_keys_hold();
    id_key_6();
    if r[at].evidence.len() == 1 {
        assert(r[at].evidence[0].values[0] == ("image_count"@, decimal(f.image_count as nat)));
    }
    if r[at].evidence.len() == 1 {
        assert(r[at].evidence[0].values[1] == ("image_missing_alt_count"@, decimal(f.image_missing_alt_count as nat)));
    }
    if r[at].evidence.len() == 1 {
        assert(r[at].evidence[0].values[2] == ("image_title_only_count"@, decimal(f.image_title_only_count as nat)));
    }
    if r[at].evidence.len() == 1 {
        assert(r[at].evidence[0].values[3] == ("image_semantic_conflict_count"@, decimal(f.image_semantic_conflict_count as nat)));
    }
}

/// The rule on images fails if and only if a picture has no text alternative or is decoration with
/// one. Else it warns if and only if a picture has a title alone. It does not apply if and only if
/// there is no picture.
pub proof fn images_verdict(d: Seq<HtmlNode>, f: A11yVerifierFacts, q: A11yQuestion)
    requires
        facts_of(d, f),
    ensures
        images_holds(d, f, core_rules(f, q)),
{
    lead_is_sole(f, q, 5);
    lead_rules(f, q);
    images_at(d, f, core_rules(f, q), 5);
}

/// What the report says: of links.
pub open spec fn links_holds(d: Seq<HtmlNode>, f: A11yVerifierFacts, r: Seq<FindingView>) -> bool {
    let id = "fb.a11y.links.purpose_in_context"@;
    let any = exists|i: int| 0 <= i < d.len() && #[trigger] is_anchor(d[i]);
    let nameless = exists|i: int| 0 <= i < d.len() && #[trigger] is_nameless_anchor(d, i);
    let vague = exists|i: int| 0 <= i < d.len() && #[trigger] is_vague_anchor(d, i);
    &&& verdict_is(r, id, "not_applicable"@) <==> !any
    &&& verdict_is(r, id, "fail"@) <==> nameless
    &&& verdict_is(r, id, "warn"@) <==> !nameless && vague
    &&& verdict_is(r, id, "pass"@) <==> any && !nameless && !vague
    &&& !any ==> concludes(
        r,
        id,
        "not_applicable"@,
        "low"@,
        "high"@,
        "No links detected; link-purpose rule not applicable."@,
    )
    &&& nameless ==> concludes(
        r,
        id,
        "fail"@,
        "high"@,
        "medium"@,
        "Links without discernible text purpose signals detected."@,
    )
    &&& !nameless && vague ==> concludes(
        r,
        id,
        "warn"@,
        "medium"@,
        "medium"@,
        "Generic link text detected; contextual purpose may require manual review."@,
    )
    &&& any && !nameless && !vague ==> concludes(
        r,
        id,
        "pass"@,
        "medium"@,
        "medium"@,
        "Detected links have discernible text purpose signals."@,
    )
    &&& any ==> shows(r, id, "link_count"@, decimal(f.link_count as nat))
    &&& any ==> shows(r, id, "unnamed_link_count"@, decimal(f.unnamed_link_count as nat))
    &&& any ==> shows(r, id, "generic_link_text_count"@, decimal(f.generic_link_text_count as nat))
}

proof fn links_at(d: Seq<HtmlNode>, f: A11yVerifierFacts, r: Seq<FindingView>, at: int)
    requires
        facts_of(d, f),
        is_sole(r, "fb.a11y.links.purpose_in_context"@, at),
        r[at] == links_rule(f),
    ensures
        links_holds(d, f, r),
{
    is_anchor_count(d, f);
    is_nameless_anchor_count(d, f);
    is_vague_anchor_count(d, f);
    verdicts_differ();
    let id = "fb.a11y.links.purpose_in_context"@;
    id_keys_hold();
    id_key_15();
    if r[at].evidence.len() == 1 {
        assert(r[at].evidence[0].values[0] == ("link_count"@, decimal(f.link_count as nat)));
    }
    if r[at].evidence.len() == 1 {
        assert(r[at].evidence[0].values[1] == ("unnamed_link_count"@, decimal(f.unnamed_link_count as nat)));
    }
    if r[at].evidence.len() == 1 {
        assert(r[at].evidence[0].values[2] == ("generic_link_text_count"@, decimal(f.generic_link_text_count as nat)));
    }
}

/// The rule on links fails if and only if a link has no name. Else it warns if and only if the text
/// of a link says nothing of where it leads. It does not apply if and only if there is no link.
pub proof fn links_verdict(d: Seq<HtmlNode>, f: A11yVerifierFacts, q: A11yQuestion)
    requires
        facts_of(d, f),
    ensures
        links_holds(d, f, core_rules(f, q)),
{
    lead_is_sole(f, q, 14);
    lead_rules(f, q);
    links_at(d, f, core_rules(f, q), 14);
}

// ---------------------------------------------------------------------------------------------
// Language, title and structure
// ---------------------------------------------------------------------------------------------
/// What the report says: of the languages of parts.
pub open spec fn parts_lang_holds(
    d: Seq<HtmlNode>,
    f: A11yVerifierFacts,
    r: Seq<FindingView>,
) -> bool {
    let id = "fb.a11y.language.parts_declared_valid_seed"@;
    let any = exists|i: int| 0 <= i < d.len() && #[trigger] has_part_lang(d[i]);
    let bad = exists|i: int| 0 <= i < d.len() && #[trigger] has_bad_part_lang(d[i]);
    &&& verdict_is(r, id, "not_applicable"@) <==> !any
    &&& verdict_is(r, id, "fail"@) <==> bad
    &&& verdict_is(r, id, "pass"@) <==> any && !bad
    &&& !any ==> concludes(
        r,
        id,
        "not_applicable"@,
        "low"@,
        "high"@,
        "No inline lang declarations on descendant elements detected; language-of-parts rule not applicable for this document."@,
    )
    &&& bad ==> concludes(
        r,
        id,
        "fail"@,
        "medium"@,
        "high"@,
        "Invalid or empty inline language-of-parts declarations detected."@,
    )
    &&& any && !bad ==> concludes(
        r,
        id,
        "pass"@,
        "low"@,
        "high"@,
        "Inline language-of-parts declarations are syntactically valid."@,
    )
    &&& shows(r, id, "part_lang_attr_count"@, decimal(f.part_lang_attr_count as nat))
    &&& shows(r, id, "invalid_part_lang_attr_count"@, decimal(f.invalid_part_lang_attr_count as nat))
}

proof fn parts_lang_at(d: Seq<HtmlNode>, f: A11yVerifierFacts, r: Seq<FindingView>, at: int)
    requires
        facts_of(d, f),
        is_sole(r, "fb.a11y.language.parts_declared_valid_seed"@, at),
        r[at] == parts_lang_rule(f),
    ensures
        parts_lang_holds(d, f, r),
{
    has_part_lang_count(d, f);
    has_bad_part_lang_count(d, f);
    verdicts_differ();
    let id = "fb.a11y.language.parts_declared_valid_seed"@;
    id_keys_hold();
    id_key_2();
    assert(r[at].evidence[0].values[0] == ("part_lang_attr_count"@, decimal(f.part_lang_attr_count as nat)));
    assert(r[at].evidence[0].values[1] == ("invalid_part_lang_attr_count"@, decimal(f.invalid_part_lang_attr_count as nat)));
}

/// The rule on the languages of parts fails if and only if a part says its language wrongly, and does
/// not apply if and only if no part says one.
pub proof fn parts_lang_verdict(d: Seq<HtmlNode>, f: A11yVerifierFacts, q: A11yQuestion)
    requires
        facts_of(d, f),
    ensures
        parts_lang_holds(d, f, core_rules(f, q)),
{
    lead_is_sole(f, q, 1);
    lead_rules(f, q);
    parts_lang_at(d, f, core_rules(f, q), 1);
}

/// Node `i` is the first element with this tag.
pub open spec fn is_first_element(d: Seq<HtmlNode>, i: int, tag: Seq<char>) -> bool {
    &&& 0 <= i < d.len()
    &&& has_tag(d[i], tag)
    &&& forall|j: int| 0 <= j < i ==> !has_tag(#[trigger] d[j], tag)
}

proof fn first_is_first(d: Seq<HtmlNode>, a: int, tag: Seq<char>)
    requires
        0 <= a <= d.len(),
        forall|j: int| 0 <= j < a ==> !has_tag(#[trigger] d[j], tag),
    ensures
        match first_tag(d, a, tag) {
            Some(i) => is_first_element(d, i, tag),
            None => forall|j: int| 0 <= j < d.len() ==> !has_tag(#[trigger] d[j], tag),
        },
    decreases d.len() - a,
{
    if a < d.len() && !has_tag(d[a], tag) {
        first_is_first(d, a + 1, tag);
    }
}

pub(crate) proof fn first_is_one(d: Seq<HtmlNode>, tag: Seq<char>)
    ensures
        match first_tag(d, 0, tag) {
            Some(i) => is_first_element(d, i, tag),
            None => forall|j: int| 0 <= j < d.len() ==> !has_tag(#[trigger] d[j], tag),
        },
        forall|i: int, j: int|
            #[trigger] is_first_element(d, i, tag) && #[trigger] is_first_element(d, j, tag) ==> i
                == j,
{
    first_is_first(d, 0, tag);
    assert forall|i: int, j: int|
        #[trigger] is_first_element(d, i, tag) && #[trigger] is_first_element(d, j, tag) implies i
        == j by {
        if i < j {
            assert(!has_tag(d[i], tag));
        } else if j < i {
            assert(!has_tag(d[j], tag));
        }
    }
}

/// The first `html` element says this language, but for the space around it.
pub open spec fn says_lang(d: Seq<HtmlNode>, lang: Seq<char>) -> bool {
    exists|i: int| #[trigger]
        is_first_element(d, i, "html"@) && (attr(d[i], "lang"@) matches Some(v) && !is_blank(v)
            && trim(v) == lang)
}

/// A value was asked for, and this is another one.
pub open spec fn is_other_than(expected: Option<String>, found: Seq<char>) -> bool {
    expected matches Some(e) && e@ != found
}

/// What the report says: of the language of the document.
pub open spec fn lang_holds(
    d: Seq<HtmlNode>,
    f: A11yVerifierFacts,
    q: A11yQuestion,
    r: Seq<FindingView>,
) -> bool {
    let id = "fb.a11y.html.lang_present_valid"@;
    let right = exists|lang: Seq<char>| #[trigger]
        says_lang(d, lang) && is_lang_tag(lang) && !is_other_than(q.expected_lang, lang);
    &&& verdict_is(r, id, "fail"@) <==> !right
    &&& verdict_is(r, id, "pass"@) <==> right
    &&& right ==> concludes(
        r,
        id,
        "pass"@,
        "high"@,
        "certain"@,
        "HTML lang attribute is present and valid."@,
    )
    &&& (forall|lang: Seq<char>| !#[trigger] says_lang(d, lang)) ==> concludes(
        r,
        id,
        "fail"@,
        "high"@,
        "certain"@,
        "HTML lang attribute is missing."@,
    ) && shows(r, id, "failure_kind"@, "missing"@)
    &&& forall|lang: Seq<char>| #[trigger]
        says_lang(d, lang) && !is_lang_tag(lang) ==> concludes(
            r,
            id,
            "fail"@,
            "high"@,
            "certain"@,
            "HTML lang attribute is present but invalid."@,
        ) && shows(r, id, "failure_kind"@, "invalid"@)
    &&& forall|lang: Seq<char>| #[trigger]
        says_lang(d, lang) ==> shows(r, id, "lang"@, lang) && shows(
            r,
            id,
            "observed_lang"@,
            lang,
        )
}

proof fn lang_at(
    d: Seq<HtmlNode>,
    f: A11yVerifierFacts,
    q: A11yQuestion,
    r: Seq<FindingView>,
    at: int,
)
    requires
        facts_of(d, f),
        is_sole(r, "fb.a11y.html.lang_present_valid"@, at),
        r[at] == lang_rule(f, q.expected_lang),
    ensures
        lang_holds(d, f, q, r),
{
    verdicts_differ();
    let id = "fb.a11y.html.lang_present_valid"@;
    first_is_one(d, "html"@);
    assert forall|lang: Seq<char>| #[trigger] says_lang(d, lang) implies (f.html_lang matches Some(
        v,
    ) && v@ == lang) && lang_tag_valid(lang) == is_lang_tag(lang) by {
        let i = choose|i: int| #[trigger]
            is_first_element(d, i, "html"@) && (attr(d[i], "lang"@) matches Some(v) && !is_blank(v)
                && trim(v) == lang);
        let v = attr(d[i], "lang"@)->0;
        trim_is_idempotent(v);
        lang_tags_agree(lang);
    }
    match f.html_lang {
        Some(v) => {
            let i = first_tag(d, 0, "html"@)->0;
            assert(is_first_element(d, i, "html"@));
            assert(says_lang(d, v@));
        },
        None => {},
    }
    assert(r[at].evidence[0].values[0].0 == "lang"@);
    assert(r[at].evidence[0].values[1].0 == "observed_lang"@);
    assert(r[at].evidence[0].values[3].0 == "failure_kind"@);
}

/// The rule on the language fails if and only if the document says none, says it wrongly, or says
/// another one than was asked for.
pub proof fn lang_verdict(d: Seq<HtmlNode>, f: A11yVerifierFacts, q: A11yQuestion)
    requires
        facts_of(d, f),
    ensures
        lang_holds(d, f, q, core_rules(f, q)),
{
    lead_is_sole(f, q, 0);
    lead_rules(f, q);
    lang_at(d, f, q, core_rules(f, q), 0);
}

/// The title of the document: the text of the first `title` element without the space around it.
pub open spec fn is_title(d: Seq<HtmlNode>, title: Seq<char>) -> bool {
    ||| exists|i: int| #[trigger]
        is_first_element(d, i, "title"@) && trim(text_contents(d, i)) == title
    ||| title.len() == 0 && forall|i: int| !#[trigger] is_first_element(d, i, "title"@)
}

/// What the report says: of the title.
pub open spec fn title_holds(
    d: Seq<HtmlNode>,
    f: A11yVerifierFacts,
    q: A11yQuestion, title: Seq<char>,
    r: Seq<FindingView>,
) -> bool {
    let id = "fb.a11y.html.title_present_nonempty"@;
    let bad = is_blank(title) || is_other_than(q.expected_title, title);
    &&& verdict_is(r, id, "fail"@) <==> bad
    &&& verdict_is(r, id, "pass"@) <==> !bad
    &&& is_blank(title) ==> concludes(
        r,
        id,
        "fail"@,
        "high"@,
        "certain"@,
        "Document title is missing or empty."@,
    )
    &&& !bad ==> concludes(
        r,
        id,
        "pass"@,
        "high"@,
        "certain"@,
        "Document title is present and non-empty."@,
    )
    &&& shows(r, id, "title"@, title)
    &&& shows(r, id, "observed_title"@, title)
}

proof fn title_at(
    d: Seq<HtmlNode>,
    f: A11yVerifierFacts,
    q: A11yQuestion,
    title: Seq<char>,
    r: Seq<FindingView>,
    at: int,
)
    requires
        facts_of(d, f),
        is_title(d, title),
        is_sole(r, "fb.a11y.html.title_present_nonempty"@, at),
        r[at] == title_rule(f, q.expected_title),
    ensures
        title_holds(d, f, q, title, r),
{
    verdicts_differ();
    let id = "fb.a11y.html.title_present_nonempty"@;
    first_is_one(d, "title"@);
    assert(f.title@ == title) by {
        match first_tag(d, 0, "title"@) {
            Some(i) => {
                assert(is_first_element(d, i, "title"@));
            },
            None => {
                assert(title =~= Seq::empty());
            },
        }
    }
    assert(r[at].evidence[0].values[0] == ("title"@, title));
    assert(r[at].evidence[0].values[1] == ("observed_title"@, title));
}

/// The rule on the title fails if and only if the document has none, an empty one, or another one
/// than was asked for.
pub proof fn title_verdict(
    d: Seq<HtmlNode>,
    f: A11yVerifierFacts,
    q: A11yQuestion,
    title: Seq<char>,
)
    requires
        facts_of(d, f),
        is_title(d, title),
    ensures
        title_holds(d, f, q, title, core_rules(f, q)),
{
    lead_is_sole(f, q, 2);
    lead_rules(f, q);
    title_at(d, f, q, title, core_rules(f, q), 2);
}

/// What the report says: of the main part.
pub open spec fn main_holds(
    d: Seq<HtmlNode>,
    f: A11yVerifierFacts,
    q: A11yQuestion,
    r: Seq<FindingView>,
) -> bool {
    let id = "fb.a11y.structure.single_main"@;
    let one = exists|i: int|
        0 <= i < d.len() && #[trigger] is_main(d[i]) && forall|j: int|
            0 <= j < d.len() && #[trigger] is_main(d[j]) ==> j == i;
    &&& verdict_is(r, id, "pass"@) <==> one
    &&& verdict_is(r, id, "fail"@) <==> !one
    &&& one ==> concludes(
        r,
        id,
        "pass"@,
        "medium"@,
        "certain"@,
        "Single primary content root detected."@,
    )
    &&& shows(r, id, "count"@, decimal(f.main_count as nat))
}

proof fn main_at(
    d: Seq<HtmlNode>,
    f: A11yVerifierFacts,
    q: A11yQuestion,
    r: Seq<FindingView>,
    at: int,
)
    requires
        facts_of(d, f),
        is_sole(r, "fb.a11y.structure.single_main"@, at),
        r[at] == main_rule(f),
    ensures
        main_holds(d, f, q, r),
{
    verdicts_differ();
    let id = "fb.a11y.structure.single_main"@;
    is_main_count(d, f);
    let found = nodes_with(d, |i: int| is_main(d[i]));
    if f.main_count == 1 {
        let i = choose|i: int| 0 <= i < d.len() && #[trigger] is_main(d[i]);
        assert(found.contains(i));
        assert forall|j: int| 0 <= j < d.len() && #[trigger] is_main(d[j]) implies j == i by {
            assert(found.contains(j));
            if j != i {
                assert(found.remove(i).contains(j));
                assert(found.remove(i).len() == 0);
                assert(found.remove(i).remove(j).len() + 1 == found.remove(i).len());
            }
        }
    }
    if exists|i: int|
        0 <= i < d.len() && #[trigger] is_main(d[i]) && forall|j: int|
            0 <= j < d.len() && #[trigger] is_main(d[j]) ==> j == i {
        let i = choose|i: int|
            0 <= i < d.len() && #[trigger] is_main(d[i]) && forall|j: int|
                0 <= j < d.len() && #[trigger] is_main(d[j]) ==> j == i;
        assert(found =~= Set::empty().insert(i));
    }
    assert(r[at].evidence[0].values[0] == ("count"@, decimal(f.main_count as nat)));
}

/// The rule on the main part fails unless the document has exactly one.
pub proof fn main_verdict(d: Seq<HtmlNode>, f: A11yVerifierFacts, q: A11yQuestion)
    requires
        facts_of(d, f),
    ensures
        main_holds(d, f, q, core_rules(f, q)),
{
    lead_is_sole(f, q, 3);
    lead_rules(f, q);
    main_at(d, f, q, core_rules(f, q), 3);
}

// ---------------------------------------------------------------------------------------------
// Figures and lists
// ---------------------------------------------------------------------------------------------
/// What the report says: of the length of alternative texts.
pub open spec fn alt_budget_holds(
    d: Seq<HtmlNode>,
    f: A11yVerifierFacts,
    r: Seq<FindingView>,
) -> bool {
    let id = "fb.a11y.figure.alt_length_budget_seed"@;
    let any = exists|i: int| 0 <= i < d.len() && #[trigger] is_telling_figure(d, i);
    let bad = exists|i: int| 0 <= i < d.len() && #[trigger] is_wordy_figure(d, i);
    &&& verdict_is(r, id, "not_applicable"@) <==> !any
    &&& verdict_is(r, id, "warn"@) <==> bad
    &&& verdict_is(r, id, "pass"@) <==> any && !bad
    &&& !any ==> concludes(
        r,
        id,
        "not_applicable"@,
        "low"@,
        "high"@,
        "No informative figures detected; figure alt-length budget rule not applicable."@,
    )
    &&& bad ==> concludes(
        r,
        id,
        "warn"@,
        "medium"@,
        "high"@,
        "Figure alternative text exceeds recommended length budget."@,
    )
    &&& any && !bad ==> concludes(
        r,
        id,
        "pass"@,
        "medium"@,
        "high"@,
        "Informative figure alternative text lengths are within the recommended budget."@,
    )
    &&& shows(r, id, "figure_informative_count"@, decimal(f.figure_informative_count as nat))
    &&& shows(r, id, "figure_alt_length_budget"@, decimal(f.figure_alt_length_budget as nat))
    &&& shows(r, id, "figure_alt_over_budget_count"@, decimal(f.figure_alt_over_budget_count as nat))
    &&& shows(r, id, "figure_max_alt_len"@, decimal(f.figure_max_alt_len as nat))
}

proof fn alt_budget_at(d: Seq<HtmlNode>, f: A11yVerifierFacts, r: Seq<FindingView>, at: int)
    requires
        facts_of(d, f),
        is_sole(r, "fb.a11y.figure.alt_length_budget_seed"@, at),
        r[at] == alt_budget_rule(f),
    ensures
        alt_budget_holds(d, f, r),
{
    figure_counts_are_exact(d, f);
    figures_that_fail_tell(d);
    verdicts_differ();
    let id = "fb.a11y.figure.alt_length_budget_seed"@;
    id_keys_hold();
    id_key_7();
    assert(r[at].evidence[0].values[0] == ("figure_informative_count"@, decimal(f.figure_informative_count as nat)));
    assert(r[at].evidence[0].values[1] == ("figure_alt_length_budget"@, decimal(f.figure_alt_length_budget as nat)));
    assert(r[at].evidence[0].values[2] == ("figure_alt_over_budget_count"@, decimal(f.figure_alt_over_budget_count as nat)));
    assert(r[at].evidence[0].values[3] == ("figure_max_alt_len"@, decimal(f.figure_max_alt_len as nat)));
}

/// The rule on long alternative texts warns if and only if one of a figure is too long, and does not
/// apply if and only if no figure shows more than decoration.
pub proof fn alt_budget_verdict(d: Seq<HtmlNode>, f: A11yVerifierFacts, q: A11yQuestion)
    requires
        facts_of(d, f),
    ensures
        alt_budget_holds(d, f, core_rules(f, q)),
{
    lead_is_sole(f, q, 6);
    lead_rules(f, q);
    alt_budget_at(d, f, core_rules(f, q), 6);
}

/// What the report says: of captions.
pub open spec fn caption_holds(
    d: Seq<HtmlNode>,
    f: A11yVerifierFacts,
    r: Seq<FindingView>,
) -> bool {
    let id = "fb.a11y.figure.caption_redundancy_seed"@;
    let any = exists|i: int| 0 <= i < d.len() && #[trigger] is_telling_figure(d, i);
    let bad = exists|i: int| 0 <= i < d.len() && #[trigger] is_repeating_figure(d, i);
    &&& verdict_is(r, id, "not_applicable"@) <==> !any
    &&& verdict_is(r, id, "warn"@) <==> bad
    &&& verdict_is(r, id, "pass"@) <==> any && !bad
    &&& !any ==> concludes(
        r,
        id,
        "not_applicable"@,
        "low"@,
        "high"@,
        "No informative figures detected; figure caption-redundancy rule not applicable."@,
    )
    &&& bad ==> concludes(
        r,
        id,
        "warn"@,
        "medium"@,
        "high"@,
        "Figure alt and figcaption content appear near-duplicate; announce-once optimization recommended."@,
    )
    &&& any && !bad ==> concludes(
        r,
        id,
        "pass"@,
        "medium"@,
        "high"@,
        "Figure alt and figcaption content are sufficiently distinct."@,
    )
    &&& shows(r, id, "figure_informative_count"@, decimal(f.figure_informative_count as nat))
    &&& shows(r, id, "figure_caption_redundancy_count"@, decimal(f.figure_caption_redundancy_count as nat))
}

proof fn caption_at(
    d: Seq<HtmlNode>,
    f: A11yVerifierFacts,
    q: A11yQuestion,
    r: Seq<FindingView>,
    at: int,
)
    requires
        facts_of(d, f),
        is_sole(r, "fb.a11y.figure.caption_redundancy_seed"@, at),
        r[at] == caption_rule(f, q.similarity_text@),
    ensures
        caption_holds(d, f, r),
{
    figure_counts_are_exact(d, f);
    figures_that_fail_tell(d);
    verdicts_differ();
    let id = "fb.a11y.figure.caption_redundancy_seed"@;
    id_keys_hold();
    id_key_8();
    assert(r[at].evidence[0].values[0] == ("figure_informative_count"@, decimal(f.figure_informative_count as nat)));
    assert(r[at].evidence[0].values[2] == ("figure_caption_redundancy_count"@, decimal(f.figure_caption_redundancy_count as nat)));
}

/// The rule on captions warns if and only if a caption repeats the alternative text of its figure,
/// and does not apply if and only if no figure shows more than decoration.
pub proof fn caption_verdict(d: Seq<HtmlNode>, f: A11yVerifierFacts, q: A11yQuestion)
    requires
        facts_of(d, f),
    ensures
        caption_holds(d, f, core_rules(f, q)),
{
    lead_is_sole(f, q, 7);
    lead_rules(f, q);
    caption_at(d, f, q, core_rules(f, q), 7);
}

/// What the report says: of the text of figures.
pub open spec fn figure_text_holds(
    d: Seq<HtmlNode>,
    f: A11yVerifierFacts,
    r: Seq<FindingView>,
) -> bool {
    let id = "fb.a11y.figure.missing_effective_text_seed"@;
    let any = exists|i: int| 0 <= i < d.len() && #[trigger] is_telling_figure(d, i);
    let bad = exists|i: int| 0 <= i < d.len() && #[trigger] is_textless_figure(d, i);
    &&& verdict_is(r, id, "not_applicable"@) <==> !any
    &&& verdict_is(r, id, "fail"@) <==> bad
    &&& verdict_is(r, id, "pass"@) <==> any && !bad
    &&& !any ==> concludes(
        r,
        id,
        "not_applicable"@,
        "low"@,
        "high"@,
        "No informative figures detected; missing-effective-figure-text rule not applicable."@,
    )
    &&& bad ==> concludes(
        r,
        id,
        "fail"@,
        "high"@,
        "high"@,
        "Informative figure(s) missing effective text alternatives (alt/ARIA/caption)."@,
    )
    &&& any && !bad ==> concludes(
        r,
        id,
        "pass"@,
        "high"@,
        "high"@,
        "Informative figures expose effective text alternatives (alt/ARIA/caption)."@,
    )
    &&& shows(r, id, "figure_informative_count"@, decimal(f.figure_informative_count as nat))
    &&& shows(r, id, "figure_missing_effective_text_count"@, decimal(f.figure_missing_effective_text_count as nat))
}

proof fn figure_text_at(d: Seq<HtmlNode>, f: A11yVerifierFacts, r: Seq<FindingView>, at: int)
    requires
        facts_of(d, f),
        is_sole(r, "fb.a11y.figure.missing_effective_text_seed"@, at),
        r[at] == figure_text_rule(f),
    ensures
        figure_text_holds(d, f, r),
{
    figure_counts_are_exact(d, f);
    figures_that_fail_tell(d);
    verdicts_differ();
    let id = "fb.a11y.figure.missing_effective_text_seed"@;
    id_keys_hold();
    id_key_9();
    assert(r[at].evidence[0].values[0] == ("figure_informative_count"@, decimal(f.figure_informative_count as nat)));
    assert(r[at].evidence[0].values[1] == ("figure_missing_effective_text_count"@, decimal(f.figure_missing_effective_text_count as nat)));
}

/// The rule on the text of figures fails if and only if a figure has neither a text alternative nor a
/// caption, and does not apply if and only if no figure shows more than decoration.
pub proof fn figure_text_verdict(d: Seq<HtmlNode>, f: A11yVerifierFacts, q: A11yQuestion)
    requires
        facts_of(d, f),
    ensures
        figure_text_holds(d, f, core_rules(f, q)),
{
    lead_is_sole(f, q, 8);
    lead_rules(f, q);
    figure_text_at(d, f, core_rules(f, q), 8);
}

proof fn figures_that_fail_tell(d: Seq<HtmlNode>)
    ensures
        forall|i: int| #[trigger] is_wordy_figure(d, i) ==> is_telling_figure(d, i),
        forall|i: int| #[trigger] is_repeating_figure(d, i) ==> is_telling_figure(d, i),
        forall|i: int| #[trigger] is_textless_figure(d, i) ==> is_telling_figure(d, i),
{
}

/// What the report says: of description lists that run into each other.
pub open spec fn dl_fragmentation_holds(
    d: Seq<HtmlNode>,
    f: A11yVerifierFacts,
    r: Seq<FindingView>,
) -> bool {
    let id = "fb.a11y.dl.fragmentation_seed"@;
    let adjacent = exists|i: int, j: int|
                0 <= i < d.len() && #[trigger] are_adjacent_lists(d, i, j);
    &&& verdict_is(r, id, "warn"@) <==> adjacent
    &&& verdict_is(r, id, "pass"@) <==> !adjacent
    &&& adjacent ==> concludes(
        r,
        id,
        "warn"@,
        "medium"@,
        "high"@,
        "Adjacent description-list siblings detected; consolidate into a single logical list where possible."@,
    )
    &&& !adjacent ==> concludes(
        r,
        id,
        "pass"@,
        "medium"@,
        "high"@,
        "No adjacent description-list fragmentation detected."@,
    )
    &&& shows(r, id, "dl_block_count"@, decimal(f.dl_block_count as nat))
    &&& shows(r, id, "dl_fragmentation_count"@, decimal(f.dl_fragmentation_count as nat))
}

proof fn dl_fragmentation_at(d: Seq<HtmlNode>, f: A11yVerifierFacts, r: Seq<FindingView>, at: int)
    requires
        facts_of(d, f),
        is_document(d),
        is_sole(r, "fb.a11y.dl.fragmentation_seed"@, at),
        r[at] == dl_fragmentation_rule(f),
    ensures
        dl_fragmentation_holds(d, f, r),
{
    fragments_are_adjacent_lists(d, f);
    verdicts_differ();
    let id = "fb.a11y.dl.fragmentation_seed"@;
    assert(r[at].evidence[0].values[0] == ("dl_block_count"@, decimal(f.dl_block_count as nat)));
    assert(r[at].evidence[0].values[1] == ("dl_fragmentation_count"@, decimal(f.dl_fragmentation_count as nat)));
}

/// The rule on lists that run into each other warns if and only if two description lists follow each
/// other in one element.
pub proof fn dl_fragmentation_verdict(d: Seq<HtmlNode>, f: A11yVerifierFacts, q: A11yQuestion)
    requires
        facts_of(d, f),
        is_document(d),
    ensures
        dl_fragmentation_holds(d, f, core_rules(f, q)),
{
    lead_is_sole(f, q, 9);
    lead_rules(f, q);
    dl_fragmentation_at(d, f, core_rules(f, q), 9);
}

/// What the report says: of small description lists.
pub open spec fn dl_consistency_holds(
    d: Seq<HtmlNode>,
    f: A11yVerifierFacts,
    r: Seq<FindingView>,
) -> bool {
    let id = "fb.a11y.dl.group_consistency_seed"@;
    let tiny = exists|i: int, a: int, b: int|
                0 <= i < d.len() && #[trigger] is_tiny_run(children(d, i), a, b);
    &&& verdict_is(r, id, "warn"@) <==> tiny
    &&& verdict_is(r, id, "pass"@) <==> !tiny
    &&& tiny ==> concludes(
        r,
        id,
        "warn"@,
        "medium"@,
        "high"@,
        "Repeated tiny description-list groups detected with similar structure; unify group semantics."@,
    )
    &&& !tiny ==> concludes(
        r,
        id,
        "pass"@,
        "medium"@,
        "high"@,
        "Description-list grouping consistency looks stable."@,
    )
    &&& shows(r, id, "dl_block_count"@, decimal(f.dl_block_count as nat))
    &&& shows(r, id, "dl_group_consistency_count"@, decimal(f.dl_group_consistency_count as nat))
}

proof fn dl_consistency_at(d: Seq<HtmlNode>, f: A11yVerifierFacts, r: Seq<FindingView>, at: int)
    requires
        facts_of(d, f),
        is_sole(r, "fb.a11y.dl.group_consistency_seed"@, at),
        r[at] == dl_consistency_rule(f),
    ensures
        dl_consistency_holds(d, f, r),
{
    uniform_lists_are_tiny_runs(d, f);
    verdicts_differ();
    let id = "fb.a11y.dl.group_consistency_seed"@;
    assert(r[at].evidence[0].values[0] == ("dl_block_count"@, decimal(f.dl_block_count as nat)));
    assert(r[at].evidence[0].values[1] == ("dl_group_consistency_count"@, decimal(f.dl_group_consistency_count as nat)));
}

/// The rule on small lists warns if and only if a run of description lists in one element holds
/// nothing but small ones.
pub proof fn dl_consistency_verdict(d: Seq<HtmlNode>, f: A11yVerifierFacts, q: A11yQuestion)
    requires
        facts_of(d, f),
    ensures
        dl_consistency_holds(d, f, core_rules(f, q)),
{
    lead_is_sole(f, q, 10);
    lead_rules(f, q);
    dl_consistency_at(d, f, core_rules(f, q), 10);
}

// ---------------------------------------------------------------------------------------------
// Focus, instructions, roles and active content
// ---------------------------------------------------------------------------------------------
/// What the report says: of the focus order.
pub open spec fn focus_holds(d: Seq<HtmlNode>, f: A11yVerifierFacts, r: Seq<FindingView>) -> bool {
    let id = "fb.a11y.focus.order_seed"@;
    let links = exists|i: int| 0 <= i < d.len() && #[trigger] is_anchor(d[i]);
    let controls = exists|i: int| 0 <= i < d.len() && #[trigger] is_form_control(d[i]);
    let any = links || controls;
    let positive = exists|i: int| 0 <= i < d.len() && #[trigger] has_positive_tabindex(d[i]);
    let invalid = exists|i: int| 0 <= i < d.len() && #[trigger] has_invalid_tabindex(d[i]);
    &&& verdict_is(r, id, "not_applicable"@) <==> !any
    &&& verdict_is(r, id, "warn"@) <==> any && (positive || invalid)
    &&& verdict_is(r, id, "pass"@) <==> any && !positive && !invalid
    &&& !any ==> concludes(
        r,
        id,
        "not_applicable"@,
        "medium"@,
        "high"@,
        "No interactive links or form controls detected; focus-order seed not applicable."@,
    )
    &&& any && positive ==> concludes(
        r,
        id,
        "warn"@,
        "medium"@,
        "medium"@,
        "Positive tabindex values detected; focus order may diverge from DOM order and requires manual review."@,
    )
    &&& any && !positive && invalid ==> concludes(
        r,
        id,
        "warn"@,
        "medium"@,
        "medium"@,
        "Invalid tabindex values detected; focus order behavior may be inconsistent and requires manual review."@,
    )
    &&& any && !positive && !invalid ==> concludes(
        r,
        id,
        "pass"@,
        "medium"@,
        "medium"@,
        "No positive/invalid tabindex focus-order override signals detected for interactive content."@,
    )
    &&& shows(r, id, "link_count"@, decimal(f.link_count as nat))
    &&& shows(r, id, "form_control_count"@, decimal(f.form_control_count as nat))
    &&& shows(r, id, "tabindex_attr_count"@, decimal(f.tabindex_attr_count as nat))
    &&& shows(r, id, "positive_tabindex_count"@, decimal(f.positive_tabindex_count as nat))
    &&& shows(r, id, "invalid_tabindex_count"@, decimal(f.invalid_tabindex_count as nat))
}

proof fn focus_at(d: Seq<HtmlNode>, f: A11yVerifierFacts, r: Seq<FindingView>, at: int)
    requires
        facts_of(d, f),
        is_sole(r, "fb.a11y.focus.order_seed"@, at),
        r[at] == focus_rule(f),
    ensures
        focus_holds(d, f, r),
{
    is_anchor_count(d, f);
    is_form_control_count(d, f);
    has_positive_tabindex_count(d, f);
    has_invalid_tabindex_count(d, f);
    verdicts_differ();
    let id = "fb.a11y.focus.order_seed"@;
    id_keys_hold();
    id_key_14();
    assert(r[at].evidence[0].values[1] == ("link_count"@, decimal(f.link_count as nat)));
    assert(r[at].evidence[0].values[2] == ("form_control_count"@, decimal(f.form_control_count as nat)));
    assert(r[at].evidence[0].values[3] == ("tabindex_attr_count"@, decimal(f.tabindex_attr_count as nat)));
    assert(r[at].evidence[0].values[4] == ("positive_tabindex_count"@, decimal(f.positive_tabindex_count as nat)));
    assert(r[at].evidence[0].values[5] == ("invalid_tabindex_count"@, decimal(f.invalid_tabindex_count as nat)));
}

/// The rule on the focus order warns if and only if the document has links or form controls and an
/// element has a focus place above nought or one that is no number. It does not apply if and only if
/// there are neither links nor form controls.
pub proof fn focus_verdict(d: Seq<HtmlNode>, f: A11yVerifierFacts, q: A11yQuestion)
    requires
        facts_of(d, f),
    ensures
        focus_holds(d, f, core_rules(f, q)),
{
    lead_is_sole(f, q, 13);
    lead_rules(f, q);
    focus_at(d, f, core_rules(f, q), 13);
}

/// The text of the document: that of the first `body` element with single spaces, in lower case.
pub open spec fn is_body_text(d: Seq<HtmlNode>, text: Seq<char>) -> bool {
    ||| exists|i: int| #[trigger]
        is_first_element(d, i, "body"@) && lower(normalize(text_contents(d, i))) == text
    ||| text.len() == 0 && forall|i: int| !#[trigger] is_first_element(d, i, "body"@)
}

pub(crate) proof fn body_text_is_one(d: Seq<HtmlNode>, f: A11yVerifierFacts, text: Seq<char>)
    requires
        facts_of(d, f),
        is_body_text(d, text),
    ensures
        lower(f.body_text@) == text,
{
    first_is_one(d, "body"@);
    match first_tag(d, 0, "body"@) {
        Some(i) => {
            assert(is_first_element(d, i, "body"@));
        },
        None => {
            assert(lower(Seq::<char>::empty()) =~= Seq::empty());
            assert(text =~= Seq::empty());
        },
    }
}

/// The text tells a reader to look at a place or a colour.
pub open spec fn points_by_looks(text: Seq<char>) -> bool {
    ||| contains(text, "see above"@)
    ||| contains(text, "see below"@)
    ||| contains(text, "shown above"@)
    ||| contains(text, "shown below"@)
    ||| contains(text, "on the left"@)
    ||| contains(text, "on the right"@)
    ||| contains(text, "left side"@)
    ||| contains(text, "right side"@)
    ||| contains(text, "top of the page"@)
    ||| contains(text, "bottom of the page"@)
    ||| contains(text, "red button"@)
    ||| contains(text, "green button"@)
    ||| contains(text, "blue button"@)
}

pub(crate) proof fn hits_above_nought(hay: Seq<char>, phrases: Seq<Seq<char>>)
    ensures
        phrase_hits(hay, phrases).len() > 0 <==> exists|k: int|
            0 <= k < phrases.len() && contains(hay, #[trigger] phrases[k]),
    decreases phrases.len(),
{
    if phrases.len() > 0 {
        let before = phrases.drop_last();
        hits_above_nought(hay, before);
        if phrase_hits(hay, before).len() > 0 {
            let k = choose|k: int| 0 <= k < before.len() && contains(hay, #[trigger] before[k]);
            assert(phrases[k] == before[k]);
        }
        if contains(hay, phrases.last()) {
            assert(phrases[phrases.len() - 1] == phrases.last());
        }
        if exists|k: int| 0 <= k < phrases.len() && contains(hay, #[trigger] phrases[k]) {
            let k = choose|k: int| 0 <= k < phrases.len() && contains(hay, #[trigger] phrases[k]);
            if k < before.len() {
                assert(before[k] == phrases[k]);
            }
        }
    }
}

proof fn sensory_hits(text: Seq<char>)
    ensures
        phrase_hits(text, sensory_phrases()).len() > 0 <==> points_by_looks(text),
{
    let all = sensory_phrases();
    hits_above_nought(text, all);
    if points_by_looks(text) {
        assert(contains(text, all[0]) || contains(text, all[1]) || contains(text, all[2]) || contains(text, all[3]) || contains(text, all[4]) || contains(text, all[5]) || contains(text, all[6]) || contains(text, all[7]) || contains(text, all[8]) || contains(text, all[9]) || contains(text, all[10]) || contains(text, all[11]) || contains(text, all[12]));
    }
}

/// What the report says: of instructions.
pub open spec fn sensory_holds(
    d: Seq<HtmlNode>,
    f: A11yVerifierFacts,
    q: A11yQuestion, text: Seq<char>,
    r: Seq<FindingView>,
) -> bool {
    let id = "fb.a11y.instructions.sensory_characteristics_seed"@;
    &&& verdict_is(r, id, "warn"@) <==> points_by_looks(text)
    &&& verdict_is(r, id, "pass"@) <==> !points_by_looks(text)
    &&& points_by_looks(text) ==> concludes(
        r,
        id,
        "warn"@,
        "medium"@,
        "medium"@,
        "Potential sensory-characteristics instruction phrases detected; manual review required."@,
    )
    &&& !points_by_looks(text) ==> concludes(
        r,
        id,
        "pass"@,
        "medium"@,
        "high"@,
        "No obvious sensory-characteristics instruction phrases detected."@,
    )
}

proof fn sensory_at(
    d: Seq<HtmlNode>,
    f: A11yVerifierFacts,
    q: A11yQuestion,
    text: Seq<char>,
    r: Seq<FindingView>,
    at: int,
)
    requires
        facts_of(d, f),
        is_body_text(d, text),
        is_sole(r, "fb.a11y.instructions.sensory_characteristics_seed"@, at),
        r[at] == sensory_rule(f),
    ensures
        sensory_holds(d, f, q, text, r),
{
    verdicts_differ();
    let id = "fb.a11y.instructions.sensory_characteristics_seed"@;
    body_text_is_one(d, f, text);
    sensory_hits(text);
}

/// The rule on instructions warns if and only if the text of the document tells a reader to look at
/// a place or a colour.
pub proof fn sensory_verdict(
    d: Seq<HtmlNode>,
    f: A11yVerifierFacts,
    q: A11yQuestion,
    text: Seq<char>,
)
    requires
        facts_of(d, f),
        is_body_text(d, text),
    ensures
        sensory_holds(d, f, q, text, core_rules(f, q)),
{
    lead_is_sole(f, q, 15);
    lead_rules(f, q);
    sensory_at(d, f, q, text, core_rules(f, q), 15);
}

/// What the report says: of roles.
pub open spec fn redundant_role_holds(
    d: Seq<HtmlNode>,
    f: A11yVerifierFacts,
    r: Seq<FindingView>,
) -> bool {
    let id = "fb.a11y.aria.redundant_role_native_seed"@;
    let repeated = exists|i: int| 0 <= i < d.len() && #[trigger] repeats_role(d[i]);
    &&& verdict_is(r, id, "warn"@) <==> repeated
    &&& verdict_is(r, id, "pass"@) <==> !repeated
    &&& repeated ==> concludes(
        r,
        id,
        "warn"@,
        "medium"@,
        "certain"@,
        "Explicit roles duplicate native semantics on one or more elements."@,
    )
    &&& !repeated ==> concludes(
        r,
        id,
        "pass"@,
        "medium"@,
        "certain"@,
        "No obvious redundant explicit-role/native-semantic duplication detected."@,
    )
    &&& shows(r, id, "redundant_role_native_count"@, decimal(f.redundant_role_native_count as nat))
}

proof fn redundant_role_place(f: A11yVerifierFacts, q: A11yQuestion) -> (at: int)
    ensures
        is_sole(core_rules(f, q), "fb.a11y.aria.redundant_role_native_seed"@, at),
        core_rules(f, q)[at] == redundant_role_rule(f),
{
    closing_ids(f, q);
    let m = 0int;
    closing_is_sole(f, q, m);
    assert(closing_rules(f, q)[m] == redundant_role_rule(f));
    rest_from(f) + m
}

proof fn redundant_role_at(d: Seq<HtmlNode>, f: A11yVerifierFacts, r: Seq<FindingView>, at: int)
    requires
        facts_of(d, f),
        is_sole(r, "fb.a11y.aria.redundant_role_native_seed"@, at),
        r[at] == redundant_role_rule(f),
    ensures
        redundant_role_holds(d, f, r),
{
    repeats_role_count(d, f);
    verdicts_differ();
    let id = "fb.a11y.aria.redundant_role_native_seed"@;
    assert(r[at].evidence[0].values[0] == ("redundant_role_native_count"@, decimal(f.redundant_role_native_count as nat)));
}

/// The rule on roles warns if and only if an element states the role that it has by itself.
pub proof fn redundant_role_verdict(d: Seq<HtmlNode>, f: A11yVerifierFacts, q: A11yQuestion)
    requires
        facts_of(d, f),
    ensures
        redundant_role_holds(d, f, core_rules(f, q)),
{
    let at = redundant_role_place(f, q);
    redundant_role_at(d, f, core_rules(f, q), at);
}

/// What the report says: of states.
pub open spec fn redundant_state_holds(
    d: Seq<HtmlNode>,
    f: A11yVerifierFacts,
    r: Seq<FindingView>,
) -> bool {
    let id = "fb.a11y.aria.redundant_state_native_seed"@;
    let repeated = exists|i: int| 0 <= i < d.len() && #[trigger] repeats_state(d[i]);
    &&& verdict_is(r, id, "warn"@) <==> repeated
    &&& verdict_is(r, id, "pass"@) <==> !repeated
    &&& repeated ==> concludes(
        r,
        id,
        "warn"@,
        "medium"@,
        "certain"@,
        "ARIA state/property duplicates equivalent native HTML state on one or more elements."@,
    )
    &&& !repeated ==> concludes(
        r,
        id,
        "pass"@,
        "medium"@,
        "certain"@,
        "No obvious redundant ARIA state/native-state duplication detected."@,
    )
    &&& shows(r, id, "redundant_state_native_count"@, decimal(f.redundant_state_native_count as nat))
}

proof fn redundant_state_place(f: A11yVerifierFacts, q: A11yQuestion) -> (at: int)
    ensures
        is_sole(core_rules(f, q), "fb.a11y.aria.redundant_state_native_seed"@, at),
        core_rules(f, q)[at] == redundant_state_rule(f),
{
    closing_ids(f, q);
    let m = 1int;
    closing_is_sole(f, q, m);
    assert(closing_rules(f, q)[m] == redundant_state_rule(f));
    rest_from(f) + m
}

proof fn redundant_state_at(d: Seq<HtmlNode>, f: A11yVerifierFacts, r: Seq<FindingView>, at: int)
    requires
        facts_of(d, f),
        is_sole(r, "fb.a11y.aria.redundant_state_native_seed"@, at),
        r[at] == redundant_state_rule(f),
    ensures
        redundant_state_holds(d, f, r),
{
    other_counts_are_right(d, f);
    verdicts_differ();
    let id = "fb.a11y.aria.redundant_state_native_seed"@;
    assert(r[at].evidence[0].values[0] == ("redundant_state_native_count"@, decimal(f.redundant_state_native_count as nat)));
}

/// The rule on states warns if and only if an element states a native state of its own once more.
pub proof fn redundant_state_verdict(d: Seq<HtmlNode>, f: A11yVerifierFacts, q: A11yQuestion)
    requires
        facts_of(d, f),
    ensures
        redundant_state_holds(d, f, core_rules(f, q)),
{
    let at = redundant_state_place(f, q);
    redundant_state_at(d, f, core_rules(f, q), at);
}

/// The element acts by itself.
pub open spec fn acts_by_itself(n: HtmlNode) -> bool {
    is_script(n) || is_embedded(n) || plays_by_itself(n) || blinks(n) || refreshes(n)
        || handles_events(n)
}

/// What the report says: of active content.
pub open spec fn interference_holds(
    d: Seq<HtmlNode>,
    f: A11yVerifierFacts,
    r: Seq<FindingView>,
) -> bool {
    let id = "fb.a11y.claim.non_interference_seed"@;
    let active = exists|i: int| 0 <= i < d.len() && #[trigger] acts_by_itself(d[i]);
    &&& verdict_is(r, id, "warn"@) <==> active
    &&& verdict_is(r, id, "pass"@) <==> !active
    &&& active ==> concludes(
        r,
        id,
        "warn"@,
        "medium"@,
        "medium"@,
        "Potential non-interference risk signals detected; manual review required."@,
    )
    &&& !active ==> concludes(
        r,
        id,
        "pass"@,
        "medium"@,
        "high"@,
        "No obvious active-content non-interference risk signals detected in emitted HTML."@,
    )
    &&& shows(r, id, "script_element_count"@, decimal(f.script_element_count as nat))
    &&& shows(r, id, "embedded_active_content_count"@, decimal(f.embedded_active_content_count as nat))
    &&& shows(r, id, "autoplay_media_count"@, decimal(f.autoplay_media_count as nat))
    &&& shows(r, id, "blink_marquee_count"@, decimal(f.blink_marquee_count as nat))
    &&& shows(r, id, "inline_event_handler_attr_count"@, decimal(f.inline_event_handler_attr_count as nat))
    &&& shows(r, id, "meta_refresh_count"@, decimal(f.meta_refresh_count as nat))
}

proof fn interference_place(f: A11yVerifierFacts, q: A11yQuestion) -> (at: int)
    ensures
        is_sole(core_rules(f, q), "fb.a11y.claim.non_interference_seed"@, at),
        core_rules(f, q)[at] == interference_rule(f),
{
    closing_ids(f, q);
    let m = closing_rules(f, q).len() - 1;
    closing_is_sole(f, q, m);
    assert(closing_rules(f, q)[m] == interference_rule(f));
    rest_from(f) + m
}

proof fn interference_at(d: Seq<HtmlNode>, f: A11yVerifierFacts, r: Seq<FindingView>, at: int)
    requires
        facts_of(d, f),
        is_sole(r, "fb.a11y.claim.non_interference_seed"@, at),
        r[at] == interference_rule(f),
    ensures
        interference_holds(d, f, r),
{
    is_script_count(d, f);
    is_embedded_count(d, f);
    plays_by_itself_count(d, f);
    blinks_count(d, f);
    refreshes_count(d, f);
    other_counts_are_right(d, f);
    verdicts_differ();
    let id = "fb.a11y.claim.non_interference_seed"@;
    assert((exists|i: int| 0 <= i < d.len() && #[trigger] acts_by_itself(d[i]))
        == is_active(f)) by {
        if exists|i: int| 0 <= i < d.len() && #[trigger] acts_by_itself(d[i]) {
            let i = choose|i: int| 0 <= i < d.len() && #[trigger] acts_by_itself(d[i]);
            assert(is_script(d[i]) || is_embedded(d[i]) || plays_by_itself(d[i]) || blinks(d[i])
                || refreshes(d[i]) || handles_events(d[i]));
        }
        if f.script_element_count > 0 {
            let i = choose|i: int| 0 <= i < d.len() && #[trigger] is_script(d[i]);
            assert(acts_by_itself(d[i]));
        }
        if f.embedded_active_content_count > 0 {
            let i = choose|i: int| 0 <= i < d.len() && #[trigger] is_embedded(d[i]);
            assert(acts_by_itself(d[i]));
        }
        if f.autoplay_media_count > 0 {
            let i = choose|i: int| 0 <= i < d.len() && #[trigger] plays_by_itself(d[i]);
            assert(acts_by_itself(d[i]));
        }
        if f.blink_marquee_count > 0 {
            let i = choose|i: int| 0 <= i < d.len() && #[trigger] blinks(d[i]);
            assert(acts_by_itself(d[i]));
        }
        if f.meta_refresh_count > 0 {
            let i = choose|i: int| 0 <= i < d.len() && #[trigger] refreshes(d[i]);
            assert(acts_by_itself(d[i]));
        }
        if f.inline_event_handler_attr_count > 0 {
            let i = choose|i: int| 0 <= i < d.len() && #[trigger] handles_events(d[i]);
            assert(acts_by_itself(d[i]));
        }
    }
    assert(r[at].evidence[0].values[0] == ("script_element_count"@, decimal(f.script_element_count as nat)));
    assert(r[at].evidence[0].values[1] == ("embedded_active_content_count"@, decimal(f.embedded_active_content_count as nat)));
    assert(r[at].evidence[0].values[2] == ("autoplay_media_count"@, decimal(f.autoplay_media_count as nat)));
    assert(r[at].evidence[0].values[3] == ("blink_marquee_count"@, decimal(f.blink_marquee_count as nat)));
    assert(r[at].evidence[0].values[4] == ("inline_event_handler_attr_count"@, decimal(f.inline_event_handler_attr_count as nat)));
    assert(r[at].evidence[0].values[5] == ("meta_refresh_count"@, decimal(f.meta_refresh_count as nat)));
}

/// The rule on active content warns if and only if an element acts by itself.
pub proof fn interference_verdict(d: Seq<HtmlNode>, f: A11yVerifierFacts, q: A11yQuestion)
    requires
        facts_of(d, f),
    ensures
        interference_holds(d, f, core_rules(f, q)),
{
    let at = interference_place(f, q);
    interference_at(d, f, core_rules(f, q), at);
}

/// What the report says: of signatures.
pub open spec fn signature_holds(
    d: Seq<HtmlNode>,
    f: A11yVerifierFacts,
    q: A11yQuestion,
    text: Seq<char>,
    r: Seq<FindingView>,
) -> bool {
    let id = "fb.a11y.signatures.text_semantics_present"@;
    let asked = lower(q.profile@) == "cav"@ || lower(q.profile@) == "transactional"@;
    let signed = exists|i: int| 0 <= i < d.len() && #[trigger] is_signature(d[i]);
    let speaks = contains(text, "signature"@) || contains(text, "signed"@);
    &&& asked <==> exists|i: int| 0 <= i < r.len() && (#[trigger] r[i]).rule_id == id
    &&& asked ==> {
        &&& verdict_is(r, id, "pass"@) <==> signed
        &&& verdict_is(r, id, "fail"@) <==> !signed && speaks
        &&& verdict_is(r, id, "not_applicable"@) <==> !signed && !speaks
        &&& signed ==> concludes(
            r,
            id,
            "pass"@,
            "medium"@,
            "certain"@,
            "Signature fields include text-first semantics."@,
        )
        &&& !signed && speaks ==> concludes(
            r,
            id,
            "fail"@,
            "medium"@,
            "certain"@,
            "No text-first signature semantics detected."@,
        )
        &&& !signed && !speaks ==> concludes(
            r,
            id,
            "not_applicable"@,
            "medium"@,
            "certain"@,
            "No signature-bearing content cues detected; signature semantics check not applicable."@,
        )
        &&& shows(
            r,
            id,
            "signature_semantic_count"@,
            decimal(f.signature_semantic_count as nat),
        )
    }
}

proof fn signature_at(
    d: Seq<HtmlNode>,
    f: A11yVerifierFacts,
    q: A11yQuestion,
    text: Seq<char>,
    r: Seq<FindingView>,
    at: int,
)
    requires
        facts_of(d, f),
        is_body_text(d, text),
        asks_for_signatures(q.profile@) ==> is_sole(
            r,
            "fb.a11y.signatures.text_semantics_present"@,
            at,
        ) && r[at] == signature_rule(f),
        !asks_for_signatures(q.profile@) ==> forall|j: int|
            0 <= j < r.len() ==> (#[trigger] r[j]).rule_id
                != "fb.a11y.signatures.text_semantics_present"@,
    ensures
        signature_holds(d, f, q, text, r),
{
    verdicts_differ();
    is_signature_count(d, f);
    body_text_is_one(d, f, text);
    if asks_for_signatures(q.profile@) {
        assert(r[at].rule_id == "fb.a11y.signatures.text_semantics_present"@);
        assert(r[at].evidence[0].values[0] == (
            "signature_semantic_count"@,
            decimal(f.signature_semantic_count as nat),
        ));
    }
}

/// The rule on signatures stands in the report if and only if the profile asks for it. It passes if
/// and only if an element says how it was signed; else it fails if and only if the text of the
/// document speaks of signatures, and does not apply where the text does not.
pub proof fn signature_verdict(
    d: Seq<HtmlNode>,
    f: A11yVerifierFacts,
    q: A11yQuestion,
    text: Seq<char>,
)
    requires
        facts_of(d, f),
        is_body_text(d, text),
    ensures
        signature_holds(d, f, q, text, core_rules(f, q)),
{
    if asks_for_signatures(q.profile@) {
        closing_ids(f, q);
        closing_is_sole(f, q, 2);
    } else {
        report_has_ids(f, q);
        unasked_signatures(core_rules(f, q), dup_count(f), miss_count(f));
    }
    signature_at(d, f, q, text, core_rules(f, q), rest_from(f) + 2);
}

// ---------------------------------------------------------------------------------------------
// Ids and references
// ---------------------------------------------------------------------------------------------
/// Finding `i` is one of the rule, and holds the value under the name.
pub open spec fn is_finding_on(
    r: Seq<FindingView>,
    id: Seq<char>,
    i: int,
    name: Seq<char>,
    value: Seq<char>,
) -> bool {
    &&& 0 <= i < r.len()
    &&& r[i].rule_id == id
    &&& r[i].evidence.len() == 1
    &&& r[i].evidence[0].values.contains((name, value))
}

/// What the report says: of ids that are not unique.
pub open spec fn duplicate_ids_hold(d: Seq<HtmlNode>, r: Seq<FindingView>) -> bool {
    let id = "fb.a11y.ids.duplicate_id"@;
    let shared = exists|x: Seq<char>| #[trigger] is_shared_id(d, x);
    &&& verdict_is(r, id, "pass"@) <==> !shared
    &&& !shared ==> concludes(
        r,
        id,
        "pass"@,
        "critical"@,
        "certain"@,
        "No duplicate IDs detected."@,
    )
    &&& shared <==> exists|i: int|
        0 <= i < r.len() && (#[trigger] r[i]).rule_id == id && r[i].verdict == "fail"@
    &&& forall|x: Seq<char>| #[trigger]
        is_shared_id(d, x) ==> exists|i: int| #[trigger]
            is_finding_on(r, id, i, "id"@, x) && r[i].verdict == "fail"@
    &&& forall|i: int|
        0 <= i < r.len() && (#[trigger] r[i]).rule_id == id ==> r[i].severity == "critical"@
            && (r[i].verdict == "fail"@ || r[i].verdict == "pass"@) && (r[i].verdict
            == "fail"@ ==> exists|x: Seq<char>| #[trigger]
            is_shared_id(d, x) && is_finding_on(r, id, i, "id"@, x))
}

proof fn duplicate_ids_at(d: Seq<HtmlNode>, f: A11yVerifierFacts, r: Seq<FindingView>)
    requires
        facts_of(d, f),
        ({
            let a = duplicate_rules(texts(f.duplicate_ids@));
            &&& r.len() >= 16 + a.len()
            &&& forall|j: int| 16 <= j < 16 + a.len() ==> #[trigger] r[j] == a[j - 16]
            &&& forall|j: int|
                0 <= j < r.len() && (#[trigger] r[j]).rule_id == "fb.a11y.ids.duplicate_id"@ ==> 16
                    <= j < 16 + a.len()
        }),
    ensures
        duplicate_ids_hold(d, r),
{
    verdicts_differ();
    let id = "fb.a11y.ids.duplicate_id"@;
    let dups = texts(f.duplicate_ids@);
    let a = duplicate_rules(dups);
    repeated_ids_are_shared(d, f);
    if dups.len() == 0 {
        assert(r[16] == a[0]);
        assert(is_sole(r, id, 16));
        assert forall|x: Seq<char>| !#[trigger] is_shared_id(d, x) by {
            assert(!dups.contains(x));
        }
    } else {
        assert(dups.contains(dups[0]));
        assert(is_shared_id(d, dups[0]));
        assert forall|k: int| 0 <= k < dups.len() implies is_finding_on(
            r,
            id,
            16 + k,
            "id"@,
            #[trigger] dups[k],
        ) && r[16 + k].verdict == "fail"@ && is_shared_id(d, dups[k]) by {
            assert(r[16 + k] == a[k]);
            assert(r[16 + k].evidence[0].values[0] == ("id"@, dups[k]));
            assert(dups.contains(dups[k]));
        }
        assert(is_finding_on(r, id, 16, "id"@, dups[0]));
        assert(r[16].rule_id == id);
        assert forall|x: Seq<char>| #[trigger] is_shared_id(d, x) implies exists|i: int| #[trigger]
            is_finding_on(r, id, i, "id"@, x) && r[i].verdict == "fail"@ by {
            assert(dups.contains(x));
            let k = choose|k: int| 0 <= k < dups.len() && dups[k] == x;
            assert(is_finding_on(r, id, 16 + k, "id"@, dups[k]));
        }
        assert forall|i: int| 0 <= i < r.len() && (#[trigger] r[i]).rule_id == id implies r[i].severity
            == "critical"@ && r[i].verdict == "fail"@ && exists|x: Seq<char>| #[trigger]
            is_shared_id(d, x) && is_finding_on(r, id, i, "id"@, x) by {
            let x = dups[i - 16];
            assert(is_finding_on(r, id, 16 + (i - 16), "id"@, x));
            assert(r[i] == a[i - 16]);
        }
        if verdict_is(r, id, "pass"@) {
            let i = choose|i: int| #[trigger] is_sole(r, id, i) && r[i].verdict == "pass"@;
            assert(r[i].rule_id == id);
        }
    }
}

/// The rule on repeated ids passes if and only if no two elements share one. Else each id that is
/// shared has a finding, which fails, and nothing else has one.
pub proof fn duplicate_ids_verdict(d: Seq<HtmlNode>, f: A11yVerifierFacts, q: A11yQuestion)
    requires
        facts_of(d, f),
    ensures
        duplicate_ids_hold(d, core_rules(f, q)),
{
    let a = duplicate_rules(texts(f.duplicate_ids@));
    report_parts(f, q);
    report_has_ids(f, q);
    stretch_of(core_rules(f, q), dup_count(f), miss_count(f), asks_for_signatures(q.profile@));
    duplicate_ids_at(d, f, core_rules(f, q));
}

/// What the report says: of references to ids.
pub open spec fn references_hold(d: Seq<HtmlNode>, r: Seq<FindingView>) -> bool {
    let id = "fb.a11y.aria.reference_target_exists"@;
    let broken = exists|i: int, name: Seq<char>, word: Seq<char>|
        0 <= i < d.len() && #[trigger] is_broken_reference(d, i, name, word);
    &&& verdict_is(r, id, "pass"@) <==> !broken
    &&& !broken ==> concludes(
        r,
        id,
        "pass"@,
        "critical"@,
        "certain"@,
        "No broken ARIA ID references detected."@,
    )
    &&& broken <==> exists|i: int|
        0 <= i < r.len() && (#[trigger] r[i]).rule_id == id && r[i].verdict == "fail"@
    &&& forall|i: int, name: Seq<char>, word: Seq<char>|
        0 <= i < d.len() && #[trigger] is_broken_reference(d, i, name, word) ==> exists|
            j: int,
        | #[trigger]
            is_finding_on(r, id, j, "attr"@, name) && is_finding_on(
                r,
                id,
                j,
                "target_id"@,
                word,
            ) && r[j].verdict == "fail"@
}

proof fn references_at(d: Seq<HtmlNode>, f: A11yVerifierFacts, r: Seq<FindingView>, from: int)
    requires
        facts_of(d, f),
        ({
            let b = missing_rules(pairs(f.missing_idrefs@));
            &&& 0 <= from && r.len() >= from + b.len()
            &&& forall|j: int| from <= j < from + b.len() ==> #[trigger] r[j] == b[j - from]
            &&& forall|j: int|
                0 <= j < r.len() && (#[trigger] r[j]).rule_id
                    == "fb.a11y.aria.reference_target_exists"@ ==> from <= j < from + b.len()
        }),
    ensures
        references_hold(d, r),
{
    verdicts_differ();
    let id = "fb.a11y.aria.reference_target_exists"@;
    let refs = pairs(f.missing_idrefs@);
    let b = missing_rules(refs);
    missing_references_are_broken(d, f);
    if refs.len() == 0 {
        assert(r[from] == b[0]);
        assert(is_sole(r, id, from));
        assert forall|i: int, name: Seq<char>, word: Seq<char>| 0 <= i < d.len() implies !#[trigger] is_broken_reference(
            d,
            i,
            name,
            word,
        ) by {
            let pair = (name, word);
            assert(!refs.contains(pair));
            if is_broken_reference(d, i, name, word) {
                assert(is_broken_reference(d, i, pair.0, pair.1));
            }
        }
    } else {
        assert(refs.contains(refs[0]));
        let m = choose|m: int|
            0 <= m < d.len() && #[trigger] is_broken_reference(d, m, refs[0].0, refs[0].1);
        assert(is_broken_reference(d, m, refs[0].0, refs[0].1));
        assert forall|k: int| 0 <= k < refs.len() implies is_finding_on(
            r,
            id,
            from + k,
            "attr"@,
            (#[trigger] refs[k]).0,
        ) && is_finding_on(r, id, from + k, "target_id"@, refs[k].1) && r[from + k].verdict
            == "fail"@ by {
            assert(r[from + k] == b[k]);
            assert(r[from + k].evidence[0].values[0] == ("attr"@, refs[k].0));
            assert(r[from + k].evidence[0].values[1] == ("target_id"@, refs[k].1));
        }
        assert(is_finding_on(r, id, from, "attr"@, refs[0].0));
        assert(r[from].rule_id == id);
        assert forall|i: int, name: Seq<char>, word: Seq<char>|
            0 <= i < d.len() && #[trigger] is_broken_reference(d, i, name, word) implies exists|
                j: int,
            | #[trigger]
                is_finding_on(r, id, j, "attr"@, name) && is_finding_on(r, id, j, "target_id"@, word)
                    && r[j].verdict == "fail"@ by {
            let pair = (name, word);
            assert(is_broken_reference(d, i, pair.0, pair.1));
            assert(refs.contains(pair));
            let k = choose|k: int| 0 <= k < refs.len() && refs[k] == (name, word);
            assert(is_finding_on(r, id, from + k, "attr"@, refs[k].0));
        }
        if verdict_is(r, id, "pass"@) {
            let i = choose|i: int| #[trigger] is_sole(r, id, i) && r[i].verdict == "pass"@;
            assert(r[i].rule_id == id);
            assert(r[i] == b[i - from]);
        }
    }
}

/// The rule on references passes if and only if every reference finds its element. Else each one
/// that does not has a finding, which fails, and nothing else has one.
pub proof fn references_verdict(d: Seq<HtmlNode>, f: A11yVerifierFacts, q: A11yQuestion)
    requires
        facts_of(d, f),
    ensures
        references_hold(d, core_rules(f, q)),
{
    let a = duplicate_rules(texts(f.duplicate_ids@));
    let from = 16int + a.len();
    report_parts(f, q);
    report_has_ids(f, q);
    stretch_of(core_rules(f, q), dup_count(f), miss_count(f), asks_for_signatures(q.profile@));
    references_at(d, f, core_rules(f, q), from);
}

/// More form controls without a label never turn a fail into anything else.
pub proof fn more_unlabeled_controls_still_fail(
    d: Seq<HtmlNode>,
    f: A11yVerifierFacts,
    e: Seq<HtmlNode>,
    g: A11yVerifierFacts,
    q: A11yQuestion,
)
    requires
        facts_of(d, f),
        facts_of(e, g),
        nodes_with(d, |i: int| is_nameless_control(d, i)).len() <= nodes_with(
            e,
            |i: int| is_nameless_control(e, i),
        ).len(),
        verdict_is(core_rules(f, q), "fb.a11y.forms.labels_or_instructions_present"@, "fail"@),
    ensures
        verdict_is(core_rules(g, q), "fb.a11y.forms.labels_or_instructions_present"@, "fail"@),
{
    form_labels_verdict(d, f, q);
    form_labels_verdict(e, g, q);
    is_nameless_control_count(d, f);
    is_nameless_control_count(e, g);
}

// ---------------------------------------------------------------------------------------------
// The whole report
// ---------------------------------------------------------------------------------------------
/// The report says of every rule what holds of the nodes of the document.
#[verifier::opaque]
pub open spec fn is_right_report(
    d: Seq<HtmlNode>,
    f: A11yVerifierFacts,
    q: A11yQuestion,
    r: Seq<FindingView>,
) -> bool {
    &&& lang_holds(d, f, q, r)
    &&& parts_lang_holds(d, f, r)
    &&& forall|title: Seq<char>| #[trigger] is_title(d, title) ==> title_holds(d, f, q, title, r)
    &&& main_holds(d, f, q, r)
    &&& headings_labels_holds(d, f, r)
    &&& images_holds(d, f, r)
    &&& alt_budget_holds(d, f, r)
    &&& caption_holds(d, f, r)
    &&& figure_text_holds(d, f, r)
    &&& dl_fragmentation_holds(d, f, r)
    &&& dl_consistency_holds(d, f, r)
    &&& form_labels_holds(d, f, r)
    &&& form_errors_holds(d, f, r)
    &&& focus_holds(d, f, r)
    &&& links_holds(d, f, r)
    &&& forall|text: Seq<char>| #[trigger]
        is_body_text(d, text) ==> sensory_holds(d, f, q, text, r) && signature_holds(
            d,
            f,
            q,
            text,
            r,
        )
    &&& duplicate_ids_hold(d, r)
    &&& references_hold(d, r)
    &&& redundant_role_holds(d, f, r)
    &&& redundant_state_holds(d, f, r)
    &&& interference_holds(d, f, r)
}

/// Every report on a document is right in all its rules.
pub proof fn reports_are_right(d: Seq<HtmlNode>, f: A11yVerifierFacts, q: A11yQuestion)
    requires
        is_document(d),
        facts_of(d, f),
    ensures
        is_right_report(d, f, q, core_rules(f, q)),
{
    reveal(is_right_report);
    lang_verdict(d, f, q);
    parts_lang_verdict(d, f, q);
    main_verdict(d, f, q);
    headings_labels_verdict(d, f, q);
    images_verdict(d, f, q);
    alt_budget_verdict(d, f, q);
    caption_verdict(d, f, q);
    figure_text_verdict(d, f, q);
    dl_fragmentation_verdict(d, f, q);
    dl_consistency_verdict(d, f, q);
    form_labels_verdict(d, f, q);
    form_errors_verdict(d, f, q);
    focus_verdict(d, f, q);
    links_verdict(d, f, q);
    duplicate_ids_verdict(d, f, q);
    references_verdict(d, f, q);
    redundant_role_verdict(d, f, q);
    redundant_state_verdict(d, f, q);
    interference_verdict(d, f, q);
    assert forall|title: Seq<char>| #[trigger] is_title(d, title) implies title_holds(
        d,
        f,
        q,
        title,
        core_rules(f, q),
    ) by {
        title_verdict(d, f, q, title);
    }
    assert forall|text: Seq<char>| #[trigger] is_body_text(d, text) implies sensory_holds(
        d,
        f,
        q,
        text,
        core_rules(f, q),
    ) && signature_holds(d, f, q, text, core_rules(f, q)) by {
        sensory_verdict(d, f, q, text);
        signature_verdict(d, f, q, text);
    }
}

} // verus!

//! The findings of the accessibility verifier.
//!
//! Each rule of the verifier reads the facts of a document and reports one finding. What a rule
//! reports is a spec function; the function beside it builds the report.
use vstd::prelude::*;

use crate::facts::{pairs, A11yVerifierFacts};
use crate::signals::{lang_tag_valid, a11y_lang_value_is_valid};
use crate::text::{
    blank, concat, contains, contains_text, count_text, decimal, is_blank, join, join_strings,
    lower, lowered, same, texts,
};

verus! {

broadcast use vstd::string::group_string_axioms;

/// What supports a finding: named values, and the selector of the element they were read from.
pub struct A11yVerifierEvidence {
    pub selector: Option<String>,
    pub values: Vec<(String, String)>,
}

/// The report of one rule.
pub struct A11yVerifierFinding {
    pub rule_id: String,
    pub applicability: String,
    pub verification_mode: String,
    pub verdict: String,
    pub severity: String,
    pub confidence: String,
    pub stage: String,
    pub source: String,
    pub message: String,
    pub evidence: Vec<A11yVerifierEvidence>,
}

/// Evidence as plain sequences.
#[verifier::ext_equal]
pub struct EvidenceView {
    pub selector: Option<Seq<char>>,
    pub values: Seq<(Seq<char>, Seq<char>)>,
}

/// A finding as plain sequences.
#[verifier::ext_equal]
pub struct FindingView {
    pub rule_id: Seq<char>,
    pub applicability: Seq<char>,
    pub verification_mode: Seq<char>,
    pub verdict: Seq<char>,
    pub severity: Seq<char>,
    pub confidence: Seq<char>,
    pub stage: Seq<char>,
    pub source: Seq<char>,
    pub message: Seq<char>,
    pub evidence: Seq<EvidenceView>,
}

impl View for A11yVerifierEvidence {
    type V = EvidenceView;

    open spec fn view(&self) -> EvidenceView {
        EvidenceView {
            selector: match self.selector {
                Some(s) => Some(s@),
                None => None,
            },
            values: pairs(self.values@),
        }
    }
}

/// The views of a list of evidence.
pub open spec fn evidence_views(v: Seq<A11yVerifierEvidence>) -> Seq<EvidenceView> {
    Seq::new(v.len(), |i: int| v[i]@)
}

impl View for A11yVerifierFinding {
    type V = FindingView;

    open spec fn view(&self) -> FindingView {
        FindingView {
            rule_id: self.rule_id@,
            applicability: self.applicability@,
            verification_mode: self.verification_mode@,
            verdict: self.verdict@,
            severity: self.severity@,
            confidence: self.confidence@,
            stage: self.stage@,
            source: self.source@,
            message: self.message@,
            evidence: evidence_views(self.evidence@),
        }
    }
}

/// The views of a list of findings.
pub open spec fn finding_views(v: Seq<A11yVerifierFinding>) -> Seq<FindingView> {
    Seq::new(v.len(), |i: int| v[i]@)
}

/// How sure a finding is and how it was come by.
pub struct Basis {
    pub applicability: &'static str,
    pub mode: &'static str,
    pub confidence: &'static str,
}

/// A finding on the emitted document.
pub open spec fn emitted(
    rule_id: Seq<char>,
    applicability: Seq<char>,
    mode: Seq<char>,
    verdict: Seq<char>,
    severity: Seq<char>,
    confidence: Seq<char>,
    message: Seq<char>,
    evidence: Seq<EvidenceView>,
) -> FindingView {
    FindingView {
        rule_id,
        applicability,
        verification_mode: mode,
        verdict,
        severity,
        confidence,
        stage: "post-emit"@,
        source: "fullbleed"@,
        message,
        evidence,
    }
}

fn emit(
    rule_id: &str,
    basis: Basis,
    verdict: &str,
    severity: &str,
    message: &str,
    evidence: Vec<A11yVerifierEvidence>,
) -> (r: A11yVerifierFinding)
    ensures
        r@ == emitted(
            rule_id@,
            basis.applicability@,
            basis.mode@,
            verdict@,
            severity@,
            basis.confidence@,
            message@,
            evidence_views(evidence@),
        ),
{
    A11yVerifierFinding {
        rule_id: rule_id.to_owned(),
        applicability: basis.applicability.to_owned(),
        verification_mode: basis.mode.to_owned(),
        verdict: verdict.to_owned(),
        severity: severity.to_owned(),
        confidence: basis.confidence.to_owned(),
        stage: "post-emit".to_owned(),
        source: "fullbleed".to_owned(),
        message: message.to_owned(),
        evidence,
    }
}

/// One piece of evidence without a selector.
pub open spec fn observed(values: Seq<(Seq<char>, Seq<char>)>) -> Seq<EvidenceView> {
    seq![EvidenceView { selector: None, values }]
}

/// One piece of evidence read from the element that `selector` names.
pub open spec fn observed_at(selector: Seq<char>, values: Seq<(Seq<char>, Seq<char>)>) -> Seq<
    EvidenceView,
> {
    seq![EvidenceView { selector: Some(selector), values }]
}

fn observe(values: Vec<(String, String)>) -> (r: Vec<A11yVerifierEvidence>)
    ensures
        evidence_views(r@) == observed(pairs(values@)),
{
    let mut r: Vec<A11yVerifierEvidence> = Vec::new();
    r.push(A11yVerifierEvidence { selector: None, values });
    proof {
        assert(evidence_views(r@) =~= observed(pairs(values@)));
    }
    r
}

fn observe_at(selector: &str, values: Vec<(String, String)>) -> (r: Vec<A11yVerifierEvidence>)
    ensures
        evidence_views(r@) == observed_at(selector@, pairs(values@)),
{
    let mut r: Vec<A11yVerifierEvidence> = Vec::new();
    r.push(A11yVerifierEvidence { selector: Some(selector.to_owned()), values });
    proof {
        assert(evidence_views(r@) =~= observed_at(selector@, pairs(values@)));
    }
    r
}

/// A named count.
pub open spec fn counted(name: Seq<char>, n: usize) -> (Seq<char>, Seq<char>) {
    (name, decimal(n as nat))
}

fn count(name: &str, n: usize) -> (r: (String, String))
    ensures
        (r.0@, r.1@) == counted(name@, n),
{
    (name.to_owned(), count_text(n))
}

fn named(name: &str, value: &str) -> (r: (String, String))
    ensures
        (r.0@, r.1@) == (name@, value@),
{
    (name.to_owned(), value.to_owned())
}

/// What a rule that does not apply says of itself.
pub open spec fn absent(
    rule_id: Seq<char>,
    mode: Seq<char>,
    severity: Seq<char>,
    message: Seq<char>,
    evidence: Seq<EvidenceView>,
) -> FindingView {
    emitted(
        rule_id,
        "not_applicable"@,
        mode,
        "not_applicable"@,
        severity,
        "high"@,
        message,
        evidence,
    )
}

/// Fail before warn before pass.
pub open spec fn graded(fail: bool, warn: bool) -> Seq<char> {
    if fail {
        "fail"@
    } else if warn {
        "warn"@
    } else {
        "pass"@
    }
}

fn grade(fail: bool, warn: bool) -> (r: &'static str)
    ensures
        r@ == graded(fail, warn),
{
    if fail {
        "fail"
    } else if warn {
        "warn"
    } else {
        "pass"
    }
}

/// The values that the finding of `parts_lang_rule` rests on.
pub open spec fn parts_lang_values(f: A11yVerifierFacts) -> Seq<(Seq<char>, Seq<char>)> {
    seq![
            counted("part_lang_attr_count"@, f.part_lang_attr_count),
            counted("invalid_part_lang_attr_count"@, f.invalid_part_lang_attr_count),
        ]
}

/// Languages of parts of the document are well formed.
pub open spec fn parts_lang_rule(f: A11yVerifierFacts) -> FindingView {
    let fail = f.invalid_part_lang_attr_count > 0;
    if !(f.part_lang_attr_count > 0) {
        absent(
            "fb.a11y.language.parts_declared_valid_seed"@,
            "hybrid"@,
            "low"@,
            "No inline lang declarations on descendant elements detected; language-of-parts rule not applicable for this document."@,
            observed(parts_lang_values(f)),
        )
    } else {
        emitted(
            "fb.a11y.language.parts_declared_valid_seed"@,
            "applicable"@,
            "hybrid"@,
            graded(fail, false),
            if fail {
                "medium"@
            } else {
                "low"@
            },
            "high"@,
            if fail {
                "Invalid or empty inline language-of-parts declarations detected."@
            } else {
                "Inline language-of-parts declarations are syntactically valid."@
            },
            observed(parts_lang_values(f)),
        )
    }
}

fn parts_lang_finding(f: &A11yVerifierFacts) -> (r: A11yVerifierFinding)
    ensures
        r@ == parts_lang_rule(*f),
{
    let fail = f.invalid_part_lang_attr_count > 0;
    if !(f.part_lang_attr_count > 0) {
        let basis = Basis { applicability: "not_applicable", mode: "hybrid", confidence: "high" };
        let mut values: Vec<(String, String)> = Vec::new();
        values.push(count("part_lang_attr_count", f.part_lang_attr_count));
        values.push(count("invalid_part_lang_attr_count", f.invalid_part_lang_attr_count));
        let evidence = observe(values);
        proof {
            assert(pairs(values@) =~= parts_lang_values(*f));
        }
        return emit(
            "fb.a11y.language.parts_declared_valid_seed",
            basis,
            "not_applicable",
            "low",
            "No inline lang declarations on descendant elements detected; language-of-parts rule not applicable for this document.",
            evidence,
        );
    }
    let basis = Basis { applicability: "applicable", mode: "hybrid", confidence: "high" };
    let mut values: Vec<(String, String)> = Vec::new();
    values.push(count("part_lang_attr_count", f.part_lang_attr_count));
    values.push(count("invalid_part_lang_attr_count", f.invalid_part_lang_attr_count));
    proof {
        assert(pairs(values@) =~= parts_lang_values(*f));
    }
    let evidence = observe(values);
    emit("fb.a11y.language.parts_declared_valid_seed", basis, grade(fail, false), if fail {
        "medium"
    } else {
        "low"
    }, if fail {
        "Invalid or empty inline language-of-parts declarations detected."
    } else {
        "Inline language-of-parts declarations are syntactically valid."
    }, evidence)
}

/// The values that the finding of `headings_labels_rule` rests on.
pub open spec fn headings_labels_values(f: A11yVerifierFacts) -> Seq<(Seq<char>, Seq<char>)> {
    seq![
            counted("empty_heading_count"@, f.empty_heading_count),
            counted("empty_label_count"@, f.empty_label_count),
            counted("empty_aria_label_count"@, f.empty_aria_label_count),
            counted("unlabeled_region_count"@, f.unlabeled_region_count),
        ]
}

/// Headings, labels and regions have names.
pub open spec fn headings_labels_rule(f: A11yVerifierFacts) -> FindingView {
    let fail = f.empty_heading_count > 0 || f.empty_label_count > 0 || f.empty_aria_label_count > 0;
    let warn = f.unlabeled_region_count > 0;
    emitted(
        "fb.a11y.headings_labels.present_nonempty"@,
        "applicable"@,
        "hybrid"@,
        graded(fail, warn),
        if fail {
            "high"@
        } else {
            "medium"@
        },
        if fail || warn {
            "high"@
        } else {
            "medium"@
        },
        if fail {
            "Empty heading/label naming signals detected."@
        } else if warn {
            "Headings/labels are non-empty, but some region landmarks are unlabeled."@
        } else {
            "No empty headings/labels or unlabeled regions detected."@
        },
        observed(headings_labels_values(f)),
    )
}

fn headings_labels_finding(f: &A11yVerifierFacts) -> (r: A11yVerifierFinding)
    ensures
        r@ == headings_labels_rule(*f),
{
    let fail = f.empty_heading_count > 0 || f.empty_label_count > 0 || f.empty_aria_label_count > 0;
    let warn = f.unlabeled_region_count > 0;
    let basis = Basis { applicability: "applicable", mode: "hybrid", confidence: if fail || warn {
        "high"
    } else {
        "medium"
    } };
    let mut values: Vec<(String, String)> = Vec::new();
    values.push(count("empty_heading_count", f.empty_heading_count));
    values.push(count("empty_label_count", f.empty_label_count));
    values.push(count("empty_aria_label_count", f.empty_aria_label_count));
    values.push(count("unlabeled_region_count", f.unlabeled_region_count));
    proof {
        assert(pairs(values@) =~= headings_labels_values(*f));
    }
    let evidence = observe(values);
    emit("fb.a11y.headings_labels.present_nonempty", basis, grade(fail, warn), if fail {
        "high"
    } else {
        "medium"
    }, if fail {
        "Empty heading/label naming signals detected."
    } else if warn {
        "Headings/labels are non-empty, but some region landmarks are unlabeled."
    } else {
        "No empty headings/labels or unlabeled regions detected."
    }, evidence)
}

/// The values that the finding of `images_rule` rests on.
pub open spec fn images_values(f: A11yVerifierFacts) -> Seq<(Seq<char>, Seq<char>)> {
    seq![
            counted("image_count"@, f.image_count),
            counted("image_missing_alt_count"@, f.image_missing_alt_count),
            counted("image_title_only_count"@, f.image_title_only_count),
            counted("image_semantic_conflict_count"@, f.image_semantic_conflict_count),
        ]
}

/// Images have a text alternative or are decoration.
pub open spec fn images_rule(f: A11yVerifierFacts) -> FindingView {
    let fail = f.image_missing_alt_count > 0 || f.image_semantic_conflict_count > 0;
    let warn = f.image_title_only_count > 0;
    if !(f.image_count > 0) {
        absent(
            "fb.a11y.images.alt_or_decorative"@,
            "machine"@,
            "low"@,
            "No img/svg elements detected; non-text-content image rule not applicable."@,
            Seq::empty(),
        )
    } else {
        emitted(
            "fb.a11y.images.alt_or_decorative"@,
            "applicable"@,
            "machine"@,
            graded(fail, warn),
            if fail {
                "high"@
            } else {
                "medium"@
            },
            "high"@,
            if fail {
                "Image text alternative errors detected."@
            } else if warn {
                "Some images rely on title without alt/ARIA text alternatives."@
            } else {
                "Image text alternatives/decorative semantics look consistent."@
            },
            observed(images_values(f)),
        )
    }
}

fn images_finding(f: &A11yVerifierFacts) -> (r: A11yVerifierFinding)
    ensures
        r@ == images_rule(*f),
{
    let fail = f.image_missing_alt_count > 0 || f.image_semantic_conflict_count > 0;
    let warn = f.image_title_only_count > 0;
    if !(f.image_count > 0) {
        let basis = Basis { applicability: "not_applicable", mode: "machine", confidence: "high" };
        let evidence: Vec<A11yVerifierEvidence> = Vec::new();
        proof {
            assert(evidence_views(evidence@) =~= Seq::empty());
        }
        return emit(
            "fb.a11y.images.alt_or_decorative",
            basis,
            "not_applicable",
            "low",
            "No img/svg elements detected; non-text-content image rule not applicable.",
            evidence,
        );
    }
    let basis = Basis { applicability: "applicable", mode: "machine", confidence: "high" };
    let mut values: Vec<(String, String)> = Vec::new();
    values.push(count("image_count", f.image_count));
    values.push(count("image_missing_alt_count", f.image_missing_alt_count));
    values.push(count("image_title_only_count", f.image_title_only_count));
    values.push(count("image_semantic_conflict_count", f.image_semantic_conflict_count));
    proof {
        assert(pairs(values@) =~= images_values(*f));
    }
    let evidence = observe(values);
    emit("fb.a11y.images.alt_or_decorative", basis, grade(fail, warn), if fail {
        "high"
    } else {
        "medium"
    }, if fail {
        "Image text alternative errors detected."
    } else if warn {
        "Some images rely on title without alt/ARIA text alternatives."
    } else {
        "Image text alternatives/decorative semantics look consistent."
    }, evidence)
}

/// The values that the finding of `alt_budget_rule` rests on.
pub open spec fn alt_budget_values(f: A11yVerifierFacts) -> Seq<(Seq<char>, Seq<char>)> {
    seq![
            counted("figure_informative_count"@, f.figure_informative_count),
            counted("figure_alt_length_budget"@, f.figure_alt_length_budget),
            counted("figure_alt_over_budget_count"@, f.figure_alt_over_budget_count),
            counted("figure_max_alt_len"@, f.figure_max_alt_len),
        ]
}

/// Alternative texts of figures stay within their length budget.
pub open spec fn alt_budget_rule(f: A11yVerifierFacts) -> FindingView {
    let over = f.figure_alt_over_budget_count > 0;
    if !(f.figure_informative_count > 0) {
        absent(
            "fb.a11y.figure.alt_length_budget_seed"@,
            "machine"@,
            "low"@,
            "No informative figures detected; figure alt-length budget rule not applicable."@,
            observed(alt_budget_values(f)),
        )
    } else {
        emitted(
            "fb.a11y.figure.alt_length_budget_seed"@,
            "applicable"@,
            "machine"@,
            graded(false, over),
            "medium"@,
            "high"@,
            if over {
                "Figure alternative text exceeds recommended length budget."@
            } else {
                "Informative figure alternative text lengths are within the recommended budget."@
            },
            observed(alt_budget_values(f)),
        )
    }
}

fn alt_budget_finding(f: &A11yVerifierFacts) -> (r: A11yVerifierFinding)
    ensures
        r@ == alt_budget_rule(*f),
{
    let over = f.figure_alt_over_budget_count > 0;
    if !(f.figure_informative_count > 0) {
        let basis = Basis { applicability: "not_applicable", mode: "machine", confidence: "high" };
        let mut values: Vec<(String, String)> = Vec::new();
        values.push(count("figure_informative_count", f.figure_informative_count));
        values.push(count("figure_alt_length_budget", f.figure_alt_length_budget));
        values.push(count("figure_alt_over_budget_count", f.figure_alt_over_budget_count));
        values.push(count("figure_max_alt_len", f.figure_max_alt_len));
        let evidence = observe(values);
        proof {
            assert(pairs(values@) =~= alt_budget_values(*f));
        }
        return emit(
            "fb.a11y.figure.alt_length_budget_seed",
            basis,
            "not_applicable",
            "low",
            "No informative figures detected; figure alt-length budget rule not applicable.",
            evidence,
        );
    }
    let basis = Basis { applicability: "applicable", mode: "machine", confidence: "high" };
    let mut values: Vec<(String, String)> = Vec::new();
    values.push(count("figure_informative_count", f.figure_informative_count));
    values.push(count("figure_alt_length_budget", f.figure_alt_length_budget));
    values.push(count("figure_alt_over_budget_count", f.figure_alt_over_budget_count));
    values.push(count("figure_max_alt_len", f.figure_max_alt_len));
    proof {
        assert(pairs(values@) =~= alt_budget_values(*f));
    }
    let evidence = observe(values);
    emit("fb.a11y.figure.alt_length_budget_seed", basis, grade(false, over), "medium", if over {
        "Figure alternative text exceeds recommended length budget."
    } else {
        "Informative figure alternative text lengths are within the recommended budget."
    }, evidence)
}

/// The values that the finding of `figure_text_rule` rests on.
pub open spec fn figure_text_values(f: A11yVerifierFacts) -> Seq<(Seq<char>, Seq<char>)> {
    seq![
            counted("figure_informative_count"@, f.figure_informative_count),
            counted("figure_missing_effective_text_count"@, f.figure_missing_effective_text_count),
        ]
}

/// Informative figures have a text alternative or a caption.
pub open spec fn figure_text_rule(f: A11yVerifierFacts) -> FindingView {
    let fail = f.figure_missing_effective_text_count > 0;
    if !(f.figure_informative_count > 0) {
        absent(
            "fb.a11y.figure.missing_effective_text_seed"@,
            "machine"@,
            "low"@,
            "No informative figures detected; missing-effective-figure-text rule not applicable."@,
            observed(figure_text_values(f)),
        )
    } else {
        emitted(
            "fb.a11y.figure.missing_effective_text_seed"@,
            "applicable"@,
            "machine"@,
            graded(fail, false),
            "high"@,
            "high"@,
            if fail {
                "Informative figure(s) missing effective text alternatives (alt/ARIA/caption)."@
            } else {
                "Informative figures expose effective text alternatives (alt/ARIA/caption)."@
            },
            observed(figure_text_values(f)),
        )
    }
}

fn figure_text_finding(f: &A11yVerifierFacts) -> (r: A11yVerifierFinding)
    ensures
        r@ == figure_text_rule(*f),
{
    let fail = f.figure_missing_effective_text_count > 0;
    if !(f.figure_informative_count > 0) {
        let basis = Basis { applicability: "not_applicable", mode: "machine", confidence: "high" };
        let mut values: Vec<(String, String)> = Vec::new();
        values.push(count("figure_informative_count", f.figure_informative_count));
        values.push(
            count("figure_missing_effective_text_count", f.figure_missing_effective_text_count),
        );
        let evidence = observe(values);
        proof {
            assert(pairs(values@) =~= figure_text_values(*f));
        }
        return emit(
            "fb.a11y.figure.missing_effective_text_seed",
            basis,
            "not_applicable",
            "low",
            "No informative figures detected; missing-effective-figure-text rule not applicable.",
            evidence,
        );
    }
    let basis = Basis { applicability: "applicable", mode: "machine", confidence: "high" };
    let mut values: Vec<(String, String)> = Vec::new();
    values.push(count("figure_informative_count", f.figure_informative_count));
    values.push(
        count("figure_missing_effective_text_count", f.figure_missing_effective_text_count),
    );
    proof {
        assert(pairs(values@) =~= figure_text_values(*f));
    }
    let evidence = observe(values);
    emit("fb.a11y.figure.missing_effective_text_seed", basis, grade(fail, false), "high", if fail {
        "Informative figure(s) missing effective text alternatives (alt/ARIA/caption)."
    } else {
        "Informative figures expose effective text alternatives (alt/ARIA/caption)."
    }, evidence)
}

/// The values that the finding of `dl_fragmentation_rule` rests on.
pub open spec fn dl_fragmentation_values(f: A11yVerifierFacts) -> Seq<(Seq<char>, Seq<char>)> {
    seq![
            counted("dl_block_count"@, f.dl_block_count),
            counted("dl_fragmentation_count"@, f.dl_fragmentation_count),
        ]
}

/// Description lists do not run into each other.
pub open spec fn dl_fragmentation_rule(f: A11yVerifierFacts) -> FindingView {
    let warn = f.dl_fragmentation_count > 0;
    emitted(
        "fb.a11y.dl.fragmentation_seed"@,
        "applicable"@,
        "machine"@,
        graded(false, warn),
        "medium"@,
        "high"@,
        if warn {
            "Adjacent description-list siblings detected; consolidate into a single logical list where possible."@
        } else {
            "No adjacent description-list fragmentation detected."@
        },
        observed(dl_fragmentation_values(f)),
    )
}

fn dl_fragmentation_finding(f: &A11yVerifierFacts) -> (r: A11yVerifierFinding)
    ensures
        r@ == dl_fragmentation_rule(*f),
{
    let warn = f.dl_fragmentation_count > 0;
    let basis = Basis { applicability: "applicable", mode: "machine", confidence: "high" };
    let mut values: Vec<(String, String)> = Vec::new();
    values.push(count("dl_block_count", f.dl_block_count));
    values.push(count("dl_fragmentation_count", f.dl_fragmentation_count));
    proof {
        assert(pairs(values@) =~= dl_fragmentation_values(*f));
    }
    let evidence = observe(values);
    emit("fb.a11y.dl.fragmentation_seed", basis, grade(false, warn), "medium", if warn {
        "Adjacent description-list siblings detected; consolidate into a single logical list where possible."
    } else {
        "No adjacent description-list fragmentation detected."
    }, evidence)
}

/// The values that the finding of `dl_consistency_rule` rests on.
pub open spec fn dl_consistency_values(f: A11yVerifierFacts) -> Seq<(Seq<char>, Seq<char>)> {
    seq![
            counted("dl_block_count"@, f.dl_block_count),
            counted("dl_group_consistency_count"@, f.dl_group_consistency_count),
        ]
}

/// Adjacent description lists are not all tiny.
pub open spec fn dl_consistency_rule(f: A11yVerifierFacts) -> FindingView {
    let warn = f.dl_group_consistency_count > 0;
    emitted(
        "fb.a11y.dl.group_consistency_seed"@,
        "applicable"@,
        "machine"@,
        graded(false, warn),
        "medium"@,
        "high"@,
        if warn {
            "Repeated tiny description-list groups detected with similar structure; unify group semantics."@
        } else {
            "Description-list grouping consistency looks stable."@
        },
        observed(dl_consistency_values(f)),
    )
}

fn dl_consistency_finding(f: &A11yVerifierFacts) -> (r: A11yVerifierFinding)
    ensures
        r@ == dl_consistency_rule(*f),
{
    let warn = f.dl_group_consistency_count > 0;
    let basis = Basis { applicability: "applicable", mode: "machine", confidence: "high" };
    let mut values: Vec<(String, String)> = Vec::new();
    values.push(count("dl_block_count", f.dl_block_count));
    values.push(count("dl_group_consistency_count", f.dl_group_consistency_count));
    proof {
        assert(pairs(values@) =~= dl_consistency_values(*f));
    }
    let evidence = observe(values);
    emit("fb.a11y.dl.group_consistency_seed", basis, grade(false, warn), "medium", if warn {
        "Repeated tiny description-list groups detected with similar structure; unify group semantics."
    } else {
        "Description-list grouping consistency looks stable."
    }, evidence)
}

/// The values that the finding of `form_labels_rule` rests on.
pub open spec fn form_labels_values(f: A11yVerifierFacts) -> Seq<(Seq<char>, Seq<char>)> {
    seq![
            counted("form_control_count"@, f.form_control_count),
            counted("unlabeled_form_control_count"@, f.unlabeled_form_control_count),
        ]
}

/// Form controls have labels.
pub open spec fn form_labels_rule(f: A11yVerifierFacts) -> FindingView {
    let fail = f.unlabeled_form_control_count > 0;
    if !(f.form_control_count > 0) {
        absent(
            "fb.a11y.forms.labels_or_instructions_present"@,
            "hybrid"@,
            "low"@,
            "No form controls detected; labels/instructions rule not applicable."@,
            Seq::empty(),
        )
    } else {
        emitted(
            "fb.a11y.forms.labels_or_instructions_present"@,
            "applicable"@,
            "hybrid"@,
            graded(fail, false),
            if fail {
                "high"@
            } else {
                "medium"@
            },
            "medium"@,
            if fail {
                "Unlabeled form controls detected."@
            } else {
                "Detected form controls have label/ARIA naming signals."@
            },
            observed(form_labels_values(f)),
        )
    }
}

fn form_labels_finding(f: &A11yVerifierFacts) -> (r: A11yVerifierFinding)
    ensures
        r@ == form_labels_rule(*f),
{
    let fail = f.unlabeled_form_control_count > 0;
    if !(f.form_control_count > 0) {
        let basis = Basis { applicability: "not_applicable", mode: "hybrid", confidence: "high" };
        let evidence: Vec<A11yVerifierEvidence> = Vec::new();
        proof {
            assert(evidence_views(evidence@) =~= Seq::empty());
        }
        return emit(
            "fb.a11y.forms.labels_or_instructions_present",
            basis,
            "not_applicable",
            "low",
            "No form controls detected; labels/instructions rule not applicable.",
            evidence,
        );
    }
    let basis = Basis { applicability: "applicable", mode: "hybrid", confidence: "medium" };
    let mut values: Vec<(String, String)> = Vec::new();
    values.push(count("form_control_count", f.form_control_count));
    values.push(count("unlabeled_form_control_count", f.unlabeled_form_control_count));
    proof {
        assert(pairs(values@) =~= form_labels_values(*f));
    }
    let evidence = observe(values);
    emit("fb.a11y.forms.labels_or_instructions_present", basis, grade(fail, false), if fail {
        "high"
    } else {
        "medium"
    }, if fail {
        "Unlabeled form controls detected."
    } else {
        "Detected form controls have label/ARIA naming signals."
    }, evidence)
}

/// The values that the finding of `form_errors_rule` rests on.
pub open spec fn form_errors_values(f: A11yVerifierFacts) -> Seq<(Seq<char>, Seq<char>)> {
    seq![
            counted("invalid_form_control_count"@, f.invalid_form_control_count),
            counted(
                "unidentified_error_form_control_count"@,
                f.unidentified_error_form_control_count,
            ),
        ]
}

/// Invalid form controls say what is wrong.
pub open spec fn form_errors_rule(f: A11yVerifierFacts) -> FindingView {
    let fail = f.unidentified_error_form_control_count > 0;
    if !(f.invalid_form_control_count > 0) {
        absent(
            "fb.a11y.forms.error_identification_present"@,
            "hybrid"@,
            "low"@,
            "No invalid form controls detected; error-identification rule not applicable."@,
            Seq::empty(),
        )
    } else {
        emitted(
            "fb.a11y.forms.error_identification_present"@,
            "applicable"@,
            "hybrid"@,
            graded(fail, false),
            if fail {
                "high"@
            } else {
                "medium"@
            },
            "medium"@,
            if fail {
                "Invalid form controls without associated error-identification text detected."@
            } else {
                "Invalid form controls expose associated error-identification text signals."@
            },
            observed(form_errors_values(f)),
        )
    }
}

fn form_errors_finding(f: &A11yVerifierFacts) -> (r: A11yVerifierFinding)
    ensures
        r@ == form_errors_rule(*f),
{
    let fail = f.unidentified_error_form_control_count > 0;
    if !(f.invalid_form_control_count > 0) {
        let basis = Basis { applicability: "not_applicable", mode: "hybrid", confidence: "high" };
        let evidence: Vec<A11yVerifierEvidence> = Vec::new();
        proof {
            assert(evidence_views(evidence@) =~= Seq::empty());
        }
        return emit(
            "fb.a11y.forms.error_identification_present",
            basis,
            "not_applicable",
            "low",
            "No invalid form controls detected; error-identification rule not applicable.",
            evidence,
        );
    }
    let basis = Basis { applicability: "applicable", mode: "hybrid", confidence: "medium" };
    let mut values: Vec<(String, String)> = Vec::new();
    values.push(count("invalid_form_control_count", f.invalid_form_control_count));
    values.push(
        count("unidentified_error_form_control_count", f.unidentified_error_form_control_count),
    );
    proof {
        assert(pairs(values@) =~= form_errors_values(*f));
    }
    let evidence = observe(values);
    emit("fb.a11y.forms.error_identification_present", basis, grade(fail, false), if fail {
        "high"
    } else {
        "medium"
    }, if fail {
        "Invalid form controls without associated error-identification text detected."
    } else {
        "Invalid form controls expose associated error-identification text signals."
    }, evidence)
}

/// The values that the finding of `links_rule` rests on.
pub open spec fn links_values(f: A11yVerifierFacts) -> Seq<(Seq<char>, Seq<char>)> {
    seq![
            counted("link_count"@, f.link_count),
            counted("unnamed_link_count"@, f.unnamed_link_count),
            counted("generic_link_text_count"@, f.generic_link_text_count),
        ]
}

/// Links name their target.
pub open spec fn links_rule(f: A11yVerifierFacts) -> FindingView {
    let fail = f.unnamed_link_count > 0;
    let warn = f.generic_link_text_count > 0;
    if !(f.link_count > 0) {
        absent(
            "fb.a11y.links.purpose_in_context"@,
            "hybrid"@,
            "low"@,
            "No links detected; link-purpose rule not applicable."@,
            Seq::empty(),
        )
    } else {
        emitted(
            "fb.a11y.links.purpose_in_context"@,
            "applicable"@,
            "hybrid"@,
            graded(fail, warn),
            if fail {
                "high"@
            } else {
                "medium"@
            },
            "medium"@,
            if fail {
                "Links without discernible text purpose signals detected."@
            } else if warn {
                "Generic link text detected; contextual purpose may require manual review."@
            } else {
                "Detected links have discernible text purpose signals."@
            },
            observed(links_values(f)),
        )
    }
}

fn links_finding(f: &A11yVerifierFacts) -> (r: A11yVerifierFinding)
    ensures
        r@ == links_rule(*f),
{
    let fail = f.unnamed_link_count > 0;
    let warn = f.generic_link_text_count > 0;
    if !(f.link_count > 0) {
        let basis = Basis { applicability: "not_applicable", mode: "hybrid", confidence: "high" };
        let evidence: Vec<A11yVerifierEvidence> = Vec::new();
        proof {
            assert(evidence_views(evidence@) =~= Seq::empty());
        }
        return emit(
            "fb.a11y.links.purpose_in_context",
            basis,
            "not_applicable",
            "low",
            "No links detected; link-purpose rule not applicable.",
            evidence,
        );
    }
    let basis = Basis { applicability: "applicable", mode: "hybrid", confidence: "medium" };
    let mut values: Vec<(String, String)> = Vec::new();
    values.push(count("link_count", f.link_count));
    values.push(count("unnamed_link_count", f.unnamed_link_count));
    values.push(count("generic_link_text_count", f.generic_link_text_count));
    proof {
        assert(pairs(values@) =~= links_values(*f));
    }
    let evidence = observe(values);
    emit("fb.a11y.links.purpose_in_context", basis, grade(fail, warn), if fail {
        "high"
    } else {
        "medium"
    }, if fail {
        "Links without discernible text purpose signals detected."
    } else if warn {
        "Generic link text detected; contextual purpose may require manual review."
    } else {
        "Detected links have discernible text purpose signals."
    }, evidence)
}

/// The values that the finding of `redundant_role_rule` rests on.
pub open spec fn redundant_role_values(f: A11yVerifierFacts) -> Seq<(Seq<char>, Seq<char>)> {
    seq![
            counted("redundant_role_native_count"@, f.redundant_role_native_count),
        ]
}

/// Roles do not repeat native semantics.
pub open spec fn redundant_role_rule(f: A11yVerifierFacts) -> FindingView {
    let warn = f.redundant_role_native_count > 0;
    emitted(
        "fb.a11y.aria.redundant_role_native_seed"@,
        "applicable"@,
        "machine"@,
        graded(false, warn),
        "medium"@,
        "certain"@,
        if warn {
            "Explicit roles duplicate native semantics on one or more elements."@
        } else {
            "No obvious redundant explicit-role/native-semantic duplication detected."@
        },
        observed(redundant_role_values(f)),
    )
}

fn redundant_role_finding(f: &A11yVerifierFacts) -> (r: A11yVerifierFinding)
    ensures
        r@ == redundant_role_rule(*f),
{
    let warn = f.redundant_role_native_count > 0;
    let basis = Basis { applicability: "applicable", mode: "machine", confidence: "certain" };
    let mut values: Vec<(String, String)> = Vec::new();
    values.push(count("redundant_role_native_count", f.redundant_role_native_count));
    proof {
        assert(pairs(values@) =~= redundant_role_values(*f));
    }
    let evidence = observe(values);
    emit("fb.a11y.aria.redundant_role_native_seed", basis, grade(false, warn), "medium", if warn {
        "Explicit roles duplicate native semantics on one or more elements."
    } else {
        "No obvious redundant explicit-role/native-semantic duplication detected."
    }, evidence)
}

/// The values that the finding of `redundant_state_rule` rests on.
pub open spec fn redundant_state_values(f: A11yVerifierFacts) -> Seq<(Seq<char>, Seq<char>)> {
    seq![
            counted("redundant_state_native_count"@, f.redundant_state_native_count),
        ]
}

/// ARIA states do not repeat native states.
pub open spec fn redundant_state_rule(f: A11yVerifierFacts) -> FindingView {
    let warn = f.redundant_state_native_count > 0;
    emitted(
        "fb.a11y.aria.redundant_state_native_seed"@,
        "applicable"@,
        "machine"@,
        graded(false, warn),
        "medium"@,
        "certain"@,
        if warn {
            "ARIA state/property duplicates equivalent native HTML state on one or more elements."@
        } else {
            "No obvious redundant ARIA state/native-state duplication detected."@
        },
        observed(redundant_state_values(f)),
    )
}

fn redundant_state_finding(f: &A11yVerifierFacts) -> (r: A11yVerifierFinding)
    ensures
        r@ == redundant_state_rule(*f),
{
    let warn = f.redundant_state_native_count > 0;
    let basis = Basis { applicability: "applicable", mode: "machine", confidence: "certain" };
    let mut values: Vec<(String, String)> = Vec::new();
    values.push(count("redundant_state_native_count", f.redundant_state_native_count));
    proof {
        assert(pairs(values@) =~= redundant_state_values(*f));
    }
    let evidence = observe(values);
    emit("fb.a11y.aria.redundant_state_native_seed", basis, grade(false, warn), "medium", if warn {
        "ARIA state/property duplicates equivalent native HTML state on one or more elements."
    } else {
        "No obvious redundant ARIA state/native-state duplication detected."
    }, evidence)
}

// ---------------------------------------------------------------------------------------------
// Language and title
// ---------------------------------------------------------------------------------------------
/// The text of an optional string, empty when there is none.
pub open spec fn or_empty(s: Option<String>) -> Seq<char> {
    match s {
        Some(v) => v@,
        None => Seq::empty(),
    }
}

pub(crate) fn text_or_empty(s: &Option<String>) -> (r: String)
    ensures
        r@ == or_empty(*s),
{
    match s {
        Some(v) => v.clone(),
        None => String::new(),
    }
}

/// Whether the expected value, where one is set, differs from the text found.
pub open spec fn differs(expected: Option<String>, found: Seq<char>) -> bool {
    match expected {
        Some(e) => e@ != found,
        None => false,
    }
}

pub(crate) fn differs_from(expected: &Option<String>, found: &str) -> (r: bool)
    ensures
        r == differs(*expected, found@),
{
    match expected {
        Some(e) => !same(e, found),
        None => false,
    }
}

/// A text around two values.
pub open spec fn filled(
    head: Seq<char>,
    first: Seq<char>,
    middle: Seq<char>,
    second: Seq<char>,
    tail: Seq<char>,
) -> Seq<char> {
    head + first + middle + second + tail
}

pub(crate) fn fill(head: &str, first: &str, middle: &str, second: &str, tail: &str) -> (r: String)
    ensures
        r@ == filled(head@, first@, middle@, second@, tail@),
{
    concat(&concat(&concat(&concat(head, first), middle), second), tail)
}

/// What is wrong with the language of the document.
pub open spec fn lang_failure(f: A11yVerifierFacts, expected: Option<String>) -> Seq<char> {
    match f.html_lang {
        None => "missing"@,
        Some(lang) => if !lang_tag_valid(lang@) {
            "invalid"@
        } else if differs(expected, lang@) {
            "metadata_mismatch"@
        } else {
            "none"@
        },
    }
}

/// The values that the finding of `lang_rule` rests on.
pub open spec fn lang_values(f: A11yVerifierFacts, expected: Option<String>) -> Seq<
    (Seq<char>, Seq<char>),
> {
    seq![
        ("lang"@, or_empty(f.html_lang)),
        ("observed_lang"@, or_empty(f.html_lang)),
        ("expected_document_lang"@, or_empty(expected)),
        ("failure_kind"@, lang_failure(f, expected)),
    ]
}

/// The document says its language, and says the one that was asked for.
pub open spec fn lang_rule(f: A11yVerifierFacts, expected: Option<String>) -> FindingView {
    let (ok, message) = match f.html_lang {
        None => (false, "HTML lang attribute is missing."@),
        Some(lang) => if !lang_tag_valid(lang@) {
            (false, "HTML lang attribute is present but invalid."@)
        } else if differs(expected, lang@) {
            (
                false,
                filled(
                    "HTML lang attribute is present and valid in the emitted DOM, but engine metadata persistence mismatched (observed DOM="@,
                    lang@,
                    ", expected metadata="@,
                    or_empty(expected),
                    ")."@,
                ),
            )
        } else {
            (true, "HTML lang attribute is present and valid."@)
        },
    };
    emitted(
        "fb.a11y.html.lang_present_valid"@,
        "applicable"@,
        "machine"@,
        graded(!ok, false),
        "high"@,
        "certain"@,
        message,
        observed_at("html"@, lang_values(f, expected)),
    )
}

fn lang_finding(f: &A11yVerifierFacts, expected: &Option<String>) -> (r: A11yVerifierFinding)
    ensures
        r@ == lang_rule(*f, *expected),
{
    let (ok, kind, message) = match &f.html_lang {
        None => (false, "missing", "HTML lang attribute is missing.".to_owned()),
        Some(lang) => if !a11y_lang_value_is_valid(lang) {
            (false, "invalid", "HTML lang attribute is present but invalid.".to_owned())
        } else if differs_from(expected, lang) {
            (
                false,
                "metadata_mismatch",
                fill(
                    "HTML lang attribute is present and valid in the emitted DOM, but engine metadata persistence mismatched (observed DOM=",
                    lang,
                    ", expected metadata=",
                    &text_or_empty(expected),
                    ").",
                ),
            )
        } else {
            (true, "none", "HTML lang attribute is present and valid.".to_owned())
        },
    };
    let mut values: Vec<(String, String)> = Vec::new();
    values.push(named("lang", &text_or_empty(&f.html_lang)));
    values.push(named("observed_lang", &text_or_empty(&f.html_lang)));
    values.push(named("expected_document_lang", &text_or_empty(expected)));
    values.push(named("failure_kind", kind));
    proof {
        assert(pairs(values@) =~= lang_values(*f, *expected));
    }
    let evidence = observe_at("html", values);
    let basis = Basis { applicability: "applicable", mode: "machine", confidence: "certain" };
    emit(
        "fb.a11y.html.lang_present_valid",
        basis,
        grade(!ok, false),
        "high",
        &message,
        evidence,
    )
}

/// The values that the finding of `title_rule` rests on.
pub open spec fn title_values(f: A11yVerifierFacts, expected: Option<String>) -> Seq<
    (Seq<char>, Seq<char>),
> {
    seq![
        ("title"@, f.title@),
        ("observed_title"@, f.title@),
        ("expected_document_title"@, or_empty(expected)),
        (
            "failure_kind"@,
            if is_blank(f.title@) {
                "missing"@
            } else if differs(expected, f.title@) {
                "metadata_mismatch"@
            } else {
                "none"@
            },
        ),
    ]
}

/// The document has a title, and the one that was asked for.
pub open spec fn title_rule(f: A11yVerifierFacts, expected: Option<String>) -> FindingView {
    let blank_title = is_blank(f.title@);
    emitted(
        "fb.a11y.html.title_present_nonempty"@,
        "applicable"@,
        "machine"@,
        graded(blank_title || differs(expected, f.title@), false),
        "high"@,
        "certain"@,
        if blank_title {
            "Document title is missing or empty."@
        } else if differs(expected, f.title@) {
            filled(
                "Document title is present in the emitted DOM, but engine metadata persistence mismatched (observed DOM="@,
                f.title@,
                ", expected metadata="@,
                or_empty(expected),
                ")."@,
            )
        } else {
            "Document title is present and non-empty."@
        },
        observed_at("head > title"@, title_values(f, expected)),
    )
}

fn title_finding(f: &A11yVerifierFacts, expected: &Option<String>) -> (r: A11yVerifierFinding)
    ensures
        r@ == title_rule(*f, *expected),
{
    let (ok, kind, message) = if blank(&f.title) {
        (false, "missing", "Document title is missing or empty.".to_owned())
    } else if differs_from(expected, &f.title) {
        (
            false,
            "metadata_mismatch",
            fill(
                "Document title is present in the emitted DOM, but engine metadata persistence mismatched (observed DOM=",
                &f.title,
                ", expected metadata=",
                &text_or_empty(expected),
                ").",
            ),
        )
    } else {
        (true, "none", "Document title is present and non-empty.".to_owned())
    };
    let mut values: Vec<(String, String)> = Vec::new();
    values.push(named("title", &f.title));
    values.push(named("observed_title", &f.title));
    values.push(named("expected_document_title", &text_or_empty(expected)));
    values.push(named("failure_kind", kind));
    proof {
        assert(pairs(values@) =~= title_values(*f, *expected));
    }
    let evidence = observe_at("head > title", values);
    let basis = Basis { applicability: "applicable", mode: "machine", confidence: "certain" };
    emit(
        "fb.a11y.html.title_present_nonempty",
        basis,
        grade(!ok, false),
        "high",
        &message,
        evidence,
    )
}

// ---------------------------------------------------------------------------------------------
// Structure
// ---------------------------------------------------------------------------------------------
/// The document has one main part.
pub open spec fn main_rule(f: A11yVerifierFacts) -> FindingView {
    emitted(
        "fb.a11y.structure.single_main"@,
        "applicable"@,
        "machine"@,
        graded(f.main_count != 1, false),
        "medium"@,
        "certain"@,
        if f.main_count == 1 {
            "Single primary content root detected."@
        } else {
            "Expected exactly one <main>; found "@ + decimal(f.main_count as nat) + "."@
        },
        observed_at("main"@, seq![counted("count"@, f.main_count)]),
    )
}

fn main_finding(f: &A11yVerifierFacts) -> (r: A11yVerifierFinding)
    ensures
        r@ == main_rule(*f),
{
    let message = if f.main_count == 1 {
        "Single primary content root detected.".to_owned()
    } else {
        concat(&concat("Expected exactly one <main>; found ", &count_text(f.main_count)), ".")
    };
    let mut values: Vec<(String, String)> = Vec::new();
    values.push(count("count", f.main_count));
    proof {
        assert(pairs(values@) =~= seq![counted("count"@, f.main_count)]);
    }
    let evidence = observe_at("main", values);
    let basis = Basis { applicability: "applicable", mode: "machine", confidence: "certain" };
    emit(
        "fb.a11y.structure.single_main",
        basis,
        grade(f.main_count != 1, false),
        "medium",
        &message,
        evidence,
    )
}

/// The values that the finding of `caption_rule` rests on. `written` is the largest similarity
/// in decimal notation.
pub open spec fn caption_values(f: A11yVerifierFacts, written: Seq<char>) -> Seq<
    (Seq<char>, Seq<char>),
> {
    seq![
        counted("figure_informative_count"@, f.figure_informative_count),
        ("figure_caption_redundancy_threshold"@, "0.8"@),
        counted("figure_caption_redundancy_count"@, f.figure_caption_redundancy_count),
        ("figure_max_caption_similarity"@, written),
    ]
}

/// Captions do not repeat the alternative text of their figure.
pub open spec fn caption_rule(f: A11yVerifierFacts, written: Seq<char>) -> FindingView {
    if f.figure_informative_count == 0 {
        absent(
            "fb.a11y.figure.caption_redundancy_seed"@,
            "machine"@,
            "low"@,
            "No informative figures detected; figure caption-redundancy rule not applicable."@,
            observed(caption_values(f, written)),
        )
    } else {
        emitted(
            "fb.a11y.figure.caption_redundancy_seed"@,
            "applicable"@,
            "machine"@,
            graded(false, f.figure_caption_redundancy_count > 0),
            "medium"@,
            "high"@,
            if f.figure_caption_redundancy_count > 0 {
                "Figure alt and figcaption content appear near-duplicate; announce-once optimization recommended."@
            } else {
                "Figure alt and figcaption content are sufficiently distinct."@
            },
            observed(caption_values(f, written)),
        )
    }
}

fn caption_finding(f: &A11yVerifierFacts, written: &str) -> (r: A11yVerifierFinding)
    ensures
        r@ == caption_rule(*f, written@),
{
    let mut values: Vec<(String, String)> = Vec::new();
    values.push(count("figure_informative_count", f.figure_informative_count));
    values.push(named("figure_caption_redundancy_threshold", "0.8"));
    values.push(count("figure_caption_redundancy_count", f.figure_caption_redundancy_count));
    values.push(named("figure_max_caption_similarity", written));
    proof {
        assert(pairs(values@) =~= caption_values(*f, written@));
    }
    let evidence = observe(values);
    if f.figure_informative_count == 0 {
        let basis = Basis { applicability: "not_applicable", mode: "machine", confidence: "high" };
        emit(
            "fb.a11y.figure.caption_redundancy_seed",
            basis,
            "not_applicable",
            "low",
            "No informative figures detected; figure caption-redundancy rule not applicable.",
            evidence,
        )
    } else {
        let basis = Basis { applicability: "applicable", mode: "machine", confidence: "high" };
        emit(
            "fb.a11y.figure.caption_redundancy_seed",
            basis,
            grade(false, f.figure_caption_redundancy_count > 0),
            "medium",
            if f.figure_caption_redundancy_count > 0 {
                "Figure alt and figcaption content appear near-duplicate; announce-once optimization recommended."
            } else {
                "Figure alt and figcaption content are sufficiently distinct."
            },
            evidence,
        )
    }
}

/// The values that the finding of `focus_rule` rests on.
pub open spec fn focus_values(f: A11yVerifierFacts) -> Seq<(Seq<char>, Seq<char>)> {
    seq![
        (
            "interactive_focus_target_count"@,
            decimal((f.link_count + f.form_control_count) as nat),
        ),
        counted("link_count"@, f.link_count),
        counted("form_control_count"@, f.form_control_count),
        counted("tabindex_attr_count"@, f.tabindex_attr_count),
        counted("positive_tabindex_count"@, f.positive_tabindex_count),
        counted("invalid_tabindex_count"@, f.invalid_tabindex_count),
    ]
}

/// The focus order follows the document order.
pub open spec fn focus_rule(f: A11yVerifierFacts) -> FindingView {
    if f.link_count + f.form_control_count == 0 {
        absent(
            "fb.a11y.focus.order_seed"@,
            "hybrid"@,
            "medium"@,
            "No interactive links or form controls detected; focus-order seed not applicable."@,
            observed(focus_values(f)),
        )
    } else {
        emitted(
            "fb.a11y.focus.order_seed"@,
            "applicable"@,
            "hybrid"@,
            graded(false, f.positive_tabindex_count > 0 || f.invalid_tabindex_count > 0),
            "medium"@,
            "medium"@,
            if f.positive_tabindex_count > 0 {
                "Positive tabindex values detected; focus order may diverge from DOM order and requires manual review."@
            } else if f.invalid_tabindex_count > 0 {
                "Invalid tabindex values detected; focus order behavior may be inconsistent and requires manual review."@
            } else {
                "No positive/invalid tabindex focus-order override signals detected for interactive content."@
            },
            observed(focus_values(f)),
        )
    }
}

fn focus_finding(f: &A11yVerifierFacts) -> (r: A11yVerifierFinding)
    requires
        f.link_count + f.form_control_count <= usize::MAX,
    ensures
        r@ == focus_rule(*f),
{
    let targets: usize = f.link_count + f.form_control_count;
    let mut values: Vec<(String, String)> = Vec::new();
    values.push(count("interactive_focus_target_count", targets));
    values.push(count("link_count", f.link_count));
    values.push(count("form_control_count", f.form_control_count));
    values.push(count("tabindex_attr_count", f.tabindex_attr_count));
    values.push(count("positive_tabindex_count", f.positive_tabindex_count));
    values.push(count("invalid_tabindex_count", f.invalid_tabindex_count));
    proof {
        assert(pairs(values@) =~= focus_values(*f));
    }
    let evidence = observe(values);
    if targets == 0 {
        let basis = Basis { applicability: "not_applicable", mode: "hybrid", confidence: "high" };
        emit(
            "fb.a11y.focus.order_seed",
            basis,
            "not_applicable",
            "medium",
            "No interactive links or form controls detected; focus-order seed not applicable.",
            evidence,
        )
    } else {
        let basis = Basis { applicability: "applicable", mode: "hybrid", confidence: "medium" };
        emit(
            "fb.a11y.focus.order_seed",
            basis,
            grade(false, f.positive_tabindex_count > 0 || f.invalid_tabindex_count > 0),
            "medium",
            if f.positive_tabindex_count > 0 {
                "Positive tabindex values detected; focus order may diverge from DOM order and requires manual review."
            } else if f.invalid_tabindex_count > 0 {
                "Invalid tabindex values detected; focus order behavior may be inconsistent and requires manual review."
            } else {
                "No positive/invalid tabindex focus-order override signals detected for interactive content."
            },
            evidence,
        )
    }
}

// ---------------------------------------------------------------------------------------------
// Phrases
// ---------------------------------------------------------------------------------------------
/// The phrases of a list that occur in a text, in the order of the list.
pub open spec fn phrase_hits(hay: Seq<char>, phrases: Seq<Seq<char>>) -> Seq<Seq<char>>
    decreases phrases.len(),
{
    if phrases.len() == 0 {
        Seq::empty()
    } else if contains(hay, phrases.last()) {
        phrase_hits(hay, phrases.drop_last()).push(phrases.last())
    } else {
        phrase_hits(hay, phrases.drop_last())
    }
}

fn take_hit(hits: &mut Vec<String>, hay: &str, phrase: &str, Ghost(before): Ghost<Seq<Seq<char>>>)
    requires
        texts(old(hits)@) == phrase_hits(hay@, before),
    ensures
        texts(final(hits)@) == phrase_hits(hay@, before.push(phrase@)),
{
    proof {
        assert(before.push(phrase@).drop_last() =~= before);
    }
    if contains_text(hay, phrase) {
        let ghost held = texts(hits@);
        hits.push(phrase.to_owned());
        proof {
            assert(texts(hits@) =~= held.push(phrase@));
        }
    }
}

/// The phrases that tell a reader to look at a place or a colour.
pub open spec fn sensory_phrases() -> Seq<Seq<char>> {
    seq![
        "see above"@,
        "see below"@,
        "shown above"@,
        "shown below"@,
        "on the left"@,
        "on the right"@,
        "left side"@,
        "right side"@,
        "top of the page"@,
        "bottom of the page"@,
        "red button"@,
        "green button"@,
        "blue button"@,
    ]
}

/// The sensory phrases that occur in a text, whatever their case.
pub fn a11y_sensory_instruction_hits(body_text: &str) -> (out: Vec<String>)
    ensures
        texts(out@) == phrase_hits(lower(body_text@), sensory_phrases()),
{
    let low = lowered(body_text);
    let mut out: Vec<String> = Vec::new();
    let ghost p: Seq<Seq<char>> = Seq::empty();
    proof {
        assert(texts(out@) =~= Seq::empty());
    }
    let phrases: [&str; 13] = [
        "see above",
        "see below",
        "shown above",
        "shown below",
        "on the left",
        "on the right",
        "left side",
        "right side",
        "top of the page",
        "bottom of the page",
        "red button",
        "green button",
        "blue button",
    ];
    let mut i: usize = 0;
    while i < 13
        invariant
            i <= 13,
            phrases@.len() == 13,
            low@ == lower(body_text@),
            p.len() == i,
            forall|k: int| 0 <= k < i ==> p[k] == (#[trigger] phrases@[k])@,
            texts(out@) == phrase_hits(low@, p),
        decreases 13 - i,
    {
        take_hit(&mut out, &low, phrases[i], Ghost(p));
        proof {
            p = p.push(phrases@[i as int]@);
        }
        i += 1;
    }
    proof {
        assert(p =~= sensory_phrases());
    }
    out
}

/// The phrases of working papers that have no place in a finished document.
pub open spec fn note_phrases() -> Seq<Seq<char>> {
    seq![
        "review queue"@,
        "parity report"@,
        "source analysis"@,
        "component validation"@,
        "a11y validation"@,
        "transcription sidecar"@,
        "debug log"@,
        "remediation note"@,
    ]
}

/// The working-paper phrases that occur in a text, whatever their case.
pub fn pmr_note_hits(body_text: &str) -> (out: Vec<String>)
    ensures
        texts(out@) == phrase_hits(lower(body_text@), note_phrases()),
{
    let low = lowered(body_text);
    let mut out: Vec<String> = Vec::new();
    let ghost p: Seq<Seq<char>> = Seq::empty();
    proof {
        assert(texts(out@) =~= Seq::empty());
    }
    let phrases: [&str; 8] = [
        "review queue",
        "parity report",
        "source analysis",
        "component validation",
        "a11y validation",
        "transcription sidecar",
        "debug log",
        "remediation note",
    ];
    let mut i: usize = 0;
    while i < 8
        invariant
            i <= 8,
            phrases@.len() == 8,
            low@ == lower(body_text@),
            p.len() == i,
            forall|k: int| 0 <= k < i ==> p[k] == (#[trigger] phrases@[k])@,
            texts(out@) == phrase_hits(low@, p),
        decreases 8 - i,
    {
        take_hit(&mut out, &low, phrases[i], Ghost(p));
        proof {
            p = p.push(phrases@[i as int]@);
        }
        i += 1;
    }
    proof {
        assert(p =~= note_phrases());
    }
    out
}

/// A reported phrase is one of the list and occurs in the text.
pub proof fn hits_are_phrases(hay: Seq<char>, phrases: Seq<Seq<char>>)
    ensures
        forall|x: Seq<char>| #[trigger]
            phrase_hits(hay, phrases).contains(x) <==> phrases.contains(x) && contains(hay, x),
    decreases phrases.len(),
{
    if phrases.len() > 0 {
        let before = phrases.drop_last();
        hits_are_phrases(hay, before);
        assert forall|x: Seq<char>| #[trigger]
            phrase_hits(hay, phrases).contains(x) <==> phrases.contains(x) && contains(hay, x) by {
            let held = phrase_hits(hay, before);
            assert(held.contains(x) <==> before.contains(x) && contains(hay, x));
            assert(before.push(phrases.last()) =~= phrases);
            vstd::seq_lib::lemma_seq_contains_after_push(before, phrases.last(), x);
            vstd::seq_lib::lemma_seq_contains_after_push(held, phrases.last(), x);
        }
    }
}

/// Instructions do not rest on where things stand or how they look.
pub open spec fn sensory_rule(f: A11yVerifierFacts) -> FindingView {
    let hits = phrase_hits(lower(f.body_text@), sensory_phrases());
    emitted(
        "fb.a11y.instructions.sensory_characteristics_seed"@,
        "applicable"@,
        "hybrid"@,
        graded(false, hits.len() > 0),
        "medium"@,
        if hits.len() == 0 {
            "high"@
        } else {
            "medium"@
        },
        if hits.len() == 0 {
            "No obvious sensory-characteristics instruction phrases detected."@
        } else {
            "Potential sensory-characteristics instruction phrases detected; manual review required."@
        },
        observed(
            seq![
                ("sensory_phrase_hit_count"@, decimal(hits.len())),
                ("sensory_phrase_hits"@, join(hits, "|"@)),
            ],
        ),
    )
}

fn sensory_finding(f: &A11yVerifierFacts) -> (r: A11yVerifierFinding)
    ensures
        r@ == sensory_rule(*f),
{
    let hits = a11y_sensory_instruction_hits(&f.body_text);
    let ghost expected = phrase_hits(lower(f.body_text@), sensory_phrases());
    proof {
        assert(texts(hits@).len() == hits@.len());
    }
    let clean = hits.len() == 0;
    let mut values: Vec<(String, String)> = Vec::new();
    values.push(count("sensory_phrase_hit_count", hits.len()));
    values.push(named("sensory_phrase_hits", &join_strings(&hits, "|")));
    proof {
        assert(pairs(values@) =~= seq![
            ("sensory_phrase_hit_count"@, decimal(expected.len())),
            ("sensory_phrase_hits"@, join(expected, "|"@)),
        ]);
    }
    let evidence = observe(values);
    let basis = Basis {
        applicability: "applicable",
        mode: "hybrid",
        confidence: if clean {
            "high"
        } else {
            "medium"
        },
    };
    emit(
        "fb.a11y.instructions.sensory_characteristics_seed",
        basis,
        grade(false, !clean),
        "medium",
        if clean {
            "No obvious sensory-characteristics instruction phrases detected."
        } else {
            "Potential sensory-characteristics instruction phrases detected; manual review required."
        },
        evidence,
    )
}

// ---------------------------------------------------------------------------------------------
// Identifiers
// ---------------------------------------------------------------------------------------------
/// What `{:?}` writes for a string.
pub uninterp spec fn debug_text(s: Seq<char>) -> Seq<char>;

/// The `Debug` formatting of `str`: the string in quotes with special characters escaped, which is
/// a function of the string alone.
#[verifier::external_body]
pub(crate) fn debug_string(s: &str) -> (r: String)
    ensures
        r@ == debug_text(s@),
{
    format!("{:?}", s)
}

/// A finding that settles a question without doubt.
pub open spec fn settled(
    rule_id: Seq<char>,
    fail: bool,
    message: Seq<char>,
    evidence: Seq<EvidenceView>,
) -> FindingView {
    emitted(
        rule_id,
        "applicable"@,
        "machine"@,
        graded(fail, false),
        "critical"@,
        "certain"@,
        message,
        evidence,
    )
}

fn settle(rule_id: &str, fail: bool, message: &str, evidence: Vec<A11yVerifierEvidence>) -> (r:
    A11yVerifierFinding)
    ensures
        r@ == settled(rule_id@, fail, message@, evidence_views(evidence@)),
{
    let basis = Basis { applicability: "applicable", mode: "machine", confidence: "certain" };
    emit(rule_id, basis, grade(fail, false), "critical", message, evidence)
}

/// The finding on one id that occurs twice.
pub open spec fn duplicate_rule(id: Seq<char>) -> FindingView {
    settled(
        "fb.a11y.ids.duplicate_id"@,
        true,
        "Duplicate id "@ + debug_text(id) + " detected."@,
        observed(seq![("id"@, id)]),
    )
}

/// One finding per repeated id, or one that says there is none.
pub open spec fn duplicate_rules(dups: Seq<Seq<char>>) -> Seq<FindingView> {
    if dups.len() == 0 {
        seq![
            settled(
                "fb.a11y.ids.duplicate_id"@,
                false,
                "No duplicate IDs detected."@,
                Seq::empty(),
            ),
        ]
    } else {
        Seq::new(dups.len(), |i: int| duplicate_rule(dups[i]))
    }
}

fn push_duplicates(findings: &mut Vec<A11yVerifierFinding>, dups: &Vec<String>)
    ensures
        finding_views(final(findings)@) == finding_views(old(findings)@) + duplicate_rules(
            texts(dups@),
        ),
{
    let ghost start = finding_views(findings@);
    if dups.len() == 0 {
        let evidence: Vec<A11yVerifierEvidence> = Vec::new();
        proof {
            assert(evidence_views(evidence@) =~= Seq::empty());
        }
        findings.push(
            settle("fb.a11y.ids.duplicate_id", false, "No duplicate IDs detected.", evidence),
        );
        proof {
            assert(finding_views(findings@) =~= start + duplicate_rules(texts(dups@)));
        }
        return;
    }
    let mut i: usize = 0;
    while i < dups.len()
        invariant
            i <= dups@.len(),
            dups@.len() > 0,
            finding_views(findings@) == start + duplicate_rules(texts(dups@)).take(i as int),
        decreases dups@.len() - i,
    {
        let mut values: Vec<(String, String)> = Vec::new();
        values.push(named("id", &dups[i]));
        proof {
            assert(pairs(values@) =~= seq![("id"@, dups@[i as int]@)]);
        }
        let message = concat(&concat("Duplicate id ", &debug_string(&dups[i])), " detected.");
        let ghost before = finding_views(findings@);
        findings.push(settle("fb.a11y.ids.duplicate_id", true, &message, observe(values)));
        proof {
            assert(texts(dups@)[i as int] == dups@[i as int]@);
            let all = duplicate_rules(texts(dups@));
            assert(finding_views(findings@) =~= before.push(all[i as int]));
            assert(start + all.take(i + 1) =~= (start + all.take(i as int)).push(all[i as int]));
        }
        i += 1;
    }
    proof {
        let all = duplicate_rules(texts(dups@));
        assert(all.take(all.len() as int) =~= all);
        assert(all.len() == dups@.len());
    }
}

/// The finding on one reference that points nowhere.
pub open spec fn missing_rule(r: (Seq<char>, Seq<char>)) -> FindingView {
    settled(
        "fb.a11y.aria.reference_target_exists"@,
        true,
        r.0 + " references missing id "@ + debug_text(r.1) + "."@,
        observed(seq![("attr"@, r.0), ("target_id"@, r.1)]),
    )
}

/// One finding per reference that points nowhere, or one that says there is none.
pub open spec fn missing_rules(refs: Seq<(Seq<char>, Seq<char>)>) -> Seq<FindingView> {
    if refs.len() == 0 {
        seq![
            settled(
                "fb.a11y.aria.reference_target_exists"@,
                false,
                "No broken ARIA ID references detected."@,
                Seq::empty(),
            ),
        ]
    } else {
        Seq::new(refs.len(), |i: int| missing_rule(refs[i]))
    }
}

fn push_missing(findings: &mut Vec<A11yVerifierFinding>, refs: &Vec<(String, String)>)
    ensures
        finding_views(final(findings)@) == finding_views(old(findings)@) + missing_rules(
            pairs(refs@),
        ),
{
    let ghost start = finding_views(findings@);
    if refs.len() == 0 {
        let evidence: Vec<A11yVerifierEvidence> = Vec::new();
        proof {
            assert(evidence_views(evidence@) =~= Seq::empty());
        }
        findings.push(
            settle(
                "fb.a11y.aria.reference_target_exists",
                false,
                "No broken ARIA ID references detected.",
                evidence,
            ),
        );
        proof {
            assert(finding_views(findings@) =~= start + missing_rules(pairs(refs@)));
        }
        return;
    }
    let mut i: usize = 0;
    while i < refs.len()
        invariant
            i <= refs@.len(),
            refs@.len() > 0,
            finding_views(findings@) == start + missing_rules(pairs(refs@)).take(i as int),
        decreases refs@.len() - i,
    {
        let name = &refs[i].0;
        let target = &refs[i].1;
        let mut values: Vec<(String, String)> = Vec::new();
        values.push(named("attr", name));
        values.push(named("target_id", target));
        proof {
            assert(pairs(values@) =~= seq![("attr"@, name@), ("target_id"@, target@)]);
        }
        let message = concat(
            &concat(&concat(name, " references missing id "), &debug_string(target)),
            ".",
        );
        let ghost before = finding_views(findings@);
        findings.push(
            settle("fb.a11y.aria.reference_target_exists", true, &message, observe(values)),
        );
        proof {
            assert(pairs(refs@)[i as int] == (name@, target@));
            let all = missing_rules(pairs(refs@));
            assert(finding_views(findings@) =~= before.push(all[i as int]));
            assert(start + all.take(i + 1) =~= (start + all.take(i as int)).push(all[i as int]));
        }
        i += 1;
    }
    proof {
        let all = missing_rules(pairs(refs@));
        assert(all.take(all.len() as int) =~= all);
        assert(all.len() == refs@.len());
    }
}

// ---------------------------------------------------------------------------------------------
// Signatures and active content
// ---------------------------------------------------------------------------------------------
/// Whether a profile asks for signatures that can be read as text.
pub open spec fn asks_for_signatures(profile: Seq<char>) -> bool {
    lower(profile) == "cav"@ || lower(profile) == "transactional"@
}

/// Whether the text speaks of signatures.
pub open spec fn speaks_of_signatures(text: Seq<char>) -> bool {
    contains(lower(text), "signature"@) || contains(lower(text), "signed"@)
}

/// Signatures can be read as text.
pub open spec fn signature_rule(f: A11yVerifierFacts) -> FindingView {
    let ok = f.signature_semantic_count > 0;
    let cue = speaks_of_signatures(f.body_text@);
    emitted(
        "fb.a11y.signatures.text_semantics_present"@,
        "applicable"@,
        "machine"@,
        if ok {
            "pass"@
        } else if !cue {
            "not_applicable"@
        } else {
            "fail"@
        },
        "medium"@,
        "certain"@,
        if ok {
            "Signature fields include text-first semantics."@
        } else if !cue {
            "No signature-bearing content cues detected; signature semantics check not applicable."@
        } else {
            "No text-first signature semantics detected."@
        },
        observed(
            seq![
                counted("signature_semantic_count"@, f.signature_semantic_count),
                (
                    "signature_cue_text_present"@,
                    if cue {
                        "true"@
                    } else {
                        "false"@
                    },
                ),
            ],
        ),
    )
}

fn signature_finding(f: &A11yVerifierFacts) -> (r: A11yVerifierFinding)
    ensures
        r@ == signature_rule(*f),
{
    let ok = f.signature_semantic_count > 0;
    let text = lowered(&f.body_text);
    let cue = contains_text(&text, "signature") || contains_text(&text, "signed");
    let cue_text = if cue {
        "true"
    } else {
        "false"
    };
    let mut values: Vec<(String, String)> = Vec::new();
    values.push(count("signature_semantic_count", f.signature_semantic_count));
    values.push(named("signature_cue_text_present", cue_text));
    proof {
        assert(pairs(values@) =~= seq![
            counted("signature_semantic_count"@, f.signature_semantic_count),
            ("signature_cue_text_present"@, cue_text@),
        ]);
    }
    let evidence = observe(values);
    let basis = Basis { applicability: "applicable", mode: "machine", confidence: "certain" };
    emit(
        "fb.a11y.signatures.text_semantics_present",
        basis,
        if ok {
            "pass"
        } else if !cue {
            "not_applicable"
        } else {
            "fail"
        },
        "medium",
        if ok {
            "Signature fields include text-first semantics."
        } else if !cue {
            "No signature-bearing content cues detected; signature semantics check not applicable."
        } else {
            "No text-first signature semantics detected."
        },
        evidence,
    )
}

/// The values that the finding of `interference_rule` rests on.
pub open spec fn interference_values(f: A11yVerifierFacts) -> Seq<(Seq<char>, Seq<char>)> {
    seq![
        counted("script_element_count"@, f.script_element_count),
        counted("embedded_active_content_count"@, f.embedded_active_content_count),
        counted("autoplay_media_count"@, f.autoplay_media_count),
        counted("blink_marquee_count"@, f.blink_marquee_count),
        counted("inline_event_handler_attr_count"@, f.inline_event_handler_attr_count),
        counted("meta_refresh_count"@, f.meta_refresh_count),
    ]
}

/// Whether the document holds anything that acts by itself.
pub open spec fn is_active(f: A11yVerifierFacts) -> bool {
    ||| f.script_element_count > 0
    ||| f.embedded_active_content_count > 0
    ||| f.autoplay_media_count > 0
    ||| f.blink_marquee_count > 0
    ||| f.inline_event_handler_attr_count > 0
    ||| f.meta_refresh_count > 0
}

/// Active content does not interfere.
pub open spec fn interference_rule(f: A11yVerifierFacts) -> FindingView {
    FindingView {
        rule_id: "fb.a11y.claim.non_interference_seed"@,
        applicability: "applicable"@,
        verification_mode: "hybrid"@,
        verdict: graded(false, is_active(f)),
        severity: "medium"@,
        confidence: if is_active(f) {
            "medium"@
        } else {
            "high"@
        },
        stage: "adapter"@,
        source: "adapter"@,
        message: if is_active(f) {
            "Potential non-interference risk signals detected; manual review required."@
        } else {
            "No obvious active-content non-interference risk signals detected in emitted HTML."@
        },
        evidence: observed(interference_values(f)),
    }
}

fn interference_finding(f: &A11yVerifierFacts) -> (r: A11yVerifierFinding)
    ensures
        r@ == interference_rule(*f),
{
    let active = f.script_element_count > 0 || f.embedded_active_content_count > 0
        || f.autoplay_media_count > 0 || f.blink_marquee_count > 0
        || f.inline_event_handler_attr_count > 0 || f.meta_refresh_count > 0;
    let mut values: Vec<(String, String)> = Vec::new();
    values.push(count("script_element_count", f.script_element_count));
    values.push(count("embedded_active_content_count", f.embedded_active_content_count));
    values.push(count("autoplay_media_count", f.autoplay_media_count));
    values.push(count("blink_marquee_count", f.blink_marquee_count));
    values.push(count("inline_event_handler_attr_count", f.inline_event_handler_attr_count));
    values.push(count("meta_refresh_count", f.meta_refresh_count));
    proof {
        assert(pairs(values@) =~= interference_values(*f));
    }
    A11yVerifierFinding {
        rule_id: "fb.a11y.claim.non_interference_seed".to_owned(),
        applicability: "applicable".to_owned(),
        verification_mode: "hybrid".to_owned(),
        verdict: grade(false, active).to_owned(),
        severity: "medium".to_owned(),
        confidence: if active {
            "medium".to_owned()
        } else {
            "high".to_owned()
        },
        stage: "adapter".to_owned(),
        source: "adapter".to_owned(),
        message: if active {
            "Potential non-interference risk signals detected; manual review required.".to_owned()
        } else {
            "No obvious active-content non-interference risk signals detected in emitted HTML.".to_owned()
        },
        evidence: observe(values),
    }
}

// ---------------------------------------------------------------------------------------------
// All findings
// ---------------------------------------------------------------------------------------------
/// What the verifier is asked: the language and title that the document should have, the profile
/// to apply, and the largest caption similarity in decimal notation.
pub struct A11yQuestion {
    pub expected_lang: Option<String>,
    pub expected_title: Option<String>,
    pub profile: String,
    pub similarity_text: String,
}

/// The findings on the document itself, before those on single ids.
pub open spec fn leading_rules(f: A11yVerifierFacts, q: A11yQuestion) -> Seq<FindingView> {
    seq![
        lang_rule(f, q.expected_lang),
        parts_lang_rule(f),
        title_rule(f, q.expected_title),
        main_rule(f),
        headings_labels_rule(f),
        images_rule(f),
        alt_budget_rule(f),
        caption_rule(f, q.similarity_text@),
        figure_text_rule(f),
        dl_fragmentation_rule(f),
        dl_consistency_rule(f),
        form_labels_rule(f),
        form_errors_rule(f),
        focus_rule(f),
        links_rule(f),
        sensory_rule(f),
    ]
}

/// The findings after those on single ids.
pub open spec fn closing_rules(f: A11yVerifierFacts, q: A11yQuestion) -> Seq<FindingView> {
    if asks_for_signatures(q.profile@) {
        seq![
            redundant_role_rule(f),
            redundant_state_rule(f),
            signature_rule(f),
            interference_rule(f),
        ]
    } else {
        seq![redundant_role_rule(f), redundant_state_rule(f), interference_rule(f)]
    }
}

/// All findings, in the order in which they are reported.
pub open spec fn core_rules(f: A11yVerifierFacts, q: A11yQuestion) -> Seq<FindingView> {
    leading_rules(f, q) + duplicate_rules(texts(f.duplicate_ids@)) + missing_rules(
        pairs(f.missing_idrefs@),
    ) + closing_rules(f, q)
}

/// Applies every rule of the verifier to the facts of a document.
pub fn core_findings(f: &A11yVerifierFacts, q: &A11yQuestion) -> (findings: Vec<
    A11yVerifierFinding,
>)
    requires
        f.link_count + f.form_control_count <= usize::MAX,
    ensures
        finding_views(findings@) == core_rules(*f, *q),
{
    let mut findings: Vec<A11yVerifierFinding> = Vec::new();
    findings.push(lang_finding(f, &q.expected_lang));
    findings.push(parts_lang_finding(f));
    findings.push(title_finding(f, &q.expected_title));
    findings.push(main_finding(f));
    findings.push(headings_labels_finding(f));
    findings.push(images_finding(f));
    findings.push(alt_budget_finding(f));
    findings.push(caption_finding(f, &q.similarity_text));
    findings.push(figure_text_finding(f));
    findings.push(dl_fragmentation_finding(f));
    findings.push(dl_consistency_finding(f));
    findings.push(form_labels_finding(f));
    findings.push(form_errors_finding(f));
    findings.push(focus_finding(f));
    findings.push(links_finding(f));
    findings.push(sensory_finding(f));
    proof {
        assert(finding_views(findings@) =~= leading_rules(*f, *q));
    }
    push_duplicates(&mut findings, &f.duplicate_ids);
    push_missing(&mut findings, &f.missing_idrefs);
    let ghost before = finding_views(findings@);
    findings.push(redundant_role_finding(f));
    findings.push(redundant_state_finding(f));
    let profile = lowered(&q.profile);
    if same(&profile, "cav") || same(&profile, "transactional") {
        findings.push(signature_finding(f));
    }
    findings.push(interference_finding(f));
    proof {
        assert(finding_views(findings@) =~= before + closing_rules(*f, *q));
    }
    findings
}

} // verus!

//! The paged-media rank: audits of a rendered document, their scores and their gate.
//!
//! The definitions of the audits and categories come from outside as a table. Weights are whole
//! numbers, of which only the ratios matter. Scores and confidences are counted in hundredths of
//! a point, and rounded half up.
use vstd::prelude::*;

use crate::facts::{pairs, A11yVerifierFacts, HtmlTableFacts};
use crate::findings::{
    differs, differs_from, fill, filled, note_phrases, or_empty, phrase_hits, pmr_note_hits,
    speaks_of_signatures, text_or_empty,
};
use crate::signals::{lang_exact_valid, lang_is_valid};
use crate::text::{
    blank, concat, contains_text, count_text, decimal, integer_text, is_blank, join, join_strings,
    lower, lowered, same, signed_decimal, texts,
};

verus! {

broadcast use vstd::string::group_string_axioms;

// ---------------------------------------------------------------------------------------------
// Data
// ---------------------------------------------------------------------------------------------
/// The definition of an audit, with the level at which it gates for the profile in use.
pub struct AuditDef {
    pub id: String,
    pub category: String,
    pub weight: u32,
    pub class_name: String,
    pub severity: String,
    pub stage: String,
    pub gate_level: String,
}

/// The definition of a category.
pub struct CategoryDef {
    pub id: String,
    pub name: String,
    pub weight: u32,
}

/// The definitions of all audits and categories.
pub struct PmrContract {
    pub audits: Vec<AuditDef>,
    pub categories: Vec<CategoryDef>,
}

/// What a pagination trace counted.
pub struct PaginationTraceSummary {
    pub page_count: Option<i64>,
    pub event_count: Option<i64>,
    pub transition_count: Option<i64>,
    pub page_transition_count: Option<i64>,
    pub frame_transition_count: Option<i64>,
    pub placement_count: Option<i64>,
    pub split_count: Option<i64>,
    pub overflow_event_count: Option<i64>,
    pub recoverable_overflow_count: Option<i64>,
    pub fatal_overflow_count: Option<i64>,
    pub low_coverage_page_count: Option<i64>,
    pub flowable_overlap_count: Option<i64>,
    pub text_overlap_count: Option<i64>,
}

/// What is known about the run that produced the document.
pub struct PmrCoreContext {
    pub overflow_count: Option<i64>,
    pub known_loss_count: Option<i64>,
    pub pagination_summary: Option<PaginationTraceSummary>,
    pub source_page_count: Option<i64>,
    pub render_page_count: Option<i64>,
    pub review_queue_items: Option<i64>,
    pub html_artifact_bytes: Option<u64>,
    pub css_artifact_bytes: Option<u64>,
}

impl Default for PaginationTraceSummary {
    fn default() -> (r: Self)
        ensures
            r == no_trace(),
    {
        PaginationTraceSummary {
            page_count: None,
            event_count: None,
            transition_count: None,
            page_transition_count: None,
            frame_transition_count: None,
            placement_count: None,
            split_count: None,
            overflow_event_count: None,
            recoverable_overflow_count: None,
            fatal_overflow_count: None,
            low_coverage_page_count: None,
            flowable_overlap_count: None,
            text_overlap_count: None,
        }
    }
}

/// A trace that counted nothing.
pub open spec fn no_trace() -> PaginationTraceSummary {
    PaginationTraceSummary {
        page_count: None,
        event_count: None,
        transition_count: None,
        page_transition_count: None,
        frame_transition_count: None,
        placement_count: None,
        split_count: None,
        overflow_event_count: None,
        recoverable_overflow_count: None,
        fatal_overflow_count: None,
        low_coverage_page_count: None,
        flowable_overlap_count: None,
        text_overlap_count: None,
    }
}

impl Default for PmrCoreContext {
    fn default() -> (r: Self)
        ensures
            r == (PmrCoreContext {
                overflow_count: None,
                known_loss_count: None,
                pagination_summary: None,
                source_page_count: None,
                render_page_count: None,
                review_queue_items: None,
                html_artifact_bytes: None,
                css_artifact_bytes: None,
            }),
    {
        PmrCoreContext {
            overflow_count: None,
            known_loss_count: None,
            pagination_summary: None,
            source_page_count: None,
            render_page_count: None,
            review_queue_items: None,
            html_artifact_bytes: None,
            css_artifact_bytes: None,
        }
    }
}

/// What supports an audit.
pub struct PmrCoreEvidence {
    pub selector: Option<String>,
    pub diagnostic_ref: Option<String>,
    pub values: Vec<(String, String)>,
}

/// The outcome of one audit; the score counts halves.
pub struct PmrCoreAudit {
    pub audit_id: String,
    pub category: String,
    pub weight: u32,
    pub class_name: String,
    pub verification_mode: String,
    pub severity: String,
    pub stage: String,
    pub source: String,
    pub verdict: String,
    pub scored: bool,
    pub score: Option<u8>,
    pub message: String,
    pub fix_hint: Option<String>,
    pub evidence: Vec<PmrCoreEvidence>,
}

/// Evidence as plain sequences.
#[verifier::ext_equal]
pub struct PmrEvidenceView {
    pub selector: Option<Seq<char>>,
    pub diagnostic_ref: Option<Seq<char>>,
    pub values: Seq<(Seq<char>, Seq<char>)>,
}

/// An audit as plain sequences and numbers.
#[verifier::ext_equal]
pub struct AuditView {
    pub audit_id: Seq<char>,
    pub category: Seq<char>,
    pub weight: nat,
    pub class_name: Seq<char>,
    pub verification_mode: Seq<char>,
    pub severity: Seq<char>,
    pub stage: Seq<char>,
    pub source: Seq<char>,
    pub verdict: Seq<char>,
    pub scored: bool,
    pub score: Option<nat>,
    pub message: Seq<char>,
    pub fix_hint: Option<Seq<char>>,
    pub evidence: Seq<PmrEvidenceView>,
}

/// The text of an optional string.
pub open spec fn optional(s: Option<String>) -> Option<Seq<char>> {
    match s {
        Some(v) => Some(v@),
        None => None,
    }
}

impl View for PmrCoreEvidence {
    type V = PmrEvidenceView;

    open spec fn view(&self) -> PmrEvidenceView {
        PmrEvidenceView {
            selector: optional(self.selector),
            diagnostic_ref: optional(self.diagnostic_ref),
            values: pairs(self.values@),
        }
    }
}

/// The views of a list of evidence.
pub open spec fn pmr_evidence(v: Seq<PmrCoreEvidence>) -> Seq<PmrEvidenceView> {
    Seq::new(v.len(), |i: int| v[i]@)
}

impl View for PmrCoreAudit {
    type V = AuditView;

    open spec fn view(&self) -> AuditView {
        AuditView {
            audit_id: self.audit_id@,
            category: self.category@,
            weight: self.weight as nat,
            class_name: self.class_name@,
            verification_mode: self.verification_mode@,
            severity: self.severity@,
            stage: self.stage@,
            source: self.source@,
            verdict: self.verdict@,
            scored: self.scored,
            score: match self.score {
                Some(s) => Some(s as nat),
                None => None,
            },
            message: self.message@,
            fix_hint: optional(self.fix_hint),
            evidence: pmr_evidence(self.evidence@),
        }
    }
}

/// The views of a list of audits.
pub open spec fn audit_views(v: Seq<PmrCoreAudit>) -> Seq<AuditView> {
    Seq::new(v.len(), |i: int| v[i]@)
}

// ---------------------------------------------------------------------------------------------
// Single audits
// ---------------------------------------------------------------------------------------------
/// The score of a verdict in halves.
pub open spec fn score_of(verdict: Seq<char>) -> Option<nat> {
    if verdict == "pass"@ {
        Some(2)
    } else if verdict == "warn"@ {
        Some(1)
    } else if verdict == "fail"@ {
        Some(0)
    } else {
        None
    }
}

/// The place of the definition of an audit in a table.
pub open spec fn def_index(defs: Seq<AuditDef>, id: Seq<char>) -> Option<int>
    decreases defs.len(),
{
    if defs.len() == 0 {
        None
    } else {
        match def_index(defs.drop_last(), id) {
            Some(i) => Some(i),
            None => if defs.last().id@ == id {
                Some(defs.len() - 1)
            } else {
                None
            },
        }
    }
}

/// Whether the table defines the audit.
pub open spec fn defines(c: PmrContract, id: Seq<char>) -> bool {
    def_index(c.audits@, id) is Some
}

/// The definition of an audit.
pub open spec fn def_of(c: PmrContract, id: Seq<char>) -> AuditDef {
    c.audits@[def_index(c.audits@, id)->0]
}

pub(crate) proof fn def_index_in_range(defs: Seq<AuditDef>, id: Seq<char>)
    ensures
        match def_index(defs, id) {
            Some(i) => 0 <= i < defs.len() && defs[i].id@ == id,
            None => forall|k: int| 0 <= k < defs.len() ==> (#[trigger] defs[k]).id@ != id,
        },
    decreases defs.len(),
{
    if defs.len() > 0 {
        let before = defs.drop_last();
        def_index_in_range(before, id);
        match def_index(before, id) {
            Some(i) => {},
            None => {
                assert forall|k: int| 0 <= k < defs.len() - 1 implies (#[trigger] defs[k]).id@
                    != id by {
                    assert(before[k].id@ != id);
                }
            },
        }
    }
}

fn find_def<'a>(c: &'a PmrContract, id: &str) -> (r: &'a AuditDef)
    requires
        defines(*c, id@),
    ensures
        *r == def_of(*c, id@),
{
    let mut i: usize = 0;
    let ghost goal = def_index(c.audits@, id@);
    proof {
        def_index_in_range(c.audits@, id@);
        assert(def_index(c.audits@.take(0), id@) is None);
    }
    while i < c.audits.len()
        invariant
            i <= c.audits@.len(),
            def_index(c.audits@.take(i as int), id@) is None,
            goal == def_index(c.audits@, id@),
        decreases c.audits@.len() - i,
    {
        proof {
            assert(c.audits@.take(i + 1).drop_last() =~= c.audits@.take(i as int));
        }
        if same(&c.audits[i].id, id) {
            proof {
                assert(def_index(c.audits@.take(i + 1), id@) == Some(i as int));
                def_index_extends(c.audits@, i + 1, id@);
            }
            return &c.audits[i];
        }
        i += 1;
    }
    proof {
        assert(c.audits@.take(c.audits@.len() as int) =~= c.audits@);
    }
    &c.audits[0]
}

pub proof fn def_index_extends(defs: Seq<AuditDef>, n: int, id: Seq<char>)
    requires
        0 <= n <= defs.len(),
        def_index(defs.take(n), id) is Some,
    ensures
        def_index(defs, id) == def_index(defs.take(n), id),
    decreases defs.len(),
{
    if n == defs.len() {
        assert(defs.take(n) =~= defs);
    } else {
        assert(defs.drop_last().take(n) =~= defs.take(n));
        def_index_extends(defs.drop_last(), n, id);
    }
}

/// What one audit found.
pub struct Outcome {
    pub mode: Seq<char>,
    pub verdict: Seq<char>,
    pub scored: bool,
    pub message: Seq<char>,
    pub evidence: Seq<PmrEvidenceView>,
    pub fix_hint: Option<Seq<char>>,
}

/// The audit `id` with a given outcome: everything else is taken from its definition.
pub open spec fn audited(c: PmrContract, id: Seq<char>, o: Outcome) -> AuditView {
    let def = def_of(c, id);
    AuditView {
        audit_id: def.id@,
        category: def.category@,
        weight: def.weight as nat,
        class_name: def.class_name@,
        verification_mode: o.mode,
        severity: def.severity@,
        stage: def.stage@,
        source: "fullbleed"@,
        verdict: o.verdict,
        scored: o.scored,
        score: if o.scored {
            score_of(o.verdict)
        } else {
            None
        },
        message: o.message,
        fix_hint: o.fix_hint,
        evidence: o.evidence,
    }
}

/// An outcome that a machine settled and that counts.
pub open spec fn machine(
    verdict: Seq<char>,
    message: Seq<char>,
    evidence: Seq<PmrEvidenceView>,
) -> Outcome {
    Outcome { mode: "machine"@, verdict, scored: true, message, evidence, fix_hint: None }
}

/// An outcome that does not count.
pub open spec fn unscored(mode: Seq<char>, verdict: Seq<char>, message: Seq<char>) -> Outcome {
    Outcome { mode, verdict, scored: false, message, evidence: Seq::empty(), fix_hint: None }
}

fn score_halves(verdict: &str) -> (r: Option<u8>)
    ensures
        match r {
            Some(s) => score_of(verdict@) == Some(s as nat),
            None => score_of(verdict@) is None,
        },
{
    if same(verdict, "pass") {
        Some(2)
    } else if same(verdict, "warn") {
        Some(1)
    } else if same(verdict, "fail") {
        Some(0)
    } else {
        None
    }
}

/// Builds an audit from its definition and its outcome.
fn pmr_push_contract_audit(
    audits: &mut Vec<PmrCoreAudit>,
    c: &PmrContract,
    audit_id: &str,
    verification_mode: &str,
    verdict: &str,
    scored: bool,
    message: &str,
    evidence: Vec<PmrCoreEvidence>,
    fix_hint: Option<String>,
)
    requires
        defines(*c, audit_id@),
    ensures
        audit_views(final(audits)@) == audit_views(old(audits)@).push(
            audited(
                *c,
                audit_id@,
                Outcome {
                    mode: verification_mode@,
                    verdict: verdict@,
                    scored,
                    message: message@,
                    evidence: pmr_evidence(evidence@),
                    fix_hint: optional(fix_hint),
                },
            ),
        ),
{
    let def = find_def(c, audit_id);
    let score = if scored {
        score_halves(verdict)
    } else {
        None
    };
    let ghost before = audit_views(audits@);
    let audit = PmrCoreAudit {
        audit_id: def.id.clone(),
        category: def.category.clone(),
        weight: def.weight,
        class_name: def.class_name.clone(),
        verification_mode: verification_mode.to_owned(),
        severity: def.severity.clone(),
        stage: def.stage.clone(),
        source: "fullbleed".to_owned(),
        verdict: verdict.to_owned(),
        scored,
        score,
        message: message.to_owned(),
        fix_hint,
        evidence,
    };
    let ghost view = audit@;
    audits.push(audit);
    proof {
        assert(audit_views(audits@) =~= before.push(view));
    }
}

/// Evidence made of named values alone.
pub open spec fn values_only(values: Seq<(Seq<char>, Seq<char>)>) -> Seq<PmrEvidenceView> {
    seq![PmrEvidenceView { selector: None, diagnostic_ref: None, values }]
}

fn plain_evidence(
    selector: Option<String>,
    diagnostic_ref: Option<String>,
    values: Vec<(String, String)>,
) -> (r: Vec<PmrCoreEvidence>)
    ensures
        pmr_evidence(r@) == seq![
            PmrEvidenceView {
                selector: optional(selector),
                diagnostic_ref: optional(diagnostic_ref),
                values: pairs(values@),
            },
        ],
{
    let mut r: Vec<PmrCoreEvidence> = Vec::new();
    r.push(PmrCoreEvidence { selector, diagnostic_ref, values });
    proof {
        assert(pmr_evidence(r@) =~= seq![
            PmrEvidenceView {
                selector: optional(selector),
                diagnostic_ref: optional(diagnostic_ref),
                values: pairs(values@),
            },
        ]);
    }
    r
}

fn no_evidence() -> (r: Vec<PmrCoreEvidence>)
    ensures
        pmr_evidence(r@) == Seq::<PmrEvidenceView>::empty(),
{
    let r: Vec<PmrCoreEvidence> = Vec::new();
    proof {
        assert(pmr_evidence(r@) =~= Seq::empty());
    }
    r
}

fn push_value(values: &mut Vec<(String, String)>, name: &str, value: String)
    ensures
        pairs(final(values)@) == pairs(old(values)@).push((name@, value@)),
{
    let ghost before = pairs(values@);
    let ghost text = value@;
    values.push((name.to_owned(), value));
    proof {
        assert(pairs(values@) =~= before.push((name@, text)));
    }
}

fn no_values() -> (r: Vec<(String, String)>)
    ensures
        pairs(r@) == Seq::<(Seq<char>, Seq<char>)>::empty(),
{
    let r: Vec<(String, String)> = Vec::new();
    proof {
        assert(pairs(r@) =~= Seq::empty());
    }
    r
}

/// Pass or fail.
pub open spec fn passed(ok: bool) -> Seq<char> {
    if ok {
        "pass"@
    } else {
        "fail"@
    }
}

fn pass_or_fail(ok: bool) -> (r: &'static str)
    ensures
        r@ == passed(ok),
{
    if ok {
        "pass"
    } else {
        "fail"
    }
}

// ---------------------------------------------------------------------------------------------
// Metadata
// ---------------------------------------------------------------------------------------------
/// The language is present, well formed and the expected one.
pub open spec fn lang_passes(f: A11yVerifierFacts, expected: Option<String>) -> bool {
    match f.html_lang {
        Some(lang) => lang_exact_valid(lang@) && !differs(expected, lang@),
        None => false,
    }
}

/// The title is present and the expected one.
pub open spec fn title_passes(f: A11yVerifierFacts, expected: Option<String>) -> bool {
    !is_blank(f.title@) && !differs(expected, f.title@)
}

/// The values of the language audit.
pub open spec fn lang_audit_values(f: A11yVerifierFacts, expected: Option<String>) -> Seq<
    (Seq<char>, Seq<char>),
> {
    let kind = match f.html_lang {
        None => "missing"@,
        Some(lang) => if !lang_exact_valid(lang@) {
            "invalid"@
        } else if differs(expected, lang@) {
            "metadata_mismatch"@
        } else {
            "none"@
        },
    };
    Seq::<(Seq<char>, Seq<char>)>::empty().push(("lang"@, or_empty(f.html_lang))).push(
        ("observed_lang"@, or_empty(f.html_lang)),
    ).push(("expected_document_lang"@, or_empty(expected))).push(("failure_kind"@, kind))
}

/// The outcome of the language audit.
pub open spec fn lang_outcome(f: A11yVerifierFacts, expected: Option<String>) -> Outcome {
    let message = match f.html_lang {
        None => "HTML lang attribute is missing."@,
        Some(lang) => if !lang_exact_valid(lang@) {
            "HTML lang attribute is present but invalid."@
        } else if differs(expected, lang@) {
            filled(
                "HTML lang is present and valid in the emitted DOM, but engine metadata persistence mismatched (observed DOM="@,
                lang@,
                ", expected metadata="@,
                or_empty(expected),
                ")."@,
            )
        } else {
            "HTML lang is present and valid."@
        },
    };
    machine(
        passed(lang_passes(f, expected)),
        message,
        seq![
            PmrEvidenceView {
                selector: Some("html"@),
                diagnostic_ref: None,
                values: lang_audit_values(f, expected),
            },
        ],
    )
}

fn audit_lang(
    audits: &mut Vec<PmrCoreAudit>,
    c: &PmrContract,
    f: &A11yVerifierFacts,
    expected: &Option<String>,
) -> (ok: bool)
    requires
        defines(*c, "pmr.doc.lang_present_valid"@),
    ensures
        ok == lang_passes(*f, *expected),
        audit_views(final(audits)@) == audit_views(old(audits)@).push(
            audited(*c, "pmr.doc.lang_present_valid"@, lang_outcome(*f, *expected)),
        ),
{
    let (ok, kind, message) = match &f.html_lang {
        None => (false, "missing", "HTML lang attribute is missing.".to_owned()),
        Some(lang) => if !lang_is_valid(lang) {
            (false, "invalid", "HTML lang attribute is present but invalid.".to_owned())
        } else if differs_from(expected, lang) {
            (
                false,
                "metadata_mismatch",
                fill(
                    "HTML lang is present and valid in the emitted DOM, but engine metadata persistence mismatched (observed DOM=",
                    lang,
                    ", expected metadata=",
                    &text_or_empty(expected),
                    ").",
                ),
            )
        } else {
            (true, "none", "HTML lang is present and valid.".to_owned())
        },
    };
    let mut values = no_values();
    push_value(&mut values, "lang", text_or_empty(&f.html_lang));
    push_value(&mut values, "observed_lang", text_or_empty(&f.html_lang));
    push_value(&mut values, "expected_document_lang", text_or_empty(expected));
    push_value(&mut values, "failure_kind", kind.to_owned());
    pmr_push_contract_audit(
        audits,
        c,
        "pmr.doc.lang_present_valid",
        "machine",
        pass_or_fail(ok),
        true,
        &message,
        plain_evidence(Some("html".to_owned()), None, values),
        None,
    );
    ok
}

/// The values of the title audit.
pub open spec fn title_audit_values(f: A11yVerifierFacts, expected: Option<String>) -> Seq<
    (Seq<char>, Seq<char>),
> {
    let kind = if is_blank(f.title@) {
        "missing"@
    } else if differs(expected, f.title@) {
        "metadata_mismatch"@
    } else {
        "none"@
    };
    Seq::<(Seq<char>, Seq<char>)>::empty().push(("title"@, f.title@)).push(
        ("observed_title"@, f.title@),
    ).push(("expected_document_title"@, or_empty(expected))).push(("failure_kind"@, kind))
}

/// The outcome of the title audit.
pub open spec fn title_outcome(f: A11yVerifierFacts, expected: Option<String>) -> Outcome {
    machine(
        passed(title_passes(f, expected)),
        if is_blank(f.title@) {
            "Document title is missing or empty."@
        } else if differs(expected, f.title@) {
            filled(
                "Document title is present in the emitted DOM, but engine metadata persistence mismatched (observed DOM="@,
                f.title@,
                ", expected metadata="@,
                or_empty(expected),
                ")."@,
            )
        } else {
            "Document title is present and non-empty."@
        },
        seq![
            PmrEvidenceView {
                selector: Some("head > title"@),
                diagnostic_ref: None,
                values: title_audit_values(f, expected),
            },
        ],
    )
}

fn audit_title(
    audits: &mut Vec<PmrCoreAudit>,
    c: &PmrContract,
    f: &A11yVerifierFacts,
    expected: &Option<String>,
) -> (ok: bool)
    requires
        defines(*c, "pmr.doc.title_present_nonempty"@),
    ensures
        ok == title_passes(*f, *expected),
        audit_views(final(audits)@) == audit_views(old(audits)@).push(
            audited(*c, "pmr.doc.title_present_nonempty"@, title_outcome(*f, *expected)),
        ),
{
    let (ok, kind, message) = if blank(&f.title) {
        (false, "missing", "Document title is missing or empty.".to_owned())
    } else if differs_from(expected, &f.title) {
        (
            false,
            "metadata_mismatch",
            fill(
                "Document title is present in the emitted DOM, but engine metadata persistence mismatched (observed DOM=",
                &f.title,
                ", expected metadata=",
                &text_or_empty(expected),
                ").",
            ),
        )
    } else {
        (true, "none", "Document title is present and non-empty.".to_owned())
    };
    let mut values = no_values();
    push_value(&mut values, "title", f.title.clone());
    push_value(&mut values, "observed_title", f.title.clone());
    push_value(&mut values, "expected_document_title", text_or_empty(expected));
    push_value(&mut values, "failure_kind", kind.to_owned());
    pmr_push_contract_audit(
        audits,
        c,
        "pmr.doc.title_present_nonempty",
        "machine",
        pass_or_fail(ok),
        true,
        &message,
        plain_evidence(Some("head > title".to_owned()), None, values),
        None,
    );
    ok
}

/// The outcome of the metadata audit.
pub open spec fn persistence_outcome(
    f: A11yVerifierFacts,
    lang: Option<String>,
    title: Option<String>,
) -> Outcome {
    let ok = lang_passes(f, lang) && title_passes(f, title);
    if lang is None && title is None {
        unscored(
            "manual"@,
            "manual_needed"@,
            "Expected metadata not supplied; cannot verify engine persistence."@,
        )
    } else {
        machine(
            passed(ok),
            if ok {
                "Engine metadata persisted into emitted HTML."@
            } else {
                "Engine metadata persistence check failed."@
            },
            Seq::empty(),
        )
    }
}

// ---------------------------------------------------------------------------------------------
// Layout
// ---------------------------------------------------------------------------------------------
/// The overflow events of the pagination trace, where there is one.
pub open spec fn trace_overflow(ctx: PmrCoreContext) -> Option<i64> {
    match ctx.pagination_summary {
        Some(s) => s.overflow_event_count,
        None => None,
    }
}

/// The pages of the pagination trace, where there is one.
pub open spec fn trace_pages(ctx: PmrCoreContext) -> Option<i64> {
    match ctx.pagination_summary {
        Some(s) => s.page_count,
        None => None,
    }
}

/// The first number that is there, else none.
pub open spec fn first_count(a: Option<i64>, b: Option<i64>) -> Option<i64> {
    match a {
        Some(n) => Some(n),
        None => b,
    }
}

/// The values with one more, where there is a number.
pub open spec fn with_count(
    values: Seq<(Seq<char>, Seq<char>)>,
    name: Seq<char>,
    n: Option<i64>,
) -> Seq<(Seq<char>, Seq<char>)> {
    match n {
        Some(k) => values.push((name, signed_decimal(k as int))),
        None => values,
    }
}

fn push_count(values: &mut Vec<(String, String)>, name: &str, n: Option<i64>)
    ensures
        pairs(final(values)@) == with_count(pairs(old(values)@), name@, n),
{
    match n {
        Some(k) => push_value(values, name, integer_text(k)),
        None => {},
    }
}

/// A number, or none where it is not known.
pub open spec fn or_zero(n: Option<i64>) -> int {
    match n {
        Some(k) => k as int,
        None => 0,
    }
}

/// The outcome of the overflow audit. The pagination trace is believed before the validator.
pub open spec fn overflow_outcome(ctx: PmrCoreContext) -> Outcome {
    let overflow = or_zero(first_count(trace_overflow(ctx), ctx.overflow_count));
    let none = Seq::<(Seq<char>, Seq<char>)>::empty();
    machine(
        passed(overflow == 0),
        if overflow == 0 {
            "No overflow placements detected."@
        } else {
            "Overflow placements detected ("@ + signed_decimal(overflow) + ")."@
        },
        seq![
            PmrEvidenceView {
                selector: None,
                diagnostic_ref: Some(
                    if trace_overflow(ctx) is Some {
                        "pagination_trace_summary.overflow_event_count"@
                    } else {
                        "component_validation.overflow_count"@
                    },
                ),
                values: with_count(
                    with_count(
                        none.push(("overflow_count"@, signed_decimal(overflow))),
                        "pagination_overflow_event_count"@,
                        trace_overflow(ctx),
                    ),
                    "component_validation_overflow_count"@,
                    ctx.overflow_count,
                ),
            },
        ],
    )
}

fn trace_overflow_of(ctx: &PmrCoreContext) -> (r: Option<i64>)
    ensures
        r == trace_overflow(*ctx),
{
    match &ctx.pagination_summary {
        Some(s) => s.overflow_event_count,
        None => None,
    }
}

fn trace_pages_of(ctx: &PmrCoreContext) -> (r: Option<i64>)
    ensures
        r == trace_pages(*ctx),
{
    match &ctx.pagination_summary {
        Some(s) => s.page_count,
        None => None,
    }
}

fn audit_overflow(audits: &mut Vec<PmrCoreAudit>, c: &PmrContract, ctx: &PmrCoreContext)
    requires
        defines(*c, "pmr.layout.overflow_none"@),
    ensures
        audit_views(final(audits)@) == audit_views(old(audits)@).push(
            audited(*c, "pmr.layout.overflow_none"@, overflow_outcome(*ctx)),
        ),
{
    let traced = trace_overflow_of(ctx);
    let overflow: i64 = match traced {
        Some(n) => n,
        None => match ctx.overflow_count {
            Some(n) => n,
            None => 0,
        },
    };
    let message = if overflow == 0 {
        "No overflow placements detected.".to_owned()
    } else {
        concat(&concat("Overflow placements detected (", &integer_text(overflow)), ").")
    };
    let source = if traced.is_some() {
        "pagination_trace_summary.overflow_event_count"
    } else {
        "component_validation.overflow_count"
    };
    let mut values = no_values();
    push_value(&mut values, "overflow_count", integer_text(overflow));
    push_count(&mut values, "pagination_overflow_event_count", traced);
    push_count(&mut values, "component_validation_overflow_count", ctx.overflow_count);
    pmr_push_contract_audit(
        audits,
        c,
        "pmr.layout.overflow_none",
        "machine",
        pass_or_fail(overflow == 0),
        true,
        &message,
        plain_evidence(None, Some(source.to_owned()), values),
        None,
    );
}

/// The outcome of the known-loss audit.
pub open spec fn loss_outcome(ctx: PmrCoreContext) -> Outcome {
    let loss = or_zero(ctx.known_loss_count);
    machine(
        passed(loss == 0),
        if loss == 0 {
            "No critical known-loss events detected."@
        } else {
            "Known-loss events detected ("@ + signed_decimal(loss) + ")."@
        },
        seq![
            PmrEvidenceView {
                selector: None,
                diagnostic_ref: Some("component_validation.known_loss_count"@),
                values: Seq::<(Seq<char>, Seq<char>)>::empty().push(
                    ("known_loss_count"@, signed_decimal(loss)),
                ),
            },
        ],
    )
}

fn audit_loss(audits: &mut Vec<PmrCoreAudit>, c: &PmrContract, ctx: &PmrCoreContext)
    requires
        defines(*c, "pmr.layout.known_loss_none_critical"@),
    ensures
        audit_views(final(audits)@) == audit_views(old(audits)@).push(
            audited(*c, "pmr.layout.known_loss_none_critical"@, loss_outcome(*ctx)),
        ),
{
    let loss: i64 = match ctx.known_loss_count {
        Some(n) => n,
        None => 0,
    };
    let message = if loss == 0 {
        "No critical known-loss events detected.".to_owned()
    } else {
        concat(&concat("Known-loss events detected (", &integer_text(loss)), ").")
    };
    let mut values = no_values();
    push_value(&mut values, "known_loss_count", integer_text(loss));
    pmr_push_contract_audit(
        audits,
        c,
        "pmr.layout.known_loss_none_critical",
        "machine",
        pass_or_fail(loss == 0),
        true,
        &message,
        plain_evidence(None, Some("component_validation.known_loss_count".to_owned()), values),
        None,
    );
}

/// The outcome of the page-count audit. The pagination trace is believed before the renderer.
pub open spec fn pages_outcome(ctx: PmrCoreContext) -> Outcome {
    let rendered = first_count(trace_pages(ctx), ctx.render_page_count);
    match (ctx.source_page_count, rendered) {
        (Some(src), Some(rnd)) => {
            let none = Seq::<(Seq<char>, Seq<char>)>::empty();
            machine(
                passed(src == rnd),
                if src == rnd {
                    "Page-count target satisfied."@
                } else {
                    filled(
                        "Page-count parity mismatch (source="@,
                        signed_decimal(src as int),
                        ", render="@,
                        signed_decimal(rnd as int),
                        ")."@,
                    )
                },
                seq![
                    PmrEvidenceView {
                        selector: None,
                        diagnostic_ref: if trace_pages(ctx) is Some {
                            Some("pagination_trace_summary.page_count"@)
                        } else {
                            None
                        },
                        values: with_count(
                            with_count(
                                none.push(("source_page_count"@, signed_decimal(src as int))).push(
                                    ("render_page_count"@, signed_decimal(rnd as int)),
                                ),
                                "pagination_trace_page_count"@,
                                trace_pages(ctx),
                            ),
                            "runtime_render_page_count"@,
                            ctx.render_page_count,
                        ),
                    },
                ],
            )
        },
        _ => unscored(
            "manual"@,
            "manual_needed"@,
            "Page-count target could not be evaluated."@,
        ),
    }
}

fn audit_pages(audits: &mut Vec<PmrCoreAudit>, c: &PmrContract, ctx: &PmrCoreContext)
    requires
        defines(*c, "pmr.layout.page_count_target"@),
    ensures
        audit_views(final(audits)@) == audit_views(old(audits)@).push(
            audited(*c, "pmr.layout.page_count_target"@, pages_outcome(*ctx)),
        ),
{
    let traced = trace_pages_of(ctx);
    let rendered: Option<i64> = match traced {
        Some(n) => Some(n),
        None => ctx.render_page_count,
    };
    match (ctx.source_page_count, rendered) {
        (Some(src), Some(rnd)) => {
            let ok = src == rnd;
            let message = if ok {
                "Page-count target satisfied.".to_owned()
            } else {
                fill(
                    "Page-count parity mismatch (source=",
                    &integer_text(src),
                    ", render=",
                    &integer_text(rnd),
                    ").",
                )
            };
            let source = if traced.is_some() {
                Some("pagination_trace_summary.page_count".to_owned())
            } else {
                None
            };
            let mut values = no_values();
            push_value(&mut values, "source_page_count", integer_text(src));
            push_value(&mut values, "render_page_count", integer_text(rnd));
            push_count(&mut values, "pagination_trace_page_count", traced);
            push_count(&mut values, "runtime_render_page_count", ctx.render_page_count);
            pmr_push_contract_audit(
                audits,
                c,
                "pmr.layout.page_count_target",
                "machine",
                pass_or_fail(ok),
                true,
                &message,
                plain_evidence(None, source, values),
                None,
            );
        },
        _ => {
            pmr_push_contract_audit(
                audits,
                c,
                "pmr.layout.page_count_target",
                "manual",
                "manual_needed",
                false,
                "Page-count target could not be evaluated.",
                no_evidence(),
                None,
            );
        },
    }
}

// ---------------------------------------------------------------------------------------------
// Content
// ---------------------------------------------------------------------------------------------
/// The outcome of the id audit.
pub open spec fn ids_outcome(f: A11yVerifierFacts) -> Outcome {
    let ok = f.duplicate_ids@.len() == 0 && f.missing_idrefs@.len() == 0;
    machine(
        passed(ok),
        if ok {
            "ID and IDREF integrity checks passed."@
        } else {
            "Duplicate IDs or missing IDREF targets detected."@
        },
        values_only(
            Seq::<(Seq<char>, Seq<char>)>::empty().push(
                ("duplicate_id_count"@, decimal(f.duplicate_ids@.len())),
            ).push(("missing_idref_count"@, decimal(f.missing_idrefs@.len()))),
        ),
    )
}

fn audit_ids(audits: &mut Vec<PmrCoreAudit>, c: &PmrContract, f: &A11yVerifierFacts)
    requires
        defines(*c, "pmr.forms.id_ref_integrity"@),
    ensures
        audit_views(final(audits)@) == audit_views(old(audits)@).push(
            audited(*c, "pmr.forms.id_ref_integrity"@, ids_outcome(*f)),
        ),
{
    let ok = f.duplicate_ids.len() == 0 && f.missing_idrefs.len() == 0;
    let mut values = no_values();
    push_value(&mut values, "duplicate_id_count", count_text(f.duplicate_ids.len()));
    push_value(&mut values, "missing_idref_count", count_text(f.missing_idrefs.len()));
    pmr_push_contract_audit(
        audits,
        c,
        "pmr.forms.id_ref_integrity",
        "machine",
        pass_or_fail(ok),
        true,
        if ok {
            "ID and IDREF integrity checks passed."
        } else {
            "Duplicate IDs or missing IDREF targets detected."
        },
        plain_evidence(None, None, values),
        None,
    );
}

/// A boolean as a word.
pub open spec fn bool_word(b: bool) -> Seq<char> {
    if b {
        "true"@
    } else {
        "false"@
    }
}

fn bool_text(b: bool) -> (r: String)
    ensures
        r@ == bool_word(b),
{
    if b {
        "true".to_owned()
    } else {
        "false".to_owned()
    }
}

/// The evidence on one table.
pub open spec fn table_evidence(i: nat, t: HtmlTableFacts) -> PmrEvidenceView {
    PmrEvidenceView {
        selector: None,
        diagnostic_ref: None,
        values: Seq::<(Seq<char>, Seq<char>)>::empty().push(("table_index"@, decimal(i))).push(
            ("has_caption"@, bool_word(t.has_caption)),
        ).push(("th_count"@, decimal(t.th_count as nat))).push(
            ("th_scope_count"@, decimal(t.th_scope_count as nat)),
        ),
    }
}

/// The evidence on the tables with header cells among the first `n`.
pub open spec fn tables_evidence(tables: Seq<HtmlTableFacts>, n: int) -> Seq<PmrEvidenceView>
    decreases n,
{
    if n <= 0 {
        Seq::empty()
    } else if tables[n - 1].th_count > 0 {
        tables_evidence(tables, n - 1).push(table_evidence((n - 1) as nat, tables[n - 1]))
    } else {
        tables_evidence(tables, n - 1)
    }
}

/// A table with header cells says what they head, by a caption or by their scope.
pub open spec fn table_is_headed(t: HtmlTableFacts) -> bool {
    t.th_count > 0 ==> t.has_caption || t.th_scope_count > 0
}

/// The outcome of the table audit.
pub open spec fn tables_outcome(f: A11yVerifierFacts) -> Outcome {
    let tables = f.tables@;
    let ok = forall|i: int| 0 <= i < tables.len() ==> table_is_headed(#[trigger] tables[i]);
    let found = tables_evidence(tables, tables.len() as int);
    if tables.len() == 0 {
        unscored("machine"@, "not_applicable"@, "No table elements detected."@)
    } else {
        machine(
            passed(ok),
            if ok {
                "Semantic table header checks passed."@
            } else {
                "Semantic table header checks failed."@
            },
            if found.len() == 0 {
                values_only(
                    Seq::<(Seq<char>, Seq<char>)>::empty().push(
                        ("table_count"@, decimal(tables.len())),
                    ),
                )
            } else {
                found
            },
        )
    }
}

fn audit_tables(audits: &mut Vec<PmrCoreAudit>, c: &PmrContract, f: &A11yVerifierFacts)
    requires
        defines(*c, "pmr.tables.semantic_table_headers"@),
    ensures
        audit_views(final(audits)@) == audit_views(old(audits)@).push(
            audited(*c, "pmr.tables.semantic_table_headers"@, tables_outcome(*f)),
        ),
{
    if f.tables.len() == 0 {
        pmr_push_contract_audit(
            audits,
            c,
            "pmr.tables.semantic_table_headers",
            "machine",
            "not_applicable",
            false,
            "No table elements detected.",
            no_evidence(),
            None,
        );
        return;
    }
    let mut ok = true;
    let mut evidence = no_evidence();
    let mut i: usize = 0;
    while i < f.tables.len()
        invariant
            i <= f.tables@.len(),
            ok == (forall|k: int| 0 <= k < i ==> table_is_headed(#[trigger] f.tables@[k])),
            pmr_evidence(evidence@) == tables_evidence(f.tables@, i as int),
        decreases f.tables@.len() - i,
    {
        let t = &f.tables[i];
        if t.th_count > 0 {
            if !(t.has_caption || t.th_scope_count > 0) {
                proof {
                    assert(!table_is_headed(f.tables@[i as int]));
                }
                ok = false;
            }
            let mut values = no_values();
            push_value(&mut values, "table_index", count_text(i));
            push_value(&mut values, "has_caption", bool_text(t.has_caption));
            push_value(&mut values, "th_count", count_text(t.th_count));
            push_value(&mut values, "th_scope_count", count_text(t.th_scope_count));
            let ghost before = pmr_evidence(evidence@);
            let item = PmrCoreEvidence { selector: None, diagnostic_ref: None, values };
            let ghost view = item@;
            evidence.push(item);
            proof {
                assert(view == table_evidence(i as nat, f.tables@[i as int]));
                assert(pmr_evidence(evidence@) =~= before.push(view));
            }
        }
        i += 1;
    }
    proof {
        assert(pmr_evidence(evidence@).len() == evidence@.len());
    }
    if evidence.len() == 0 {
        let mut values = no_values();
        push_value(&mut values, "table_count", count_text(f.tables.len()));
        evidence = plain_evidence(None, None, values);
    }
    pmr_push_contract_audit(
        audits,
        c,
        "pmr.tables.semantic_table_headers",
        "machine",
        pass_or_fail(ok),
        true,
        if ok {
            "Semantic table header checks passed."
        } else {
            "Semantic table header checks failed."
        },
        evidence,
        None,
    );
}

/// The outcome of the signature audit.
pub open spec fn signature_outcome(f: A11yVerifierFacts, profile: Seq<char>) -> Outcome {
    let ok = f.signature_semantic_count > 0;
    let cue = speaks_of_signatures(f.body_text@);
    if lower(profile) == "cav"@ || lower(profile) == "transactional"@ {
        Outcome {
            mode: "machine"@,
            verdict: if ok {
                "pass"@
            } else if !cue {
                "not_applicable"@
            } else {
                "fail"@
            },
            scored: ok || cue,
            message: if ok {
                "Text signature semantics detected."@
            } else if !cue {
                "No signature-bearing content cues detected; signature semantics check not applicable."@
            } else {
                "No text signature semantics detected."@
            },
            evidence: values_only(
                Seq::<(Seq<char>, Seq<char>)>::empty().push(
                    ("signature_semantic_count"@, decimal(f.signature_semantic_count as nat)),
                ).push(("signature_cue_text_present"@, bool_word(cue))),
            ),
            fix_hint: None,
        }
    } else {
        unscored("machine"@, "not_applicable"@, "Not applicable for this profile."@)
    }
}

fn audit_signatures(
    audits: &mut Vec<PmrCoreAudit>,
    c: &PmrContract,
    f: &A11yVerifierFacts,
    profile: &str,
)
    requires
        defines(*c, "pmr.signatures.text_semantics_present"@),
    ensures
        audit_views(final(audits)@) == audit_views(old(audits)@).push(
            audited(
                *c,
                "pmr.signatures.text_semantics_present"@,
                signature_outcome(*f, profile@),
            ),
        ),
{
    let low = lowered(profile);
    if same(&low, "cav") || same(&low, "transactional") {
        let text = lowered(&f.body_text);
        let cue = contains_text(&text, "signature") || contains_text(&text, "signed");
        let ok = f.signature_semantic_count > 0;
        let mut values = no_values();
        push_value(
            &mut values,
            "signature_semantic_count",
            count_text(f.signature_semantic_count),
        );
        push_value(&mut values, "signature_cue_text_present", bool_text(cue));
        pmr_push_contract_audit(
            audits,
            c,
            "pmr.signatures.text_semantics_present",
            "machine",
            if ok {
                "pass"
            } else if !cue {
                "not_applicable"
            } else {
                "fail"
            },
            ok || cue,
            if ok {
                "Text signature semantics detected."
            } else if !cue {
                "No signature-bearing content cues detected; signature semantics check not applicable."
            } else {
                "No text signature semantics detected."
            },
            plain_evidence(None, None, values),
            None,
        );
    } else {
        pmr_push_contract_audit(
            audits,
            c,
            "pmr.signatures.text_semantics_present",
            "machine",
            "not_applicable",
            false,
            "Not applicable for this profile.",
            no_evidence(),
            None,
        );
    }
}

/// The outcome of the document-only audit.
pub open spec fn content_outcome(f: A11yVerifierFacts, profile: Seq<char>) -> Outcome {
    let hits = phrase_hits(lower(f.body_text@), note_phrases());
    if lower(profile) == "cav"@ {
        machine(
            passed(hits.len() == 0),
            if hits.len() == 0 {
                "CAV deliverable body contains document-only content."@
            } else {
                "Potential remediation/provenance note leakage detected in CAV deliverable body."@
            },
            if hits.len() == 0 {
                Seq::empty()
            } else {
                values_only(
                    Seq::<(Seq<char>, Seq<char>)>::empty().push(("hits"@, join(hits, ", "@))),
                )
            },
        )
    } else {
        unscored("machine"@, "not_applicable"@, "Not a CAV profile."@)
    }
}

fn audit_content(
    audits: &mut Vec<PmrCoreAudit>,
    c: &PmrContract,
    f: &A11yVerifierFacts,
    profile: &str,
)
    requires
        defines(*c, "pmr.cav.document_only_content"@),
    ensures
        audit_views(final(audits)@) == audit_views(old(audits)@).push(
            audited(*c, "pmr.cav.document_only_content"@, content_outcome(*f, profile@)),
        ),
{
    let low = lowered(profile);
    if same(&low, "cav") {
        let hits = pmr_note_hits(&f.body_text);
        proof {
            assert(texts(hits@).len() == hits@.len());
        }
        let clean = hits.len() == 0;
        let evidence = if clean {
            no_evidence()
        } else {
            let mut values = no_values();
            push_value(&mut values, "hits", join_strings(&hits, ", "));
            plain_evidence(None, None, values)
        };
        pmr_push_contract_audit(
            audits,
            c,
            "pmr.cav.document_only_content",
            "machine",
            pass_or_fail(clean),
            true,
            if clean {
                "CAV deliverable body contains document-only content."
            } else {
                "Potential remediation/provenance note leakage detected in CAV deliverable body."
            },
            evidence,
            None,
        );
    } else {
        pmr_push_contract_audit(
            audits,
            c,
            "pmr.cav.document_only_content",
            "machine",
            "not_applicable",
            false,
            "Not a CAV profile.",
            no_evidence(),
            None,
        );
    }
}

// ---------------------------------------------------------------------------------------------
// Artifacts
// ---------------------------------------------------------------------------------------------
/// Whether an artifact holds anything: its size is believed where it is known.
pub open spec fn is_emitted(bytes: Option<u64>, otherwise: bool) -> bool {
    match bytes {
        Some(n) => n > 0,
        None => otherwise,
    }
}

/// The outcome of an artifact audit.
pub open spec fn artifact_outcome(ok: bool, good: Seq<char>, bad: Seq<char>) -> Outcome {
    machine(
        passed(ok),
        if ok {
            good
        } else {
            bad
        },
        Seq::empty(),
    )
}

/// The outcome of the linked-style-sheet audit.
pub open spec fn linked_outcome(f: A11yVerifierFacts) -> Outcome {
    Outcome {
        mode: "machine"@,
        verdict: if f.has_css_link {
            "pass"@
        } else {
            "warn"@
        },
        scored: false,
        message: if f.has_css_link {
            "HTML artifact includes linked CSS reference."@
        } else {
            "HTML artifact does not include linked CSS reference (separate artifact mode)."@
        },
        evidence: seq![
            PmrEvidenceView {
                selector: Some("link[rel~=stylesheet]"@),
                diagnostic_ref: None,
                values: Seq::<(Seq<char>, Seq<char>)>::empty().push(
                    ("hrefs"@, join(texts(f.css_link_hrefs@), ", "@)),
                ),
            },
        ],
        fix_hint: if f.has_css_link {
            None
        } else {
            Some("Enable CSS link injection packaging mode for standalone HTML artifacts."@)
        },
    }
}

fn audit_linked(audits: &mut Vec<PmrCoreAudit>, c: &PmrContract, f: &A11yVerifierFacts)
    requires
        defines(*c, "pmr.artifacts.linked_css_reference"@),
    ensures
        audit_views(final(audits)@) == audit_views(old(audits)@).push(
            audited(*c, "pmr.artifacts.linked_css_reference"@, linked_outcome(*f)),
        ),
{
    let mut values = no_values();
    push_value(&mut values, "hrefs", join_strings(&f.css_link_hrefs, ", "));
    let hint = if f.has_css_link {
        None
    } else {
        Some("Enable CSS link injection packaging mode for standalone HTML artifacts.".to_owned())
    };
    pmr_push_contract_audit(
        audits,
        c,
        "pmr.artifacts.linked_css_reference",
        "machine",
        if f.has_css_link {
            "pass"
        } else {
            "warn"
        },
        false,
        if f.has_css_link {
            "HTML artifact includes linked CSS reference."
        } else {
            "HTML artifact does not include linked CSS reference (separate artifact mode)."
        },
        plain_evidence(Some("link[rel~=stylesheet]".to_owned()), None, values),
        hint,
    );
}

// ---------------------------------------------------------------------------------------------
// All audits
// ---------------------------------------------------------------------------------------------
/// What the audits are asked: the expected metadata, the profile, and whether there is any HTML.
pub struct PmrQuestion {
    pub expected_lang: Option<String>,
    pub expected_title: Option<String>,
    pub profile: String,
    pub html_is_empty: bool,
}

/// The table defines every audit.
pub open spec fn is_complete(c: PmrContract) -> bool {
    &&& defines(c, "pmr.doc.lang_present_valid"@)
    &&& defines(c, "pmr.doc.title_present_nonempty"@)
    &&& defines(c, "pmr.doc.metadata_engine_persistence"@)
    &&& defines(c, "pmr.layout.overflow_none"@)
    &&& defines(c, "pmr.layout.known_loss_none_critical"@)
    &&& defines(c, "pmr.layout.page_count_target"@)
    &&& defines(c, "pmr.forms.id_ref_integrity"@)
    &&& defines(c, "pmr.tables.semantic_table_headers"@)
    &&& defines(c, "pmr.signatures.text_semantics_present"@)
    &&& defines(c, "pmr.cav.document_only_content"@)
    &&& defines(c, "pmr.artifacts.html_emitted"@)
    &&& defines(c, "pmr.artifacts.css_emitted"@)
    &&& defines(c, "pmr.artifacts.linked_css_reference"@)
}

fn has_def(c: &PmrContract, id: &str) -> (r: bool)
    ensures
        r == defines(*c, id@),
{
    proof {
        def_index_in_range(c.audits@, id@);
    }
    let mut i: usize = 0;
    while i < c.audits.len()
        invariant
            i <= c.audits@.len(),
            forall|k: int| 0 <= k < i ==> (#[trigger] c.audits@[k]).id@ != id@,
            match def_index(c.audits@, id@) {
                Some(k) => 0 <= k < c.audits@.len() && c.audits@[k].id@ == id@,
                None => forall|k: int|
                    0 <= k < c.audits@.len() ==> (#[trigger] c.audits@[k]).id@ != id@,
            },
        decreases c.audits@.len() - i,
    {
        if same(&c.audits[i].id, id) {
            return true;
        }
        i += 1;
    }
    false
}

/// Tells whether the table defines every audit.
pub fn defines_all(c: &PmrContract) -> (r: bool)
    ensures
        r == is_complete(*c),
{
    has_def(c, "pmr.doc.lang_present_valid") && has_def(c, "pmr.doc.title_present_nonempty")
        && has_def(c, "pmr.doc.metadata_engine_persistence") && has_def(
        c,
        "pmr.layout.overflow_none",
    ) && has_def(c, "pmr.layout.known_loss_none_critical") && has_def(
        c,
        "pmr.layout.page_count_target",
    ) && has_def(c, "pmr.forms.id_ref_integrity") && has_def(
        c,
        "pmr.tables.semantic_table_headers",
    ) && has_def(c, "pmr.signatures.text_semantics_present") && has_def(
        c,
        "pmr.cav.document_only_content",
    ) && has_def(c, "pmr.artifacts.html_emitted") && has_def(c, "pmr.artifacts.css_emitted")
        && has_def(c, "pmr.artifacts.linked_css_reference")
}

/// All audits, in the order in which they are reported.
pub open spec fn core_audits(
    c: PmrContract,
    f: A11yVerifierFacts,
    q: PmrQuestion,
    ctx: PmrCoreContext,
) -> Seq<AuditView> {
    seq![
        audited(c, "pmr.doc.lang_present_valid"@, lang_outcome(f, q.expected_lang)),
        audited(c, "pmr.doc.title_present_nonempty"@, title_outcome(f, q.expected_title)),
        audited(
            c,
            "pmr.doc.metadata_engine_persistence"@,
            persistence_outcome(f, q.expected_lang, q.expected_title),
        ),
        audited(c, "pmr.layout.overflow_none"@, overflow_outcome(ctx)),
        audited(c, "pmr.layout.known_loss_none_critical"@, loss_outcome(ctx)),
        audited(c, "pmr.layout.page_count_target"@, pages_outcome(ctx)),
        audited(c, "pmr.forms.id_ref_integrity"@, ids_outcome(f)),
        audited(c, "pmr.tables.semantic_table_headers"@, tables_outcome(f)),
        audited(
            c,
            "pmr.signatures.text_semantics_present"@,
            signature_outcome(f, q.profile@),
        ),
        audited(c, "pmr.cav.document_only_content"@, content_outcome(f, q.profile@)),
        audited(
            c,
            "pmr.artifacts.html_emitted"@,
            artifact_outcome(
                is_emitted(ctx.html_artifact_bytes, !q.html_is_empty),
                "HTML artifact emitted."@,
                "HTML artifact missing or empty."@,
            ),
        ),
        audited(
            c,
            "pmr.artifacts.css_emitted"@,
            artifact_outcome(
                is_emitted(ctx.css_artifact_bytes, true),
                "CSS artifact emitted."@,
                "CSS artifact missing or empty."@,
            ),
        ),
        audited(c, "pmr.artifacts.linked_css_reference"@, linked_outcome(f)),
    ]
}

/// Runs every audit.
pub fn run_audits(
    c: &PmrContract,
    f: &A11yVerifierFacts,
    q: &PmrQuestion,
    ctx: &PmrCoreContext,
) -> (audits: Vec<PmrCoreAudit>)
    requires
        is_complete(*c),
    ensures
        audit_views(audits@) == core_audits(*c, *f, *q, *ctx),
{
    let mut audits: Vec<PmrCoreAudit> = Vec::new();
    proof {
        assert(audit_views(audits@) =~= Seq::empty());
    }
    let lang_ok = audit_lang(&mut audits, c, f, &q.expected_lang);
    let title_ok = audit_title(&mut audits, c, f, &q.expected_title);
    if q.expected_lang.is_none() && q.expected_title.is_none() {
        pmr_push_contract_audit(
            &mut audits,
            c,
            "pmr.doc.metadata_engine_persistence",
            "manual",
            "manual_needed",
            false,
            "Expected metadata not supplied; cannot verify engine persistence.",
            no_evidence(),
            None,
        );
    } else {
        let ok = lang_ok && title_ok;
        pmr_push_contract_audit(
            &mut audits,
            c,
            "pmr.doc.metadata_engine_persistence",
            "machine",
            pass_or_fail(ok),
            true,
            if ok {
                "Engine metadata persisted into emitted HTML."
            } else {
                "Engine metadata persistence check failed."
            },
            no_evidence(),
            None,
        );
    }
    audit_overflow(&mut audits, c, ctx);
    audit_loss(&mut audits, c, ctx);
    audit_pages(&mut audits, c, ctx);
    audit_ids(&mut audits, c, f);
    audit_tables(&mut audits, c, f);
    audit_signatures(&mut audits, c, f, &q.profile);
    audit_content(&mut audits, c, f, &q.profile);
    let html_ok = match ctx.html_artifact_bytes {
        Some(n) => n > 0,
        None => !q.html_is_empty,
    };
    pmr_push_contract_audit(
        &mut audits,
        c,
        "pmr.artifacts.html_emitted",
        "machine",
        pass_or_fail(html_ok),
        true,
        if html_ok {
            "HTML artifact emitted."
        } else {
            "HTML artifact missing or empty."
        },
        no_evidence(),
        None,
    );
    let css_ok = match ctx.css_artifact_bytes {
        Some(n) => n > 0,
        None => true,
    };
    pmr_push_contract_audit(
        &mut audits,
        c,
        "pmr.artifacts.css_emitted",
        "machine",
        pass_or_fail(css_ok),
        true,
        if css_ok {
            "CSS artifact emitted."
        } else {
            "CSS artifact missing or empty."
        },
        no_evidence(),
        None,
    );
    audit_linked(&mut audits, c, f);
    proof {
        assert(audit_views(audits@) =~= core_audits(*c, *f, *q, *ctx));
    }
    audits
}

} // verus!

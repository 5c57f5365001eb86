//! What the audits of a document rest on.
//!
//! Every audit has its place in the report, and its verdict is tied to the nodes of the document and
//! to what was counted while it was laid out.
use vstd::prelude::*;

use crate::contents::{
    is_broken_reference, is_shared_id, missing_references_are_broken, repeated_ids_are_shared,
};
use crate::counts::{is_lang_tag, is_signature, is_signature_count};
use crate::dom::{attr, count_tag, count_tag_with, first_tag, has_tag, HtmlNode};
use crate::facts::{
    css_href, css_hrefs, facts_of, pairs, table_facts, table_rows, tables, A11yVerifierFacts,
};
use crate::findings::note_phrases;
use crate::pmr::{
    artifact_outcome, audited, content_outcome, core_audits, def_index_in_range, def_of, defines,
    ids_outcome, is_complete, is_emitted, lang_outcome, lang_passes, linked_outcome, loss_outcome,
    overflow_outcome, pages_outcome, persistence_outcome, signature_outcome, table_is_headed,
    tables_outcome, title_outcome, title_passes, AuditView, Outcome, PmrContract, PmrCoreContext,
    PmrQuestion,
};
use crate::signals::lang_exact_valid;
use crate::text::{contains, is_alphanumeric, is_blank, lower, texts, words};
use crate::verdicts::{
    body_text_is_one, first_is_one, hits_above_nought, is_body_text, is_first_element,
    is_other_than, is_title, says_lang, verdicts_differ,
};

verus! {

broadcast use vstd::string::group_string_axioms;

// ---------------------------------------------------------------------------------------------
// Single audits
// ---------------------------------------------------------------------------------------------
/// The audit has this name and this verdict. One that counts scores two halves where it passes, one
/// where it warns and none where it fails; its place in the table gives the rest.
pub open spec fn has_verdict(
    c: PmrContract,
    a: AuditView,
    id: Seq<char>,
    verdict: Seq<char>,
    scored: bool,
) -> bool {
    &&& a.audit_id == id
    &&& a.category == def_of(c, id).category@
    &&& a.weight == def_of(c, id).weight
    &&& a.severity == def_of(c, id).severity@
    &&& a.verdict == verdict
    &&& a.scored == scored
    &&& !scored ==> a.score is None
    &&& scored && verdict == "pass"@ ==> a.score == Some(2nat)
    &&& scored && verdict == "warn"@ ==> a.score == Some(1nat)
    &&& scored && verdict == "fail"@ ==> a.score == Some(0nat)
}

proof fn audited_has_verdict(c: PmrContract, id: Seq<char>, o: Outcome)
    requires
        defines(c, id),
    ensures
        has_verdict(c, audited(c, id, o), id, o.verdict, o.scored),
{
    verdicts_differ();
    def_index_in_range(c.audits@, id);
}

/// The audit passes if the condition holds, fails if it does not, and counts either way.
pub open spec fn passes_if(c: PmrContract, a: AuditView, id: Seq<char>, ok: bool) -> bool {
    &&& ok ==> has_verdict(c, a, id, "pass"@, true)
    &&& !ok ==> has_verdict(c, a, id, "fail"@, true)
}

proof fn lang_passes_if(d: Seq<HtmlNode>, f: A11yVerifierFacts, expected: Option<String>)
    requires
        facts_of(d, f),
    ensures
        lang_passes(f, expected) <==> exists|lang: Seq<char>| #[trigger]
            says_lang(d, lang) && is_lang_tag(lang) && !is_other_than(expected, lang),
{
    first_is_one(d, "html"@);
    assert forall|lang: Seq<char>| #[trigger] says_lang(d, lang) implies (f.html_lang matches Some(
        v,
    ) && v@ == lang) && lang_exact_valid(lang) == is_lang_tag(lang) by {
        assert(!is_alphanumeric('-'));
        if lang.len() > 0 && lang_exact_valid(lang) {
            assert(is_alphanumeric(lang[0]) || lang[0] == '-');
            assert(is_alphanumeric(lang[lang.len() - 1]) || lang[lang.len() - 1] == '-');
        }
    }
    match f.html_lang {
        Some(v) => {
            let i = first_tag(d, 0, "html"@)->0;
            assert(is_first_element(d, i, "html"@));
            assert(says_lang(d, v@));
        },
        None => {},
    }
}

proof fn title_passes_if(
    d: Seq<HtmlNode>,
    f: A11yVerifierFacts,
    expected: Option<String>,
    title: Seq<char>,
)
    requires
        facts_of(d, f),
        is_title(d, title),
    ensures
        title_passes(f, expected) <==> !is_blank(title) && !is_other_than(expected, title),
{
    first_is_one(d, "title"@);
    match first_tag(d, 0, "title"@) {
        Some(i) => {
            assert(is_first_element(d, i, "title"@));
        },
        None => {
            assert(title =~= Seq::empty());
        },
    }
}

/// The audits of metadata: the language and the title of the document must be there, and be those
/// that were asked for. Where neither was asked for, a person has to look.
pub proof fn metadata_audits_are_right(
    c: PmrContract,
    d: Seq<HtmlNode>,
    f: A11yVerifierFacts,
    q: PmrQuestion,
    ctx: PmrCoreContext,
    title: Seq<char>,
)
    requires
        is_complete(c),
        facts_of(d, f),
        is_title(d, title),
    ensures
        ({
            let r = core_audits(c, f, q, ctx);
            let lang_right = exists|lang: Seq<char>| #[trigger]
                says_lang(d, lang) && is_lang_tag(lang) && !is_other_than(q.expected_lang, lang);
            let title_right = !is_blank(title) && !is_other_than(q.expected_title, title);
            let asked = q.expected_lang is Some || q.expected_title is Some;
            &&& passes_if(c, r[0], "pmr.doc.lang_present_valid"@, lang_right)
            &&& passes_if(c, r[1], "pmr.doc.title_present_nonempty"@, title_right)
            &&& asked ==> passes_if(
                c,
                r[2],
                "pmr.doc.metadata_engine_persistence"@,
                lang_right && title_right,
            )
            &&& !asked ==> has_verdict(
                c,
                r[2],
                "pmr.doc.metadata_engine_persistence"@,
                "manual_needed"@,
                false,
            )
        }),
{
    lang_passes_if(d, f, q.expected_lang);
    title_passes_if(d, f, q.expected_title, title);
    audited_has_verdict(c, "pmr.doc.lang_present_valid"@, lang_outcome(f, q.expected_lang));
    audited_has_verdict(c, "pmr.doc.title_present_nonempty"@, title_outcome(f, q.expected_title));
    audited_has_verdict(
        c,
        "pmr.doc.metadata_engine_persistence"@,
        persistence_outcome(f, q.expected_lang, q.expected_title),
    );
}

/// The overflow that counts: that of the pagination trace where it is known, else that of the
/// validator, else none.
pub open spec fn is_overflow(ctx: PmrCoreContext, n: int) -> bool {
    if ctx.pagination_summary matches Some(s) && s.overflow_event_count is Some {
        Some(n) == match (ctx.pagination_summary->0).overflow_event_count {
            Some(k) => Some(k as int),
            None => None,
        }
    } else if ctx.overflow_count is Some {
        n == ctx.overflow_count->0
    } else {
        n == 0
    }
}

/// The audits of the layout: nothing may overflow, nothing may be lost, and as many pages must come
/// out as were asked for. Where one of these numbers of pages is not known, a person has to look.
pub proof fn layout_audits_are_right(
    c: PmrContract,
    f: A11yVerifierFacts,
    q: PmrQuestion,
    ctx: PmrCoreContext,
    overflow: int,
)
    requires
        is_complete(c),
        is_overflow(ctx, overflow),
    ensures
        ({
            let r = core_audits(c, f, q, ctx);
            let id = "pmr.layout.page_count_target"@;
            let traced = ctx.pagination_summary matches Some(s) && s.page_count is Some;
            let made = if traced {
                (ctx.pagination_summary->0).page_count
            } else {
                ctx.render_page_count
            };
            &&& passes_if(c, r[3], "pmr.layout.overflow_none"@, overflow == 0)
            &&& passes_if(
                c,
                r[4],
                "pmr.layout.known_loss_none_critical"@,
                ctx.known_loss_count is None || ctx.known_loss_count == Some(0i64),
            )
            &&& ctx.source_page_count is Some && made is Some ==> passes_if(
                c,
                r[5],
                id,
                ctx.source_page_count == made,
            )
            &&& ctx.source_page_count is None || made is None ==> has_verdict(
                c,
                r[5],
                id,
                "manual_needed"@,
                false,
            )
        }),
{
    audited_has_verdict(c, "pmr.layout.overflow_none"@, overflow_outcome(ctx));
    audited_has_verdict(c, "pmr.layout.known_loss_none_critical"@, loss_outcome(ctx));
    audited_has_verdict(c, "pmr.layout.page_count_target"@, pages_outcome(ctx));
}

// ---------------------------------------------------------------------------------------------
// Ids and tables
// ---------------------------------------------------------------------------------------------
/// The audit of ids passes if and only if no two elements share an id and every reference finds its
/// element.
pub proof fn id_audit_is_right(
    c: PmrContract,
    d: Seq<HtmlNode>,
    f: A11yVerifierFacts,
    q: PmrQuestion,
    ctx: PmrCoreContext,
)
    requires
        is_complete(c),
        facts_of(d, f),
    ensures
        passes_if(
            c,
            core_audits(c, f, q, ctx)[6],
            "pmr.forms.id_ref_integrity"@,
            (forall|x: Seq<char>| !#[trigger] is_shared_id(d, x)) && (forall|
                i: int,
                name: Seq<char>,
                word: Seq<char>,
            |
                0 <= i < d.len() ==> !#[trigger] is_broken_reference(d, i, name, word)),
        ),
{
    audited_has_verdict(c, "pmr.forms.id_ref_integrity"@, ids_outcome(f));
    repeated_ids_are_shared(d, f);
    missing_references_are_broken(d, f);
    let dups = texts(f.duplicate_ids@);
    let refs = pairs(f.missing_idrefs@);
    if dups.len() > 0 {
        assert(dups.contains(dups[0]));
        assert(is_shared_id(d, dups[0]));
    } else {
        assert forall|x: Seq<char>| !#[trigger] is_shared_id(d, x) by {
            assert(!dups.contains(x));
        }
    }
    if refs.len() > 0 {
        assert(refs.contains(refs[0]));
        let m = choose|m: int|
            0 <= m < d.len() && #[trigger] is_broken_reference(d, m, refs[0].0, refs[0].1);
        assert(is_broken_reference(d, m, refs[0].0, refs[0].1));
    } else {
        assert forall|i: int, name: Seq<char>, word: Seq<char>|
            0 <= i < d.len() implies !#[trigger] is_broken_reference(d, i, name, word) by {
            let pair = (name, word);
            assert(!refs.contains(pair));
            if is_broken_reference(d, i, name, word) {
                assert(is_broken_reference(d, i, pair.0, pair.1));
            }
        }
    }
}

/// Node `k` stands in node `i` and has this tag.
pub open spec fn has_inside(d: Seq<HtmlNode>, i: int, k: int, tag: Seq<char>) -> bool {
    i <= k < d[i].end && has_tag(d[k], tag)
}

/// A table with header cells that has no caption, and in which no header cell says what it heads.
pub open spec fn is_headless_table(d: Seq<HtmlNode>, i: int) -> bool {
    &&& has_tag(d[i], "table"@)
    &&& exists|k: int| #[trigger] has_inside(d, i, k, "th"@)
    &&& forall|k: int| !#[trigger] has_inside(d, i, k, "caption"@)
    &&& forall|k: int| #[trigger] has_inside(d, i, k, "th"@) ==> attr(d[k], "scope"@) is None
}

proof fn tags_above_nought(d: Seq<HtmlNode>, a: int, b: int, t: Seq<char>, name: Seq<char>)
    ensures
        count_tag(d, a, b, t) > 0 <==> exists|k: int| a <= k < b && has_tag(#[trigger] d[k], t),
        count_tag_with(d, a, b, t, name) > 0 <==> exists|k: int|
            a <= k < b && has_tag(#[trigger] d[k], t) && attr(d[k], name) is Some,
    decreases b - a,
{
    if b > a {
        tags_above_nought(d, a, b - 1, t, name);
        assert(d[b - 1] == d[b - 1]);
    }
}

/// What is counted in a table says that its header cells head nothing.
spec fn counts_headless(t: (bool, nat, nat)) -> bool {
    t.1 > 0 && !t.0 && t.2 == 0
}

proof fn headless_is_counted(d: Seq<HtmlNode>, i: int)
    requires
        0 <= i < d.len(),
        has_tag(d[i], "table"@),
    ensures
        counts_headless(table_facts(d, i)) == is_headless_table(d, i),
{
    let end = d[i].end as int;
    tags_above_nought(d, i, end, "caption"@, "scope"@);
    tags_above_nought(d, i, end, "th"@, "scope"@);
    if count_tag(d, i, end, "th"@) > 0 {
        let k = choose|k: int| i <= k < end && has_tag(#[trigger] d[k], "th"@);
        assert(has_inside(d, i, k, "th"@));
    }
    if count_tag(d, i, end, "caption"@) > 0 {
        let k = choose|k: int| i <= k < end && has_tag(#[trigger] d[k], "caption"@);
        assert(has_inside(d, i, k, "caption"@));
    }
    if count_tag_with(d, i, end, "th"@, "scope"@) > 0 {
        let k = choose|k: int|
            i <= k < end && has_tag(#[trigger] d[k], "th"@) && attr(d[k], "scope"@) is Some;
        assert(has_inside(d, i, k, "th"@));
    }
}

proof fn headless_tables_are_listed(d: Seq<HtmlNode>, n: int)
    requires
        0 <= n <= d.len(),
    ensures
        (exists|k: int| 0 <= k < tables(d, n).len() && counts_headless(#[trigger] tables(d, n)[k]))
            <==> exists|i: int| 0 <= i < n && #[trigger] is_headless_table(d, i),
        tables(d, n).len() > 0 <==> exists|i: int| 0 <= i < n && has_tag(#[trigger] d[i], "table"@),
    decreases n,
{
    if n > 0 {
        headless_tables_are_listed(d, n - 1);
        let before = tables(d, n - 1);
        let now = tables(d, n);
        if has_tag(d[n - 1], "table"@) {
            headless_is_counted(d, n - 1);
            assert(now[now.len() - 1] == table_facts(d, n - 1));
        }
        if exists|k: int| 0 <= k < before.len() && counts_headless(#[trigger] before[k]) {
            let k = choose|k: int| 0 <= k < before.len() && counts_headless(#[trigger] before[k]);
            assert(now[k] == before[k]);
        }
        if exists|k: int| 0 <= k < now.len() && counts_headless(#[trigger] now[k]) {
            let k = choose|k: int| 0 <= k < now.len() && counts_headless(#[trigger] now[k]);
            if k < before.len() {
                assert(before[k] == now[k]);
            }
        }
        if exists|i: int| 0 <= i < n && #[trigger] is_headless_table(d, i) {
            let i = choose|i: int| 0 <= i < n && #[trigger] is_headless_table(d, i);
            if i < n - 1 {
                assert(is_headless_table(d, i));
            }
        }
    }
}

/// The audit of tables fails if and only if a table has header cells that head nothing, and does not
/// apply if and only if there is no table.
pub proof fn table_audit_is_right(
    c: PmrContract,
    d: Seq<HtmlNode>,
    f: A11yVerifierFacts,
    q: PmrQuestion,
    ctx: PmrCoreContext,
)
    requires
        is_complete(c),
        facts_of(d, f),
    ensures
        ({
            let a = core_audits(c, f, q, ctx)[7];
            let id = "pmr.tables.semantic_table_headers"@;
            let any = exists|i: int| 0 <= i < d.len() && has_tag(#[trigger] d[i], "table"@);
            let bad = exists|i: int| 0 <= i < d.len() && #[trigger] is_headless_table(d, i);
            &&& any ==> passes_if(c, a, id, !bad)
            &&& !any ==> has_verdict(c, a, id, "not_applicable"@, false)
        }),
{
    audited_has_verdict(c, "pmr.tables.semantic_table_headers"@, tables_outcome(f));
    let n = d.len() as int;
    headless_tables_are_listed(d, n);
    let rows = tables(d, n);
    assert(table_rows(f.tables@) == rows);
    assert forall|k: int| 0 <= k < f.tables@.len() implies table_is_headed(#[trigger] f.tables@[k])
        == !counts_headless(rows[k]) by {
        assert(table_rows(f.tables@)[k] == rows[k]);
    }
    if exists|k: int| 0 <= k < rows.len() && counts_headless(#[trigger] rows[k]) {
        let k = choose|k: int| 0 <= k < rows.len() && counts_headless(#[trigger] rows[k]);
        assert(!table_is_headed(f.tables@[k]));
    }
}

// ---------------------------------------------------------------------------------------------
// Profiles and artifacts
// ---------------------------------------------------------------------------------------------
/// The text speaks of working papers.
pub open spec fn speaks_of_work(text: Seq<char>) -> bool {
    ||| contains(text, "review queue"@)
    ||| contains(text, "parity report"@)
    ||| contains(text, "source analysis"@)
    ||| contains(text, "component validation"@)
    ||| contains(text, "a11y validation"@)
    ||| contains(text, "transcription sidecar"@)
    ||| contains(text, "debug log"@)
    ||| contains(text, "remediation note"@)
}

/// The audits that depend on the profile: signatures must be readable where the text speaks of them,
/// and a finished document must not speak of working papers. In other profiles they do not apply.
pub proof fn profile_audits_are_right(
    c: PmrContract,
    d: Seq<HtmlNode>,
    f: A11yVerifierFacts,
    q: PmrQuestion,
    ctx: PmrCoreContext,
    text: Seq<char>,
)
    requires
        is_complete(c),
        facts_of(d, f),
        is_body_text(d, text),
    ensures
        ({
            let r = core_audits(c, f, q, ctx);
            let cav = lower(q.profile@) == "cav"@;
            let asked = cav || lower(q.profile@) == "transactional"@;
            let signed = exists|i: int| 0 <= i < d.len() && #[trigger] is_signature(d[i]);
            let speaks = contains(text, "signature"@) || contains(text, "signed"@);
            let a = "pmr.signatures.text_semantics_present"@;
            let b = "pmr.cav.document_only_content"@;
            &&& asked && (signed || speaks) ==> passes_if(c, r[8], a, signed)
            &&& !asked || (!signed && !speaks) ==> has_verdict(
                c,
                r[8],
                a,
                "not_applicable"@,
                false,
            )
            &&& cav ==> passes_if(c, r[9], b, !speaks_of_work(text))
            &&& !cav ==> has_verdict(c, r[9], b, "not_applicable"@, false)
        }),
{
    audited_has_verdict(
        c,
        "pmr.signatures.text_semantics_present"@,
        signature_outcome(f, q.profile@),
    );
    audited_has_verdict(c, "pmr.cav.document_only_content"@, content_outcome(f, q.profile@));
    is_signature_count(d, f);
    body_text_is_one(d, f, text);
    let all = note_phrases();
    hits_above_nought(text, all);
    if speaks_of_work(text) {
        assert(contains(text, all[0]) || contains(text, all[1]) || contains(text, all[2])
            || contains(text, all[3]) || contains(text, all[4]) || contains(text, all[5])
            || contains(text, all[6]) || contains(text, all[7]));
    }
}

/// The element links to a style sheet.
pub open spec fn links_style_sheet(n: HtmlNode) -> bool {
    &&& attr(n, "rel"@) matches Some(rel) && words(lower(rel)).contains("stylesheet"@)
    &&& attr(n, "href"@) matches Some(href) && !is_blank(href)
}

proof fn style_sheets_are_listed(d: Seq<HtmlNode>, n: int)
    requires
        0 <= n <= d.len(),
    ensures
        css_hrefs(d, n).len() > 0 <==> exists|i: int|
            0 <= i < n && links_style_sheet(#[trigger] d[i]),
    decreases n,
{
    if n > 0 {
        style_sheets_are_listed(d, n - 1);
        assert((css_href(d[n - 1]) is Some) == links_style_sheet(d[n - 1]));
    }
}

/// The audits of what was written: the document and its style sheet must hold something, where their
/// size is not known the document must at least not be empty, and a document that links to no style
/// sheet is warned of, which does not count.
pub proof fn artifact_audits_are_right(
    c: PmrContract,
    d: Seq<HtmlNode>,
    f: A11yVerifierFacts,
    q: PmrQuestion,
    ctx: PmrCoreContext,
)
    requires
        is_complete(c),
        facts_of(d, f),
    ensures
        ({
            let r = core_audits(c, f, q, ctx);
            let linked = exists|i: int| 0 <= i < d.len() && links_style_sheet(#[trigger] d[i]);
            &&& ctx.html_artifact_bytes matches Some(n) ==> passes_if(
                c,
                r[10],
                "pmr.artifacts.html_emitted"@,
                n > 0,
            )
            &&& ctx.html_artifact_bytes is None ==> passes_if(
                c,
                r[10],
                "pmr.artifacts.html_emitted"@,
                !q.html_is_empty,
            )
            &&& passes_if(
                c,
                r[11],
                "pmr.artifacts.css_emitted"@,
                ctx.css_artifact_bytes != Some(0u64),
            )
            &&& linked ==> has_verdict(
                c,
                r[12],
                "pmr.artifacts.linked_css_reference"@,
                "pass"@,
                false,
            )
            &&& !linked ==> has_verdict(
                c,
                r[12],
                "pmr.artifacts.linked_css_reference"@,
                "warn"@,
                false,
            )
            &&& r.len() == 13
        }),
{
    style_sheets_are_listed(d, d.len() as int);
    audited_has_verdict(
        c,
        "pmr.artifacts.html_emitted"@,
        artifact_outcome(
            is_emitted(ctx.html_artifact_bytes, !q.html_is_empty),
            "HTML artifact emitted."@,
            "HTML artifact missing or empty."@,
        ),
    );
    audited_has_verdict(
        c,
        "pmr.artifacts.css_emitted"@,
        artifact_outcome(
            is_emitted(ctx.css_artifact_bytes, true),
            "CSS artifact emitted."@,
            "CSS artifact missing or empty."@,
        ),
    );
    audited_has_verdict(c, "pmr.artifacts.linked_css_reference"@, linked_outcome(f));
}

} // verus!

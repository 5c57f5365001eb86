use fullbleed::builder::FullBleed;
use fullbleed::dom::{Attribute, HtmlDocument, HtmlNode, NodeKind};
use fullbleed::engine::A11yVerifierCoreReport;
use fullbleed::facts::{
    a11y_text_similarity, a11y_text_tokens, verify_accessibility_html_facts, A11yVerifierFacts, Share,
};
use fullbleed::findings::{a11y_sensory_instruction_hits, pmr_note_hits, A11yVerifierFinding};
use fullbleed::pmr::{
    defines_all, AuditDef, CategoryDef, PaginationTraceSummary, PmrContract, PmrCoreAudit, PmrCoreContext,
};
use fullbleed::rank::{pmr_band, pmr_clamp, PmrCoreReport};
use fullbleed::signals::{a11y_lang_value_is_valid, lang_is_valid};

struct Tree {
    tag: String,
    attributes: Vec<(String, String)>,
    text: Option<String>,
    children: Vec<Tree>,
}

fn el(tag: &str, attributes: &[(&str, &str)], children: Vec<Tree>) -> Tree {
    Tree {
        tag: tag.to_string(),
        attributes: attributes.iter().map(|(n, v)| (n.to_string(), v.to_string())).collect(),
        text: None,
        children,
    }
}

fn text(content: &str) -> Tree {
    Tree {
        tag: String::new(),
        attributes: Vec::new(),
        text: Some(content.to_string()),
        children: Vec::new(),
    }
}

fn flatten(tree: Tree, nodes: &mut Vec<HtmlNode>) {
    let at = nodes.len();
    let kind = match tree.text {
        Some(content) => NodeKind::Text { content },
        None => NodeKind::Element {
            tag: tree.tag,
            attributes: tree
                .attributes
                .into_iter()
                .map(|(name, value)| Attribute { name, value })
                .collect(),
        },
    };
    nodes.push(HtmlNode { kind, end: 0 });
    for child in tree.children {
        flatten(child, nodes);
    }
    let end = nodes.len();
    nodes[at].end = end;
}

fn document(root: Tree) -> HtmlDocument {
    let mut nodes = Vec::new();
    flatten(root, &mut nodes);
    HtmlDocument::from_nodes(nodes).expect("nested nodes")
}

fn page(lang: &str, title: &str, body: Vec<Tree>) -> HtmlDocument {
    document(el(
        "html",
        &[("lang", lang)],
        vec![
            el("head", &[], vec![el("title", &[], vec![text(title)])]),
            el("body", &[], body),
        ],
    ))
}

fn facts(body: Vec<Tree>) -> A11yVerifierFacts {
    verify_accessibility_html_facts(&page("en", "Title", body))
}

#[test]
fn nodes_must_nest() {
    let node = |end| HtmlNode { kind: NodeKind::Element { tag: "p".to_string(), attributes: Vec::new() }, end };
    let leaf = |end| HtmlNode { kind: NodeKind::Text { content: "x".to_string() }, end };
    assert!(HtmlDocument::from_nodes(vec![node(2), leaf(2)]).is_some());
    assert!(HtmlDocument::from_nodes(vec![node(0)]).is_none());
    assert!(HtmlDocument::from_nodes(vec![node(3), node(2)]).is_none());
    assert!(HtmlDocument::from_nodes(vec![node(2), node(3), leaf(3)]).is_none());
    assert!(HtmlDocument::from_nodes(vec![leaf(2), leaf(2)]).is_none());
    assert!(HtmlDocument::from_nodes(Vec::new()).is_some());
    let comment = |end| HtmlNode { kind: NodeKind::Comment, end };
    assert!(HtmlDocument::from_nodes(vec![node(2), comment(2)]).is_some());
    assert!(HtmlDocument::from_nodes(vec![comment(2), leaf(2)]).is_none());
}

#[test]
fn neighbouring_lists_are_fragments() {
    let list = || el("dl", &[], vec![el("dt", &[], vec![text("a")]), el("dd", &[], vec![text("b")])]);
    let long = || {
        el("dl", &[], (0..3).flat_map(|_| vec![el("dt", &[], Vec::new()), el("dd", &[], Vec::new())]).collect())
    };
    let f = facts(vec![list(), list(), list(), text(" "), list()]);
    assert_eq!((f.dl_block_count, f.dl_fragmentation_count, f.dl_group_consistency_count), (4, 2, 2));
    let f = facts(vec![list(), long()]);
    assert_eq!((f.dl_block_count, f.dl_fragmentation_count, f.dl_group_consistency_count), (2, 1, 0));
    let mut nodes = Vec::new();
    flatten(el("div", &[], vec![list(), list()]), &mut nodes);
    let second = nodes[1].end;
    nodes.insert(second, HtmlNode { kind: NodeKind::Comment, end: second + 1 });
    nodes[0].end += 1;
    for n in nodes.iter_mut().skip(second + 1) {
        n.end += 1;
    }
    let f = verify_accessibility_html_facts(&HtmlDocument::from_nodes(nodes).expect("nested"));
    assert_eq!((f.dl_block_count, f.dl_fragmentation_count), (2, 0));
}

#[test]
fn figures_are_compared_with_their_captions() {
    let figure = |alt: &str, caption: &str| {
        el(
            "figure",
            &[],
            vec![
                el("img", &[("alt", alt)], Vec::new()),
                el("figcaption", &[], vec![text(caption)]),
            ],
        )
    };
    let f = facts(vec![
        figure("a red bird sings", "A red bird sings loud"),
        figure("something else", "Other words"),
        figure(&"x".repeat(151), ""),
        el("figure", &[], vec![el("img", &[("title", "t")], Vec::new())]),
        el("figure", &[], vec![el("img", &[("alt", "")], Vec::new())]),
    ]);
    assert_eq!(f.figure_informative_count, 4);
    assert_eq!(f.figure_alt_length_budget, 150);
    assert_eq!(f.figure_alt_over_budget_count, 1);
    assert_eq!(f.figure_max_alt_len, 151);
    assert_eq!(f.figure_caption_redundancy_count, 1);
    assert_eq!(f.figure_max_caption_similarity.part * 5, f.figure_max_caption_similarity.whole * 4);
    assert_eq!(f.figure_missing_effective_text_count, 1);
}

#[test]
fn language_tags_are_checked() {
    assert!(a11y_lang_value_is_valid("en"));
    assert!(a11y_lang_value_is_valid("en-US"));
    assert!(!a11y_lang_value_is_valid(""));
    assert!(!a11y_lang_value_is_valid("en US"));
    assert!(!a11y_lang_value_is_valid("-en"));
    assert!(!a11y_lang_value_is_valid("en-"));
    assert!(a11y_lang_value_is_valid(" en "));
    assert!(lang_is_valid("en"));
    assert!(lang_is_valid("en-US"));
    assert!(!lang_is_valid(""));
    assert!(!lang_is_valid(" en "));
    assert!(!lang_is_valid("en-"));
}

#[test]
fn text_similarity_compares_sets_of_words() {
    let mut tokens = a11y_text_tokens("The cat, the CAT sat");
    tokens.sort();
    assert_eq!(tokens, vec!["cat", "sat", "the"]);
    let s = a11y_text_similarity("a red cat", "a blue cat");
    assert_eq!(s.part * 4, s.whole * 2);
    let none = a11y_text_similarity("", "x");
    assert_eq!(none.part, 0);
    let Share { part, whole } = a11y_text_similarity("same words", "WORDS same");
    assert_eq!(part, whole);
    let mut umlaut = a11y_text_tokens("\u{c4}pfel STRASSE");
    umlaut.sort();
    assert!(umlaut.contains(&"strasse".to_string()));
}

#[test]
fn facts_of_an_empty_document() {
    let f = verify_accessibility_html_facts(&document(el("div", &[], Vec::new())));
    assert_eq!(f.html_lang, None);
    assert_eq!(f.title, "");
    assert!(!f.has_html_wrapper);
    assert!(!f.has_css_link);
    assert_eq!(f.main_count, 0);
    assert!(f.tables.is_empty());
}

#[test]
fn facts_of_the_head() {
    let d = document(el(
        "html",
        &[("lang", " en-US ")],
        vec![
            el(
                "head",
                &[],
                vec![
                    el("title", &[], vec![text("  My   title ")]),
                    el("link", &[("rel", "stylesheet"), ("href", "style.css")], Vec::new()),
                    el("link", &[("rel", "icon"), ("href", "i.png")], Vec::new()),
                ],
            ),
            el("body", &[], vec![el("main", &[], vec![text("Hello")])]),
        ],
    ));
    let f = verify_accessibility_html_facts(&d);
    assert_eq!(f.html_lang.as_deref(), Some("en-US"));
    assert_eq!(f.title, "My   title");
    assert!(f.has_html_wrapper);
    assert!(f.has_css_link);
    assert_eq!(f.css_link_hrefs, vec!["style.css".to_string()]);
    assert_eq!(f.main_count, 1);
    assert_eq!(f.body_text.trim(), "Hello");
}

#[test]
fn ids_and_references_are_compared() {
    let f = facts(vec![
        el("p", &[("id", "a")], Vec::new()),
        el("p", &[("id", "a")], Vec::new()),
        el("label", &[("for", "missing")], vec![text("L")]),
        el("input", &[("id", "b"), ("aria-labelledby", "a gone")], Vec::new()),
    ]);
    assert_eq!(f.duplicate_ids, vec!["a".to_string()]);
    assert_eq!(f.missing_idrefs, vec![("aria-labelledby".to_string(), "gone".to_string())]);
}

#[test]
fn controls_links_and_images_are_counted() {
    let f = facts(vec![
        el("img", &[("alt", "A photo")], Vec::new()),
        el("img", &[], Vec::new()),
        el("input", &[("type", "text")], Vec::new()),
        el("input", &[("type", "text"), ("aria-label", "Name")], Vec::new()),
        el("a", &[("href", "#x")], vec![text("click here")]),
        el("a", &[("href", "#y")], vec![text("Annual report")]),
        el("a", &[("href", "#z")], Vec::new()),
        el("div", &[("tabindex", "3")], Vec::new()),
        el("div", &[("tabindex", "zero")], Vec::new()),
        el("script", &[], Vec::new()),
        el("div", &[("onclick", "go()")], Vec::new()),
    ]);
    assert_eq!(f.image_count, 2);
    assert_eq!(f.image_missing_alt_count, 1);
    assert_eq!(f.form_control_count, 2);
    assert_eq!(f.unlabeled_form_control_count, 1);
    assert_eq!(f.link_count, 3);
    assert_eq!(f.unnamed_link_count, 1);
    assert_eq!(f.generic_link_text_count, 1);
    assert_eq!(f.tabindex_attr_count, 2);
    assert_eq!(f.positive_tabindex_count, 1);
    assert_eq!(f.invalid_tabindex_count, 1);
    assert_eq!(f.script_element_count, 1);
    assert_eq!(f.custom_click_handler_count, 1);
    assert_eq!(f.inline_event_handler_attr_count, 1);
}

#[test]
fn labels_headings_and_regions_are_checked() {
    let f = facts(vec![
        el("h2", &[], Vec::new()),
        el("h3", &[], vec![text("Head")]),
        el("label", &[], vec![text("  ")]),
        el("p", &[("aria-label", " "), ("lang", "d e")], Vec::new()),
        el("p", &[("lang", "de")], Vec::new()),
        el("p", &[("data-fb-a11y-signature-status", "signed")], Vec::new()),
        el("label", &[], vec![el("input", &[("type", "text")], Vec::new())]),
        el("video", &[("autoplay", "")], Vec::new()),
        el("marquee", &[], Vec::new()),
        el("iframe", &[], Vec::new()),
    ]);
    assert_eq!(f.empty_heading_count, 1);
    assert_eq!(f.empty_aria_label_count, 1);
    assert_eq!(f.part_lang_attr_count, 2);
    assert_eq!(f.invalid_part_lang_attr_count, 1);
    assert_eq!(f.signature_semantic_count, 1);
    assert_eq!(f.form_control_count, 1);
    assert_eq!(f.unlabeled_form_control_count, 0);
    assert_eq!(f.autoplay_media_count, 1);
    assert_eq!(f.blink_marquee_count, 1);
    assert_eq!(f.embedded_active_content_count, 1);
}

#[test]
fn tables_and_lists_are_counted() {
    let row = |scope: bool| {
        el(
            "tr",
            &[],
            vec![
                el("th", if scope { &[("scope", "col")] } else { &[] }, vec![text("H")]),
                el("td", &[], vec![text("1")]),
            ],
        )
    };
    let f = facts(vec![
        el("table", &[], vec![el("caption", &[], vec![text("C")]), row(true), row(false)]),
        el("table", &[], vec![el("tr", &[], vec![el("td", &[], Vec::new())])]),
        el("dl", &[], vec![el("dt", &[], vec![text("a")]), el("dd", &[], vec![text("b")])]),
    ]);
    assert_eq!(f.tables.len(), 2);
    assert!(f.tables[0].has_caption);
    assert_eq!((f.tables[0].th_count, f.tables[0].th_scope_count), (2, 1));
    assert!(!f.tables[1].has_caption);
    assert_eq!(f.tables[1].th_count, 0);
    assert_eq!(f.dl_block_count, 1);
    assert_eq!(f.dl_fragmentation_count, 0);
    assert_eq!(f.dl_group_consistency_count, 0);
}

fn three_places(share: &Share) -> String {
    format!("{:.3}", share.part as f64 / share.whole as f64)
}

fn report(lang: Option<&str>, d: &HtmlDocument, profile: &str) -> A11yVerifierCoreReport {
    let builder = FullBleed::builder();
    let builder = match lang {
        Some(lang) => builder.document_lang(lang.to_string()),
        None => builder,
    };
    builder.build().expect("engine").verify_accessibility_html_core(d, profile, three_places)
}

fn finding<'a>(r: &'a A11yVerifierCoreReport, id: &str) -> &'a A11yVerifierFinding {
    r.findings.iter().find(|f| f.rule_id == id).expect("a finding")
}

#[test]
fn a_clean_document_passes() {
    let d = page("en", "Title", vec![el("main", &[], vec![el("h1", &[], vec![text("Head")])])]);
    let r = report(Some("en"), &d, "strict");
    assert_eq!(r.profile, "strict");
    assert!(r.findings.iter().all(|f| f.verdict != "fail"));
    assert_eq!(finding(&r, "fb.a11y.html.lang_present_valid").verdict, "pass");
    assert_eq!(finding(&r, "fb.a11y.html.title_present_nonempty").verdict, "pass");
    assert_eq!(finding(&r, "fb.a11y.structure.single_main").verdict, "pass");
    assert_eq!(
        finding(&r, "fb.a11y.forms.labels_or_instructions_present").applicability,
        "not_applicable"
    );
}

#[test]
fn a_language_that_differs_from_the_metadata_fails() {
    let d = page("de", "Title", vec![el("main", &[], Vec::new())]);
    let r = report(Some("en"), &d, "strict");
    let f = finding(&r, "fb.a11y.html.lang_present_valid");
    assert_eq!(f.verdict, "fail");
    assert!(f.message.contains("observed DOM=de, expected metadata=en"));
    assert_eq!(finding(&report(None, &d, "strict"), "fb.a11y.html.lang_present_valid").verdict, "pass");
}

#[test]
fn the_largest_similarity_is_given_as_evidence() {
    let d = page(
        "en",
        "Title",
        vec![
            el("main", &[], Vec::new()),
            el(
                "figure",
                &[],
                vec![
                    el("img", &[("alt", "a red bird")], Vec::new()),
                    el("figcaption", &[], vec![text("a blue bird")]),
                ],
            ),
        ],
    );
    let r = report(None, &d, "strict");
    let f = finding(&r, "fb.a11y.figure.caption_redundancy_seed");
    assert!(f
        .evidence
        .iter()
        .flat_map(|e| &e.values)
        .any(|(name, value)| name == "figure_max_caption_similarity" && value == "0.500"));
}

#[test]
fn faults_are_reported() {
    let d = document(el(
        "html",
        &[],
        vec![el(
            "body",
            &[],
            vec![
                el("main", &[], Vec::new()),
                el("main", &[], Vec::new()),
                el("p", &[("id", "q\"x")], Vec::new()),
                el("p", &[("id", "q\"x")], Vec::new()),
                el("img", &[], Vec::new()),
            ],
        )],
    ));
    let r = report(None, &d, "strict");
    assert_eq!(finding(&r, "fb.a11y.html.lang_present_valid").verdict, "fail");
    assert_eq!(finding(&r, "fb.a11y.html.title_present_nonempty").verdict, "fail");
    let single = finding(&r, "fb.a11y.structure.single_main");
    assert_eq!(single.verdict, "fail");
    assert_eq!(single.message, "Expected exactly one <main>; found 2.");
    assert_eq!(finding(&r, "fb.a11y.ids.duplicate_id").message, "Duplicate id \"q\\\"x\" detected.");
    assert_eq!(finding(&r, "fb.a11y.images.alt_or_decorative").verdict, "fail");
}

#[test]
fn phrases_are_found_in_texts() {
    assert_eq!(
        a11y_sensory_instruction_hits("Press the RED button on the right, see above"),
        vec!["see above", "on the right", "red button"]
    );
    assert!(a11y_sensory_instruction_hits("plain words").is_empty());
    assert_eq!(pmr_note_hits("Debug log and Review Queue"), vec!["review queue", "debug log"]);
    assert!(pmr_note_hits("plain words").is_empty());
}

fn audit(id: &str, category: &str, weight: u32, gate_level: &str) -> AuditDef {
    AuditDef {
        id: id.to_string(),
        category: category.to_string(),
        weight,
        class_name: "required".to_string(),
        severity: "high".to_string(),
        stage: "post-emit".to_string(),
        gate_level: gate_level.to_string(),
    }
}

const AUDITS: [&str; 13] = [
    "pmr.artifacts.css_emitted",
    "pmr.artifacts.html_emitted",
    "pmr.artifacts.linked_css_reference",
    "pmr.cav.document_only_content",
    "pmr.doc.lang_present_valid",
    "pmr.doc.metadata_engine_persistence",
    "pmr.doc.title_present_nonempty",
    "pmr.forms.id_ref_integrity",
    "pmr.layout.known_loss_none_critical",
    "pmr.layout.overflow_none",
    "pmr.layout.page_count_target",
    "pmr.signatures.text_semantics_present",
    "pmr.tables.semantic_table_headers",
];

fn contract(level: &str) -> PmrContract {
    PmrContract {
        audits: AUDITS
            .iter()
            .map(|id| {
                let category = id.split('.').nth(1).expect("a category");
                audit(id, category, 10, level)
            })
            .collect(),
        categories: ["artifacts", "cav", "doc", "forms", "layout", "signatures", "tables"]
            .iter()
            .map(|c| CategoryDef { id: c.to_string(), name: c.to_uppercase(), weight: 5 })
            .collect(),
    }
}

fn rank(d: &HtmlDocument, mode: &str, ctx: &PmrCoreContext) -> PmrCoreReport {
    FullBleed::builder().build().expect("engine").verify_paged_media_rank_html_core(
        &contract("error"),
        d,
        false,
        "strict",
        mode,
        ctx,
    )
}

fn verdict<'a>(r: &'a PmrCoreReport, id: &str) -> &'a PmrCoreAudit {
    r.audits.iter().find(|a| a.audit_id == id).expect("an audit")
}

fn linked_page() -> HtmlDocument {
    document(el(
        "html",
        &[("lang", "en")],
        vec![
            el(
                "head",
                &[],
                vec![
                    el("title", &[], vec![text("Title")]),
                    el("link", &[("rel", "stylesheet"), ("href", "s.css")], Vec::new()),
                ],
            ),
            el("body", &[], vec![el("main", &[], vec![text("Hello")])]),
        ],
    ))
}

#[test]
fn a_sound_document_ranks_high() {
    let ctx = PmrCoreContext {
        overflow_count: Some(0),
        known_loss_count: Some(0),
        source_page_count: Some(2),
        render_page_count: Some(2),
        html_artifact_bytes: Some(10),
        css_artifact_bytes: Some(10),
        ..PmrCoreContext::default()
    };
    let r = rank(&linked_page(), "error", &ctx);
    assert_eq!(verdict(&r, "pmr.doc.lang_present_valid").verdict, "pass");
    assert_eq!(verdict(&r, "pmr.doc.lang_present_valid").score, Some(2));
    assert_eq!(verdict(&r, "pmr.layout.overflow_none").verdict, "pass");
    assert_eq!(verdict(&r, "pmr.layout.page_count_target").verdict, "pass");
    assert!(r.gate.ok);
    assert_eq!(r.manual_debt_item_count, 0);
    let doc = r.categories.iter().find(|c| c.id == "doc").expect("a category");
    assert_eq!((doc.score, doc.fail_count), (10_000, 0));
    assert_eq!(r.coverage.evaluated_audit_count, r.audits.len());
}

#[test]
fn overflow_and_page_counts_fail_the_layout() {
    let ctx = PmrCoreContext {
        overflow_count: Some(3),
        known_loss_count: Some(1),
        source_page_count: Some(2),
        render_page_count: Some(5),
        review_queue_items: Some(4),
        ..PmrCoreContext::default()
    };
    let r = rank(&linked_page(), "error", &ctx);
    assert_eq!(verdict(&r, "pmr.layout.overflow_none").verdict, "fail");
    assert_eq!(
        verdict(&r, "pmr.layout.overflow_none").message,
        "Overflow placements detected (3)."
    );
    assert_eq!(
        verdict(&r, "pmr.layout.page_count_target").message,
        "Page-count parity mismatch (source=2, render=5)."
    );
    assert!(!r.gate.ok);
    assert_eq!(r.manual_debt_item_count, 4);
    assert_eq!(
        r.manual_debt_items[0].reason,
        "4 review-queue item(s) require human verification."
    );
    for mode in ["off", "warn"] {
        assert!(rank(&linked_page(), mode, &ctx).gate.ok);
    }
}

#[test]
fn contracts_define_every_audit_or_are_incomplete() {
    assert!(defines_all(&contract("error")));
    for i in 0..AUDITS.len() {
        let mut partial = contract("error");
        partial.audits.remove(i);
        assert!(!defines_all(&partial), "{}", AUDITS[i]);
    }
}

#[test]
fn traces_start_empty() {
    let trace = PaginationTraceSummary::default();
    assert_eq!(trace.page_count, None);
    assert_eq!(trace.text_overlap_count, None);
}

#[test]
fn scores_have_bands() {
    assert_eq!(pmr_clamp(5, 0, 3), 3);
    assert_eq!(pmr_clamp(-5, 0, 3), 0);
    assert_eq!(pmr_clamp(2, 0, 3), 2);
    assert_eq!(pmr_band(9_500, 1), "excellent");
    assert_eq!(pmr_band(28_499, 3), "good");
    assert_eq!(pmr_band(8_500, 1), "good");
    assert_eq!(pmr_band(8_499, 1), "watch");
    assert_eq!(pmr_band(7_000, 1), "watch");
    assert_eq!(pmr_band(6_999, 1), "poor");
}

//! Scores, confidence, gate and coverage of the paged-media rank.
use vstd::prelude::*;

use crate::facts::A11yVerifierFacts;
use crate::pmr::{
    audit_views, core_audits, def_index, def_of, defines, is_complete, run_audits, AuditView,
    CategoryDef, PmrContract, PmrCoreAudit, PmrCoreContext, PmrQuestion,
};
use crate::text::{concat, count_text, decimal, lower, lowered, same, texts, trim, trimmed};

verus! {

broadcast use vstd::string::group_string_axioms;

// ---------------------------------------------------------------------------------------------
// Counting audits
// ---------------------------------------------------------------------------------------------
/// How many audits of a category have a verdict.
pub open spec fn verdict_count(audits: Seq<AuditView>, cat: Seq<char>, verdict: Seq<char>) -> nat
    decreases audits.len(),
{
    if audits.len() == 0 {
        0
    } else {
        verdict_count(audits.drop_last(), cat, verdict) + (if audits.last().category == cat
            && audits.last().verdict == verdict {
            1nat
        } else {
            0nat
        })
    }
}

/// How many audits a category has.
pub open spec fn category_size(audits: Seq<AuditView>, cat: Seq<char>) -> nat
    decreases audits.len(),
{
    if audits.len() == 0 {
        0
    } else {
        category_size(audits.drop_last(), cat) + (if audits.last().category == cat {
            1nat
        } else {
            0nat
        })
    }
}

/// Whether an audit counts for the score of a category.
pub open spec fn counts_for(a: AuditView, cat: Seq<char>) -> bool {
    a.category == cat && a.scored && a.score is Some
}

/// How many audits count for the score of a category.
pub open spec fn scored_size(audits: Seq<AuditView>, cat: Seq<char>) -> nat
    decreases audits.len(),
{
    if audits.len() == 0 {
        0
    } else {
        scored_size(audits.drop_last(), cat) + (if counts_for(audits.last(), cat) {
            1nat
        } else {
            0nat
        })
    }
}

/// The weight that a category can earn.
pub open spec fn possible(audits: Seq<AuditView>, cat: Seq<char>) -> nat
    decreases audits.len(),
{
    if audits.len() == 0 {
        0
    } else {
        possible(audits.drop_last(), cat) + (if counts_for(audits.last(), cat) {
            audits.last().weight
        } else {
            0nat
        })
    }
}

/// The weight that a category earned, in halves.
pub open spec fn earned(audits: Seq<AuditView>, cat: Seq<char>) -> nat
    decreases audits.len(),
{
    if audits.len() == 0 {
        0
    } else {
        earned(audits.drop_last(), cat) + (if counts_for(audits.last(), cat) {
            audits.last().score->0 * audits.last().weight
        } else {
            0nat
        })
    }
}

/// A quotient rounded half up.
pub open spec fn rounded(a: int, b: int) -> int {
    (2 * a + b) / (2 * b)
}

/// The score of a category in hundredths of a point: the share of the weight that was earned, full
/// when nothing counts.
pub open spec fn category_score(audits: Seq<AuditView>, cat: Seq<char>) -> int {
    if scored_size(audits, cat) == 0 {
        10_000
    } else if possible(audits, cat) == 0 {
        0
    } else {
        rounded(10_000 * earned(audits, cat) as int, 2 * possible(audits, cat) as int)
    }
}

/// A number moved into a range.
pub open spec fn clamped(v: int, lo: int, hi: int) -> int {
    if v < lo {
        lo
    } else if v > hi {
        hi
    } else {
        v
    }
}

/// Moves a number into a range.
pub fn pmr_clamp(v: i128, lo: i128, hi: i128) -> (r: i128)
    ensures
        r == clamped(v as int, lo as int, hi as int),
{
    if v < lo {
        lo
    } else if v > hi {
        hi
    } else {
        v
    }
}

/// The confidence in a category in hundredths of a point: ten points off for each audit that needs
/// a person, three for each warning, five for each failure.
pub open spec fn category_confidence(audits: Seq<AuditView>, cat: Seq<char>) -> int {
    100 * clamped(
        100 - 10 * verdict_count(audits, cat, "manual_needed"@) - 3 * verdict_count(
            audits,
            cat,
            "warn"@,
        ) - 5 * verdict_count(audits, cat, "fail"@),
        0,
        100,
    )
}

/// What the audits say about a category.
pub struct PmrCoreCategory {
    pub id: String,
    pub name: String,
    pub weight: u32,
    pub score: u32,
    pub confidence: u32,
    pub audit_count: usize,
    pub fail_count: usize,
    pub warn_count: usize,
}

/// The category `k` is what the audits say about the definition `def`.
pub open spec fn describes(audits: Seq<AuditView>, def: CategoryDef, k: PmrCoreCategory) -> bool {
    &&& k.id@ == def.id@
    &&& k.name@ == def.name@
    &&& k.weight == def.weight
    &&& k.score == category_score(audits, def.id@)
    &&& k.confidence == category_confidence(audits, def.id@)
    &&& k.audit_count == category_size(audits, def.id@)
    &&& k.fail_count == verdict_count(audits, def.id@, "fail"@)
    &&& k.warn_count == verdict_count(audits, def.id@, "warn"@)
}

/// The counts of one category.
struct CategoryCounts {
    size: usize,
    scored: usize,
    fail: usize,
    warn: usize,
    manual: usize,
    earned: u128,
    possible: u128,
}

spec fn counts_hold(audits: Seq<AuditView>, cat: Seq<char>, t: CategoryCounts) -> bool {
    &&& t.size == category_size(audits, cat)
    &&& t.scored == scored_size(audits, cat)
    &&& t.fail == verdict_count(audits, cat, "fail"@)
    &&& t.warn == verdict_count(audits, cat, "warn"@)
    &&& t.manual == verdict_count(audits, cat, "manual_needed"@)
    &&& t.earned == earned(audits, cat)
    &&& t.possible == possible(audits, cat)
}

/// Every score is at most two halves.
pub open spec fn scores_in_range(audits: Seq<AuditView>) -> bool {
    forall|i: int|
        0 <= i < audits.len() ==> ((#[trigger] audits[i]).score matches Some(s) ==> s <= 2)
}

fn count_category(audits: &Vec<PmrCoreAudit>, cat: &str) -> (t: CategoryCounts)
    requires
        scores_in_range(audit_views(audits@)),
    ensures
        counts_hold(audit_views(audits@), cat@, t),
        t.earned <= 2 * t.possible,
        t.possible <= 0x1_0000_0000 * audits@.len(),
{
    let mut t = CategoryCounts {
        size: 0,
        scored: 0,
        fail: 0,
        warn: 0,
        manual: 0,
        earned: 0,
        possible: 0,
    };
    let ghost all = audit_views(audits@);
    let mut i: usize = 0;
    proof {
        assert(all.take(0) =~= Seq::empty());
    }
    while i < audits.len()
        invariant
            i <= audits@.len(),
            all == audit_views(audits@),
            scores_in_range(all),
            counts_hold(all.take(i as int), cat@, t),
            t.size <= i,
            t.scored <= i,
            t.fail <= i,
            t.warn <= i,
            t.manual <= i,
            t.possible <= 0x1_0000_0000 * i,
            t.earned <= 2 * t.possible,
        decreases audits@.len() - i,
    {
        let a = &audits[i];
        proof {
            assert(all.take(i + 1).drop_last() =~= all.take(i as int));
            assert(all.take(i + 1).last() == all[i as int]);
            assert(all[i as int] == a@);
        }
        if same(&a.category, cat) {
            t.size = t.size + 1;
            if same(&a.verdict, "fail") {
                t.fail = t.fail + 1;
            }
            if same(&a.verdict, "warn") {
                t.warn = t.warn + 1;
            }
            if same(&a.verdict, "manual_needed") {
                t.manual = t.manual + 1;
            }
            if a.scored {
                match a.score {
                    Some(s) => {
                        t.scored = t.scored + 1;
                        let w: u128 = a.weight as u128;
                        proof {
                            assert(all[i as int].score == Some(s as nat));
                            assert(s == 0 || s == 1 || s == 2);
                            assert(s as nat * w <= 2 * w) by (nonlinear_arith)
                                requires
                                    0 <= s <= 2,
                                    0 <= w,
                            ;
                        }
                        let gain: u128 = if s == 0 {
                            0
                        } else if s == 1 {
                            w
                        } else {
                            2 * w
                        };
                        proof {
                            assert(gain == s as nat * w) by (nonlinear_arith)
                                requires
                                    gain == (if s == 0 {
                                        0int
                                    } else if s == 1 {
                                        w as int
                                    } else {
                                        2 * w
                                    }),
                                    0 <= s <= 2,
                            ;
                        }
                        t.earned = t.earned + gain;
                        t.possible = t.possible + w;
                    },
                    None => {},
                }
            }
        }
        i += 1;
    }
    proof {
        assert(all.take(all.len() as int) =~= all);
    }
    t
}

/// Summarises one category.
pub fn rank_category(audits: &Vec<PmrCoreAudit>, def: &CategoryDef) -> (k: PmrCoreCategory)
    requires
        scores_in_range(audit_views(audits@)),
    ensures
        describes(audit_views(audits@), *def, k),
        k.score <= 10_000,
        k.confidence <= 10_000,
{
    let t = count_category(audits, &def.id);
    let total: usize = audits.len();
    proof {
        assert(t.possible <= 0x1_0000_0000 * total);
    }
    let score: u128 = if t.scored == 0 {
        10_000
    } else if t.possible == 0 {
        0
    } else {
        let top: u128 = 2 * (10_000 * t.earned) + 2 * t.possible;
        let bottom: u128 = 2 * (2 * t.possible);
        let q: u128 = top / bottom;
        proof {
            assert(q <= 10_000) by (nonlinear_arith)
                requires
                    bottom == 4 * t.possible,
                    top == 20_000 * t.earned + 2 * t.possible,
                    t.earned <= 2 * t.possible,
                    t.possible > 0,
                    q == top / bottom,
            ;
        }
        q
    };
    let off: i128 = 10 * (t.manual as i128) + 3 * (t.warn as i128) + 5 * (t.fail as i128);
    let conf: i128 = pmr_clamp(100 - off, 0, 100);
    PmrCoreCategory {
        id: def.id.clone(),
        name: def.name.clone(),
        weight: def.weight,
        score: score as u32,
        confidence: (100 * conf) as u32,
        audit_count: t.size,
        fail_count: t.fail,
        warn_count: t.warn,
    }
}

// ---------------------------------------------------------------------------------------------
// Rank
// ---------------------------------------------------------------------------------------------
/// The weight of all categories.
pub open spec fn weight_sum(cats: Seq<PmrCoreCategory>) -> nat
    decreases cats.len(),
{
    if cats.len() == 0 {
        0
    } else {
        weight_sum(cats.drop_last()) + cats.last().weight as nat
    }
}

/// The weighted scores of all categories.
pub open spec fn score_sum(cats: Seq<PmrCoreCategory>) -> nat
    decreases cats.len(),
{
    if cats.len() == 0 {
        0
    } else {
        score_sum(cats.drop_last()) + cats.last().score as nat * cats.last().weight as nat
    }
}

/// The weighted confidences of all categories.
pub open spec fn confidence_sum(cats: Seq<PmrCoreCategory>) -> nat
    decreases cats.len(),
{
    if cats.len() == 0 {
        0
    } else {
        confidence_sum(cats.drop_last()) + cats.last().confidence as nat * cats.last().weight as nat
    }
}

/// What weighted sums are divided by.
pub open spec fn weight_denominator(cats: Seq<PmrCoreCategory>) -> int {
    if weight_sum(cats) == 0 {
        1
    } else {
        weight_sum(cats) as int
    }
}

/// The points that open reviews cost, in hundredths: three per item, at most twenty-five.
pub open spec fn review_cost(items: int) -> int {
    if items <= 0 {
        0
    } else if 3 * items > 25 {
        2_500
    } else {
        300 * items
    }
}

/// The confidence in the rank, as a fraction over the weight denominator.
pub open spec fn confidence_weight(cats: Seq<PmrCoreCategory>, items: int) -> int {
    let den = weight_denominator(cats);
    clamped(confidence_sum(cats) - review_cost(items) * den, 0, 10_000 * den)
}

/// The name of a score, which is given as a fraction in hundredths of a point.
pub open spec fn band_of(num: int, den: int) -> Seq<char> {
    if num >= 9_500 * den {
        "excellent"@
    } else if num >= 8_500 * den {
        "good"@
    } else if num >= 7_000 * den {
        "watch"@
    } else {
        "poor"@
    }
}

/// Names a score, which is given as a fraction in hundredths of a point.
pub fn pmr_band(num: u128, den: u128) -> (r: &'static str)
    requires
        9_500 * den <= u128::MAX,
    ensures
        r@ == band_of(num as int, den as int),
{
    if num >= 9_500 * den {
        "excellent"
    } else if num >= 8_500 * den {
        "good"
    } else if num >= 7_000 * den {
        "watch"
    } else {
        "poor"
    }
}

/// The rank of a document, in hundredths of a point.
pub struct PmrCoreRank {
    pub score: u64,
    pub confidence: u64,
    pub band: String,
    pub raw_score: u64,
}

/// The rank `r` is that of the categories, with `items` reviews open.
pub open spec fn ranks(cats: Seq<PmrCoreCategory>, items: int, r: PmrCoreRank) -> bool {
    let den = weight_denominator(cats);
    &&& r.score == rounded(score_sum(cats) as int, den)
    &&& r.raw_score == r.score
    &&& r.confidence == rounded(confidence_weight(cats, items), den)
    &&& r.band@ == band_of(score_sum(cats) as int, den)
}

proof fn product_bound(a: u32, b: u32)
    requires
        a <= 10_000,
    ensures
        0 <= a * b <= 10_000 * b <= 10_000 * 0xffff_ffff,
{
    assert(0 <= a * b <= 10_000 * b) by (nonlinear_arith)
        requires
            0 <= a <= 10_000,
            0 <= b,
    ;
}

/// Ranks a document by its categories.
pub fn rank_of(cats: &Vec<PmrCoreCategory>, items: usize) -> (r: PmrCoreRank)
    requires
        forall|i: int|
            0 <= i < cats@.len() ==> (#[trigger] cats@[i]).score <= 10_000 && cats@[i].confidence
                <= 10_000,
    ensures
        ranks(cats@, items as int, r),
        r.score <= 10_000,
        r.confidence <= 10_000,
{
    let mut w: u128 = 0;
    let mut s: u128 = 0;
    let mut k: u128 = 0;
    let mut i: usize = 0;
    proof {
        assert(cats@.take(0) =~= Seq::empty());
    }
    while i < cats.len()
        invariant
            i <= cats@.len(),
            forall|j: int|
                0 <= j < cats@.len() ==> (#[trigger] cats@[j]).score <= 10_000
                    && cats@[j].confidence <= 10_000,
            w == weight_sum(cats@.take(i as int)),
            s == score_sum(cats@.take(i as int)),
            k == confidence_sum(cats@.take(i as int)),
            w <= 0xffff_ffff * i,
            s <= 10_000 * w,
            k <= 10_000 * w,
        decreases cats@.len() - i,
    {
        let c = &cats[i];
        proof {
            assert(cats@.take(i + 1).drop_last() =~= cats@.take(i as int));
            assert(cats@[i as int].score <= 10_000);
            product_bound(c.score, c.weight);
            product_bound(c.confidence, c.weight);
        }
        w = w + c.weight as u128;
        s = s + (c.score as u128) * (c.weight as u128);
        k = k + (c.confidence as u128) * (c.weight as u128);
        i += 1;
    }
    proof {
        assert(cats@.take(cats@.len() as int) =~= cats@);
    }
    let den: u128 = if w == 0 {
        1
    } else {
        w
    };
    let cost: i128 = if items > 8 {
        2_500
    } else {
        300 * (items as i128)
    };
    let total: usize = cats.len();
    proof {
        assert(den <= 0xffff_ffff * total + 1);
        assert(0 <= cost <= 2_500);
        assert(0 <= cost * den <= 2_500 * den) by (nonlinear_arith)
            requires
                0 <= cost <= 2_500,
                0 < den,
        ;
    }
    let cut: i128 = cost * (den as i128);
    let kept: i128 = pmr_clamp(k as i128 - cut, 0, 10_000 * (den as i128));
    let score: u128 = (2 * s + den) / (2 * den);
    let confidence: u128 = (2 * (kept as u128) + den) / (2 * den);
    proof {
        assert(cost == review_cost(items as int));
        rounded_bound(s as int, den as int);
        rounded_bound(kept as int, den as int);
    }
    let band = pmr_band(s, den);
    PmrCoreRank {
        score: score as u64,
        confidence: confidence as u64,
        band: band.to_owned(),
        raw_score: score as u64,
    }
}

proof fn rounded_bound(a: int, den: int)
    requires
        0 <= a <= 10_000 * den,
        den > 0,
    ensures
        0 <= rounded(a, den) <= 10_000,
{
    assert(0 <= (2 * a + den) / (2 * den) <= 10_000) by (nonlinear_arith)
        requires
            0 <= a <= 10_000 * den,
            den > 0,
    ;
}

// ---------------------------------------------------------------------------------------------
// Gate
// ---------------------------------------------------------------------------------------------
/// The outcome of a gate.
pub struct PmrCoreGate {
    pub ok: bool,
    pub mode: String,
    pub error_count: usize,
    pub warn_count: usize,
    pub failed_audit_ids: Vec<String>,
}

/// The mode in use: the one asked for in lower case, `error` where none is asked for.
pub open spec fn gate_mode(mode: Seq<char>) -> Seq<char> {
    if is_blank_mode(mode) {
        "error"@
    } else {
        lower(trim(mode))
    }
}

/// No mode is asked for.
pub open spec fn is_blank_mode(mode: Seq<char>) -> bool {
    trim(mode).len() == 0
}

/// What a gate makes of one audit.
#[derive(Clone, Copy, PartialEq, Eq, Structural)]
pub enum GateMark {
    Silent,
    Warning,
    Error,
}

/// A failed or warned audit is an error only when it failed, its level says so and its gate is not
/// lowered to warnings; an audit or gate that is switched off stays silent.
pub open spec fn gate_mark(mode: Seq<char>, verdict: Seq<char>, level: Seq<char>) -> GateMark {
    if verdict != "fail"@ && verdict != "warn"@ {
        GateMark::Silent
    } else if mode == "off"@ || level == "off"@ {
        GateMark::Silent
    } else if mode == "warn"@ || verdict == "warn"@ || level != "error"@ {
        GateMark::Warning
    } else {
        GateMark::Error
    }
}

/// The level of an audit; an audit without a definition only warns.
pub open spec fn level_of(c: PmrContract, id: Seq<char>) -> Seq<char> {
    if defines(c, id) {
        def_of(c, id).gate_level@
    } else {
        Seq::empty()
    }
}

/// The mark of an audit in a mode.
pub open spec fn mark_of(c: PmrContract, mode: Seq<char>, a: AuditView) -> GateMark {
    gate_mark(mode, a.verdict, level_of(c, a.audit_id))
}

/// The audits that fail a gate, in order.
pub open spec fn gate_errors(c: PmrContract, mode: Seq<char>, audits: Seq<AuditView>) -> Seq<
    Seq<char>,
>
    decreases audits.len(),
{
    if audits.len() == 0 {
        Seq::empty()
    } else if mark_of(c, mode, audits.last()) == GateMark::Error {
        gate_errors(c, mode, audits.drop_last()).push(audits.last().audit_id)
    } else {
        gate_errors(c, mode, audits.drop_last())
    }
}

/// How many audits warn.
pub open spec fn gate_warnings(c: PmrContract, mode: Seq<char>, audits: Seq<AuditView>) -> nat
    decreases audits.len(),
{
    if audits.len() == 0 {
        0
    } else {
        gate_warnings(c, mode, audits.drop_last()) + (if mark_of(c, mode, audits.last())
            == GateMark::Warning {
            1nat
        } else {
            0nat
        })
    }
}

/// A gate `g` is that of the audits.
pub open spec fn gates(c: PmrContract, mode: Seq<char>, audits: Seq<AuditView>, g: PmrCoreGate) -> bool {
    let m = gate_mode(mode);
    &&& g.mode@ == m
    &&& texts(g.failed_audit_ids@) == gate_errors(c, m, audits)
    &&& g.error_count == gate_errors(c, m, audits).len()
    &&& g.warn_count == gate_warnings(c, m, audits)
    &&& g.ok == (gate_errors(c, m, audits).len() == 0)
}

fn level_text(c: &PmrContract, id: &str) -> (r: String)
    ensures
        r@ == level_of(*c, id@),
{
    let mut i: usize = 0;
    proof {
        assert(c.audits@.take(0) =~= Seq::empty());
    }
    while i < c.audits.len()
        invariant
            i <= c.audits@.len(),
            def_index(c.audits@.take(i as int), id@) is None,
        decreases c.audits@.len() - i,
    {
        proof {
            assert(c.audits@.take(i + 1).drop_last() =~= c.audits@.take(i as int));
        }
        if same(&c.audits[i].id, id) {
            proof {
                assert(def_index(c.audits@.take(i + 1), id@) == Some(i as int));
                crate::pmr::def_index_extends(c.audits@, i + 1, id@);
            }
            return c.audits[i].gate_level.clone();
        }
        i += 1;
    }
    proof {
        assert(c.audits@.take(c.audits@.len() as int) =~= c.audits@);
    }
    String::new()
}

/// Decides whether the audits let a document pass.
pub fn pmr_gate(c: &PmrContract, audits: &Vec<PmrCoreAudit>, mode: &str) -> (g: PmrCoreGate)
    ensures
        gates(*c, mode@, audit_views(audits@), g),
{
    let asked = lowered(&trimmed(mode));
    let mode_norm = if asked.as_str().is_empty() {
        "error".to_owned()
    } else {
        asked
    };
    let ghost m = gate_mode(mode@);
    let ghost all = audit_views(audits@);
    let mut warn_count: usize = 0;
    let mut failed: Vec<String> = Vec::new();
    let mut i: usize = 0;
    proof {
        assert(mode_norm@ == m);
        assert(texts(failed@) =~= Seq::empty());
        assert(all.take(0) =~= Seq::empty());
    }
    let off = same(&mode_norm, "off");
    let lowered_gate = same(&mode_norm, "warn");
    while i < audits.len()
        invariant
            i <= audits@.len(),
            all == audit_views(audits@),
            off == (m == "off"@),
            lowered_gate == (m == "warn"@),
            warn_count <= i,
            warn_count == gate_warnings(*c, m, all.take(i as int)),
            texts(failed@) == gate_errors(*c, m, all.take(i as int)),
        decreases audits@.len() - i,
    {
        let a = &audits[i];
        proof {
            assert(all.take(i + 1).drop_last() =~= all.take(i as int));
            assert(all.take(i + 1).last() == a@);
        }
        let failing = same(&a.verdict, "fail");
        let warning = same(&a.verdict, "warn");
        let level = level_text(c, &a.audit_id);
        if (failing || warning) && !off && !same(&level, "off") {
            if lowered_gate || warning || !same(&level, "error") {
                warn_count = warn_count + 1;
            } else {
                let ghost before = texts(failed@);
                failed.push(a.audit_id.clone());
                proof {
                    assert(texts(failed@) =~= before.push(a.audit_id@));
                }
            }
        }
        i += 1;
    }
    proof {
        assert(all.take(all.len() as int) =~= all);
        assert(texts(failed@).len() == failed@.len());
    }
    PmrCoreGate {
        ok: failed.len() == 0,
        mode: mode_norm,
        error_count: failed.len(),
        warn_count,
        failed_audit_ids: failed,
    }
}

/// A gate that is switched off, or lowered to warnings, lets every document pass.
pub proof fn soft_gate_never_fails(c: PmrContract, audits: Seq<AuditView>, mode: Seq<char>)
    requires
        mode == "off"@ || mode == "warn"@,
    ensures
        gate_errors(c, mode, audits).len() == 0,
    decreases audits.len(),
{
    if audits.len() > 0 {
        soft_gate_never_fails(c, audits.drop_last(), mode);
    }
}

/// The audit `id` failed.
pub open spec fn has_failed(audits: Seq<AuditView>, id: Seq<char>) -> bool {
    exists|i: int|
        0 <= i < audits.len() && (#[trigger] audits[i]).verdict == "fail"@ && audits[i].audit_id
            == id
}

/// A gate fails only for audits that failed.
pub proof fn gate_errors_failed(c: PmrContract, audits: Seq<AuditView>, mode: Seq<char>)
    ensures
        forall|k: int|
            0 <= k < gate_errors(c, mode, audits).len() ==> has_failed(
                audits,
                #[trigger] gate_errors(c, mode, audits)[k],
            ),
    decreases audits.len(),
{
    if audits.len() > 0 {
        let before = audits.drop_last();
        let now = gate_errors(c, mode, audits);
        gate_errors_failed(c, before, mode);
        assert forall|k: int| 0 <= k < now.len() implies has_failed(audits, #[trigger] now[k]) by {
            if k < gate_errors(c, mode, before).len() {
                let id = gate_errors(c, mode, before)[k];
                assert(has_failed(before, id));
                let i = choose|i: int|
                    0 <= i < before.len() && (#[trigger] before[i]).verdict == "fail"@
                        && before[i].audit_id == id;
                assert(audits[i] == before[i]);
            } else {
                assert(audits[audits.len() - 1] == audits.last());
            }
        }
    }
}

// ---------------------------------------------------------------------------------------------
// Report
// ---------------------------------------------------------------------------------------------
/// Something that a person still has to do.
pub struct PmrCoreManualDebtItem {
    pub id: String,
    pub reason: String,
    pub severity: String,
    pub category: Option<String>,
}

/// How much of the audits was carried out.
pub struct PmrCoreCoverage {
    pub evaluated_audit_count: usize,
    pub applicable_audit_count: usize,
    pub scored_audit_count: usize,
    pub manual_needed_count: usize,
    pub not_evaluated_audit_count: usize,
}

/// The whole report.
pub struct PmrCoreReport {
    pub profile: String,
    pub mode: String,
    pub audits: Vec<PmrCoreAudit>,
    pub categories: Vec<PmrCoreCategory>,
    pub manual_debt_item_count: usize,
    pub manual_debt_high_risk_count: usize,
    pub manual_debt_items: Vec<PmrCoreManualDebtItem>,
    pub coverage: PmrCoreCoverage,
    pub rank: PmrCoreRank,
    pub gate: PmrCoreGate,
    pub facts: A11yVerifierFacts,
}

/// How many audits have a verdict.
pub open spec fn with_verdict(audits: Seq<AuditView>, verdict: Seq<char>) -> nat
    decreases audits.len(),
{
    if audits.len() == 0 {
        0
    } else {
        with_verdict(audits.drop_last(), verdict) + (if audits.last().verdict == verdict {
            1nat
        } else {
            0nat
        })
    }
}

/// How many audits are scored.
pub open spec fn scored_count(audits: Seq<AuditView>) -> nat
    decreases audits.len(),
{
    if audits.len() == 0 {
        0
    } else {
        scored_count(audits.drop_last()) + (if audits.last().scored {
            1nat
        } else {
            0nat
        })
    }
}

/// The coverage `v` is that of the audits.
pub open spec fn covers(audits: Seq<AuditView>, v: PmrCoreCoverage) -> bool {
    &&& v.evaluated_audit_count == audits.len()
    &&& v.applicable_audit_count == audits.len() - with_verdict(audits, "not_applicable"@)
    &&& v.scored_audit_count == scored_count(audits)
    &&& v.manual_needed_count == with_verdict(audits, "manual_needed"@)
    &&& v.not_evaluated_audit_count == 0
}

/// Counts how much of the audits was carried out.
pub fn coverage_of(audits: &Vec<PmrCoreAudit>) -> (v: PmrCoreCoverage)
    ensures
        covers(audit_views(audits@), v),
{
    let ghost all = audit_views(audits@);
    let mut idle: usize = 0;
    let mut scored: usize = 0;
    let mut manual: usize = 0;
    let mut i: usize = 0;
    proof {
        assert(all.take(0) =~= Seq::empty());
    }
    while i < audits.len()
        invariant
            i <= audits@.len(),
            all == audit_views(audits@),
            idle <= i,
            scored <= i,
            manual <= i,
            idle == with_verdict(all.take(i as int), "not_applicable"@),
            scored == scored_count(all.take(i as int)),
            manual == with_verdict(all.take(i as int), "manual_needed"@),
        decreases audits@.len() - i,
    {
        let a = &audits[i];
        proof {
            assert(all.take(i + 1).drop_last() =~= all.take(i as int));
            assert(all.take(i + 1).last() == a@);
        }
        if same(&a.verdict, "not_applicable") {
            idle = idle + 1;
        }
        if a.scored {
            scored = scored + 1;
        }
        if same(&a.verdict, "manual_needed") {
            manual = manual + 1;
        }
        i += 1;
    }
    proof {
        assert(all.take(all.len() as int) =~= all);
    }
    PmrCoreCoverage {
        evaluated_audit_count: audits.len(),
        applicable_audit_count: audits.len() - idle,
        scored_audit_count: scored,
        manual_needed_count: manual,
        not_evaluated_audit_count: 0,
    }
}

/// The reviews that are still open; a negative number counts as none.
pub open spec fn open_reviews(ctx: PmrCoreContext) -> int {
    match ctx.review_queue_items {
        Some(n) => if n > 0 {
            n as int
        } else {
            0
        },
        None => 0,
    }
}

/// The manual debt of `items` open reviews.
pub open spec fn is_debt(items: int, debt: Seq<PmrCoreManualDebtItem>) -> bool {
    if items == 0 {
        debt.len() == 0
    } else {
        &&& debt.len() == 1
        &&& debt[0].id@ == "manual.transcription_quality.review_queue"@
        &&& debt[0].reason@ == decimal(items as nat)
            + " review-queue item(s) require human verification."@
        &&& debt[0].severity@ == "medium"@
        &&& debt[0].category is None
    }
}

/// The report `r` on the facts `r.facts`.
pub open spec fn reports(
    c: PmrContract,
    q: PmrQuestion,
    mode: Seq<char>,
    ctx: PmrCoreContext,
    r: PmrCoreReport,
) -> bool {
    let audits = core_audits(c, r.facts, q, ctx);
    &&& r.profile@ == q.profile@
    &&& r.mode@ == gate_mode(mode)
    &&& audit_views(r.audits@) == audits
    &&& r.categories@.len() == c.categories@.len()
    &&& forall|i: int|
        0 <= i < c.categories@.len() ==> describes(audits, c.categories@[i], #[trigger] r.categories@[i])
    &&& r.manual_debt_item_count == open_reviews(ctx)
    &&& r.manual_debt_high_risk_count == 0
    &&& is_debt(open_reviews(ctx), r.manual_debt_items@)
    &&& covers(audits, r.coverage)
    &&& ranks(r.categories@, open_reviews(ctx), r.rank)
    &&& gates(c, mode, audits, r.gate)
}

/// The audits score no verdict above a full score.
pub proof fn core_scores_in_range(
    c: PmrContract,
    f: A11yVerifierFacts,
    q: PmrQuestion,
    ctx: PmrCoreContext,
)
    ensures
        scores_in_range(core_audits(c, f, q, ctx)),
{
}

/// Ranks a document from its facts.
pub fn rank_document(
    c: &PmrContract,
    facts: A11yVerifierFacts,
    q: &PmrQuestion,
    mode: &str,
    ctx: &PmrCoreContext,
) -> (r: PmrCoreReport)
    requires
        is_complete(*c),
        open_reviews(*ctx) <= usize::MAX,
    ensures
        r.facts == facts,
        reports(*c, *q, mode@, *ctx, r),
        r.rank.score <= 10_000,
        r.rank.confidence <= 10_000,
        forall|i: int|
            0 <= i < r.categories@.len() ==> (#[trigger] r.categories@[i]).score <= 10_000
                && r.categories@[i].confidence <= 10_000,
{
    let audits = run_audits(c, &facts, q, ctx);
    proof {
        core_scores_in_range(*c, facts, *q, *ctx);
    }
    let items: usize = match ctx.review_queue_items {
        Some(n) => if n > 0 {
            n as usize
        } else {
            0
        },
        None => 0,
    };
    let mut debt: Vec<PmrCoreManualDebtItem> = Vec::new();
    if items > 0 {
        debt.push(
            PmrCoreManualDebtItem {
                id: "manual.transcription_quality.review_queue".to_owned(),
                reason: concat(
                    &count_text(items),
                    " review-queue item(s) require human verification.",
                ),
                severity: "medium".to_owned(),
                category: None,
            },
        );
    }
    let mut categories: Vec<PmrCoreCategory> = Vec::new();
    let ghost all = audit_views(audits@);
    let mut i: usize = 0;
    while i < c.categories.len()
        invariant
            i <= c.categories@.len(),
            categories@.len() == i,
            all == audit_views(audits@),
            scores_in_range(all),
            forall|k: int|
                0 <= k < i ==> describes(all, c.categories@[k], #[trigger] categories@[k])
                    && categories@[k].score <= 10_000 && categories@[k].confidence <= 10_000,
        decreases c.categories@.len() - i,
    {
        categories.push(rank_category(&audits, &c.categories[i]));
        i += 1;
    }
    let rank = rank_of(&categories, items);
    let gate = pmr_gate(c, &audits, mode);
    let coverage = coverage_of(&audits);
    PmrCoreReport {
        profile: q.profile.clone(),
        mode: gate.mode.clone(),
        audits,
        categories,
        manual_debt_item_count: items,
        manual_debt_high_risk_count: 0,
        manual_debt_items: debt,
        coverage,
        rank,
        gate,
        facts,
    }
}

} // verus!

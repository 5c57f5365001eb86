//! What the rank of a document and its gates rest on.
use vstd::prelude::*;

use crate::pmr::{def_of, defines, AuditView, PmrContract};
use crate::rank::{
    category_confidence, category_score, counts_for, earned, gate_errors, gate_mode, gate_warnings,
    gates, mark_of, possible, ranks, review_cost, rounded, score_sum, scored_size, verdict_count,
    weight_sum, GateMark, PmrCoreCategory, PmrCoreGate, PmrCoreRank,
};
use crate::text::texts;

verus! {

broadcast use vstd::string::group_string_axioms;

// ---------------------------------------------------------------------------------------------
// Gates
// ---------------------------------------------------------------------------------------------
/// The audit failed, and its definition says that a failure is an error.
pub open spec fn is_grave(c: PmrContract, a: AuditView) -> bool {
    a.verdict == "fail"@ && defines(c, a.audit_id) && def_of(c, a.audit_id).gate_level@ == "error"@
}

/// The audit failed or warned, and its definition does not switch it off.
pub open spec fn is_noted(c: PmrContract, a: AuditView) -> bool {
    &&& a.verdict == "fail"@ || a.verdict == "warn"@
    &&& !(defines(c, a.audit_id) && def_of(c, a.audit_id).gate_level@ == "off"@)
}

proof fn words_differ()
    ensures
        "error"@ != "off"@,
        "error"@.len() > 0,
        "off"@.len() > 0,
        "fail"@ != "warn"@,
        "off"@ != "warn"@,
{
    reveal_strlit("error");
    reveal_strlit("off");
    reveal_strlit("fail");
    reveal_strlit("warn");
    assert("error"@.len() == 5 && "off"@.len() == 3 && "fail"@.len() == 4 && "warn"@.len() == 4);
    assert("fail"@[0] == 'f' && "warn"@[0] == 'w');
}

proof fn errors_are_all(c: PmrContract, mode: Seq<char>, audits: Seq<AuditView>)
    ensures
        forall|i: int|
            0 <= i < audits.len() && mark_of(c, mode, #[trigger] audits[i]) == GateMark::Error
                ==> gate_errors(c, mode, audits).contains(audits[i].audit_id),
        gate_errors(c, mode, audits).len() > 0 ==> exists|i: int|
            0 <= i < audits.len() && mark_of(c, mode, #[trigger] audits[i]) == GateMark::Error,
        gate_warnings(c, mode, audits) > 0 <==> exists|i: int|
            0 <= i < audits.len() && mark_of(c, mode, #[trigger] audits[i]) == GateMark::Warning,
        gate_errors(c, mode, audits).len() + gate_warnings(c, mode, audits) <= audits.len(),
    decreases audits.len(),
{
    if audits.len() > 0 {
        let before = audits.drop_last();
        errors_are_all(c, mode, before);
        let found = gate_errors(c, mode, before);
        let now = gate_errors(c, mode, audits);
        assert forall|i: int|
            0 <= i < audits.len() && mark_of(c, mode, #[trigger] audits[i])
                == GateMark::Error implies now.contains(audits[i].audit_id) by {
            if i < before.len() {
                assert(before[i] == audits[i]);
                let k = choose|k: int| 0 <= k < found.len() && found[k] == before[i].audit_id;
                assert(now[k] == found[k]);
            } else {
                assert(now[now.len() - 1] == audits[i].audit_id);
            }
        }
        assert(audits[audits.len() - 1] == audits.last());
        if found.len() > 0 {
            let i = choose|i: int|
                0 <= i < before.len() && mark_of(c, mode, #[trigger] before[i]) == GateMark::Error;
            assert(audits[i] == before[i]);
        }
        if gate_warnings(c, mode, before) > 0 {
            let i = choose|i: int|
                0 <= i < before.len() && mark_of(c, mode, #[trigger] before[i])
                    == GateMark::Warning;
            assert(audits[i] == before[i]);
        }
        if exists|i: int|
            0 <= i < audits.len() && mark_of(c, mode, #[trigger] audits[i]) == GateMark::Warning {
            let i = choose|i: int|
                0 <= i < audits.len() && mark_of(c, mode, #[trigger] audits[i])
                    == GateMark::Warning;
            if i < before.len() {
                assert(before[i] == audits[i]);
            }
        }
    }
}

/// A gate is closed if and only if it is neither switched off nor lowered to warnings and an audit
/// failed whose definition makes that an error; each such audit is named. A gate that is not
/// switched off counts a warning for every other audit that failed or warned.
pub proof fn gates_close_for_grave_audits(
    c: PmrContract,
    mode: Seq<char>,
    audits: Seq<AuditView>,
    g: PmrCoreGate,
)
    requires
        gates(c, mode, audits, g),
    ensures
        ({
            let m = gate_mode(mode);
            let strict = m != "off"@ && m != "warn"@;
            let grave = exists|i: int| 0 <= i < audits.len() && #[trigger] is_grave(c, audits[i]);
            &&& !g.ok <==> strict && grave
            &&& g.ok <==> g.error_count == 0
            &&& forall|i: int|
                strict && 0 <= i < audits.len() && #[trigger] is_grave(c, audits[i]) ==> texts(
                    g.failed_audit_ids@,
                ).contains(audits[i].audit_id)
            &&& g.warn_count > 0 <==> m != "off"@ && exists|i: int|
                0 <= i < audits.len() && #[trigger] is_noted(c, audits[i]) && !(strict && is_grave(
                    c,
                    audits[i],
                ))
        }),
{
    words_differ();
    let m = gate_mode(mode);
    let strict = m != "off"@ && m != "warn"@;
    errors_are_all(c, m, audits);
    assert forall|i: int| 0 <= i < audits.len() implies (mark_of(c, m, #[trigger] audits[i])
        == GateMark::Error) == (strict && is_grave(c, audits[i])) && (mark_of(c, m, audits[i])
        == GateMark::Warning) == (m != "off"@ && is_noted(c, audits[i]) && !(strict && is_grave(
        c,
        audits[i],
    ))) by {}
    if gate_errors(c, m, audits).len() > 0 {
        let i = choose|i: int|
            0 <= i < audits.len() && mark_of(c, m, #[trigger] audits[i]) == GateMark::Error;
        assert(is_grave(c, audits[i]));
    }
    if strict && exists|i: int| 0 <= i < audits.len() && #[trigger] is_grave(c, audits[i]) {
        let i = choose|i: int| 0 <= i < audits.len() && #[trigger] is_grave(c, audits[i]);
        assert(mark_of(c, m, audits[i]) == GateMark::Error);
        assert(gate_errors(c, m, audits).contains(audits[i].audit_id));
    }
    if gate_warnings(c, m, audits) > 0 {
        let i = choose|i: int|
            0 <= i < audits.len() && mark_of(c, m, #[trigger] audits[i]) == GateMark::Warning;
        assert(is_noted(c, audits[i]));
    }
}

// ---------------------------------------------------------------------------------------------
// Scores
// ---------------------------------------------------------------------------------------------
/// The two lists hold the same audits, and none of them scores less in the second.
pub open spec fn is_no_worse(a: Seq<AuditView>, b: Seq<AuditView>) -> bool {
    &&& a.len() == b.len()
    &&& forall|i: int|
        0 <= i < a.len() ==> {
            &&& (#[trigger] a[i]).category == b[i].category
            &&& a[i].scored == b[i].scored
            &&& a[i].weight == b[i].weight
            &&& a[i].score is Some == b[i].score is Some
            &&& a[i].score is Some ==> a[i].score->0 <= b[i].score->0
        }
}

proof fn better_earns_more(a: Seq<AuditView>, b: Seq<AuditView>, cat: Seq<char>)
    requires
        is_no_worse(a, b),
    ensures
        scored_size(a, cat) == scored_size(b, cat),
        possible(a, cat) == possible(b, cat),
        earned(a, cat) <= earned(b, cat),
    decreases a.len(),
{
    if a.len() > 0 {
        let x = a.drop_last();
        let y = b.drop_last();
        assert forall|i: int| 0 <= i < x.len() implies {
            &&& (#[trigger] x[i]).category == y[i].category
            &&& x[i].scored == y[i].scored
            &&& x[i].weight == y[i].weight
            &&& x[i].score is Some == y[i].score is Some
            &&& x[i].score is Some ==> x[i].score->0 <= y[i].score->0
        } by {
            assert(x[i] == a[i] && y[i] == b[i]);
        }
        better_earns_more(x, y, cat);
        let i = a.len() - 1;
        assert(a[i].weight == b[i].weight);
        if counts_for(a[i], cat) {
            let s = a[i].score->0;
            let t = b[i].score->0;
            let w = a[i].weight;
            assert(s * w <= t * w) by (nonlinear_arith)
                requires
                    s <= t,
            ;
        }
    }
}

proof fn earned_is_full(a: Seq<AuditView>, cat: Seq<char>, level: nat)
    requires
        forall|i: int|
            0 <= i < a.len() && counts_for(#[trigger] a[i], cat) ==> a[i].score->0 == level,
    ensures
        earned(a, cat) == level * possible(a, cat),
    decreases a.len(),
{
    if a.len() > 0 {
        let x = a.drop_last();
        assert forall|i: int| 0 <= i < x.len() && counts_for(#[trigger] x[i], cat) implies x[i].score->0
            == level by {
            assert(x[i] == a[i]);
        }
        earned_is_full(x, cat, level);
        let l = a[a.len() - 1];
        if counts_for(l, cat) {
            let w = l.weight;
            let before = possible(x, cat);
            assert(level * w + level * before == level * (before + w)) by (nonlinear_arith);
        }
    } else {
        assert(level * 0 == 0) by (nonlinear_arith);
    }
}

/// Where no audit scores less, no category does. A category in which every audit that counts has
/// its full score has the full score itself, one in which every audit has none has none, and half
/// scores throughout give half.
pub proof fn better_audits_score_no_less(a: Seq<AuditView>, b: Seq<AuditView>, cat: Seq<char>)
    requires
        is_no_worse(a, b),
    ensures
        category_score(a, cat) <= category_score(b, cat),
        possible(a, cat) > 0 && (forall|i: int|
            0 <= i < a.len() && counts_for(#[trigger] a[i], cat) ==> a[i].score->0 == 2)
            ==> category_score(a, cat) == 10_000,
        possible(a, cat) > 0 && (forall|i: int|
            0 <= i < a.len() && counts_for(#[trigger] a[i], cat) ==> a[i].score->0 == 1)
            ==> category_score(a, cat) == 5_000,
        possible(a, cat) > 0 && (forall|i: int|
            0 <= i < a.len() && counts_for(#[trigger] a[i], cat) ==> a[i].score->0 == 0)
            ==> category_score(a, cat) == 0,
        (forall|i: int| 0 <= i < a.len() ==> !counts_for(#[trigger] a[i], cat)) ==> category_score(
            a,
            cat,
        ) == 10_000,
{
    better_earns_more(a, b, cat);
    let p = possible(a, cat) as int;
    let x = earned(a, cat) as int;
    let y = earned(b, cat) as int;
    if p > 0 {
        counting_means_scored(a, cat);
        assert(rounded(10_000 * x, 2 * p) <= rounded(10_000 * y, 2 * p)) by (nonlinear_arith)
            requires
                x <= y,
                p > 0,
        ;
        if forall|i: int|
            0 <= i < a.len() && counts_for(#[trigger] a[i], cat) ==> a[i].score->0 == 2 {
            earned_is_full(a, cat, 2);
            assert(rounded(10_000 * (2 * p), 2 * p) == 10_000) by (nonlinear_arith)
                requires
                    p > 0,
            ;
        }
        if forall|i: int|
            0 <= i < a.len() && counts_for(#[trigger] a[i], cat) ==> a[i].score->0 == 1 {
            earned_is_full(a, cat, 1);
            assert(1 * p == p) by (nonlinear_arith);
            assert(rounded(10_000 * p, 2 * p) == 5_000) by (nonlinear_arith)
                requires
                    p > 0,
            ;
        }
        if forall|i: int|
            0 <= i < a.len() && counts_for(#[trigger] a[i], cat) ==> a[i].score->0 == 0 {
            earned_is_full(a, cat, 0);
            assert(0 * p == 0) by (nonlinear_arith);
            assert(rounded(0, 2 * p) == 0) by (nonlinear_arith)
                requires
                    p > 0,
            ;
        }
    }
    if forall|i: int| 0 <= i < a.len() ==> !counts_for(#[trigger] a[i], cat) {
        nothing_counts(a, cat);
    }
}

proof fn counting_means_scored(a: Seq<AuditView>, cat: Seq<char>)
    ensures
        possible(a, cat) > 0 ==> scored_size(a, cat) > 0,
    decreases a.len(),
{
    if a.len() > 0 {
        counting_means_scored(a.drop_last(), cat);
    }
}

proof fn nothing_counts(a: Seq<AuditView>, cat: Seq<char>)
    requires
        forall|i: int| 0 <= i < a.len() ==> !counts_for(#[trigger] a[i], cat),
    ensures
        scored_size(a, cat) == 0,
    decreases a.len(),
{
    if a.len() > 0 {
        let x = a.drop_last();
        assert forall|i: int| 0 <= i < x.len() implies !counts_for(#[trigger] x[i], cat) by {
            assert(x[i] == a[i]);
        }
        assert(!counts_for(a[a.len() - 1], cat));
        nothing_counts(x, cat);
    }
}

/// Every audit that needs a person costs ten points of confidence, every failure five and every
/// warning three, down to none.
pub proof fn doubts_cost_confidence(a: Seq<AuditView>, cat: Seq<char>)
    ensures
        ({
            let manual = verdict_count(a, cat, "manual_needed"@);
            let warned = verdict_count(a, cat, "warn"@);
            let failed = verdict_count(a, cat, "fail"@);
            let lost = 1_000 * manual + 500 * failed + 300 * warned;
            &&& lost <= 10_000 ==> category_confidence(a, cat) + lost == 10_000
            &&& lost > 10_000 ==> category_confidence(a, cat) == 0
        }),
{
}

proof fn sums_are_between(cats: Seq<PmrCoreCategory>, lo: int, hi: int)
    requires
        forall|i: int| 0 <= i < cats.len() ==> lo <= (#[trigger] cats[i]).score <= hi,
        0 <= lo <= hi,
    ensures
        lo * weight_sum(cats) <= score_sum(cats) <= hi * weight_sum(cats),
    decreases cats.len(),
{
    if cats.len() > 0 {
        let x = cats.drop_last();
        assert forall|i: int| 0 <= i < x.len() implies lo <= (#[trigger] x[i]).score <= hi by {
            assert(x[i] == cats[i]);
        }
        sums_are_between(x, lo, hi);
        let l = cats[cats.len() - 1];
        let s = l.score as int;
        let w = l.weight as int;
        let b = weight_sum(x) as int;
        assert(lo * (b + w) <= lo * b + s * w && hi * b + s * w <= hi * (b + w)) by (nonlinear_arith)
            requires
                lo <= s <= hi,
                w >= 0,
        ;
    } else {
        assert(lo * 0 == 0 && hi * 0 == 0) by (nonlinear_arith);
    }
}

/// The score of a document lies between the lowest and the highest score of its categories; the
/// name of a score follows the score.
pub proof fn rank_lies_between_its_categories(
    cats: Seq<PmrCoreCategory>,
    items: int,
    r: PmrCoreRank,
    lo: int,
    hi: int,
)
    requires
        ranks(cats, items, r),
        weight_sum(cats) > 0,
        forall|i: int| 0 <= i < cats.len() ==> lo <= (#[trigger] cats[i]).score <= hi,
        0 <= lo <= hi,
    ensures
        lo <= r.score <= hi,
        r.raw_score == r.score,
        lo >= 9_500 ==> r.band@ == "excellent"@,
        8_500 <= lo && hi < 9_500 ==> r.band@ == "good"@,
        7_000 <= lo && hi < 8_500 ==> r.band@ == "watch"@,
        hi < 7_000 ==> r.band@ == "poor"@,
{
    sums_are_between(cats, lo, hi);
    let den = weight_sum(cats) as int;
    let sum = score_sum(cats) as int;
    assert(lo <= rounded(sum, den) <= hi) by (nonlinear_arith)
        requires
            lo * den <= sum <= hi * den,
            den > 0,
    ;
    assert(lo >= 9_500 ==> lo * den >= 9_500 * den) by (nonlinear_arith)
        requires
            den > 0,
    ;
    assert(lo >= 8_500 ==> lo * den >= 8_500 * den) by (nonlinear_arith)
        requires
            den > 0,
    ;
    assert(lo >= 7_000 ==> lo * den >= 7_000 * den) by (nonlinear_arith)
        requires
            den > 0,
    ;
    assert(hi < 9_500 ==> hi * den < 9_500 * den) by (nonlinear_arith)
        requires
            den > 0,
    ;
    assert(hi < 8_500 ==> hi * den < 8_500 * den) by (nonlinear_arith)
        requires
            den > 0,
    ;
    assert(hi < 7_000 ==> hi * den < 7_000 * den) by (nonlinear_arith)
        requires
            den > 0,
    ;
}

/// Open reviews cost three points each, and twenty-five at most.
pub proof fn reviews_cost_three_points(items: int)
    ensures
        0 <= items <= 8 ==> review_cost(items) == 3 * 100 * items,
        items >= 9 ==> review_cost(items) == 25 * 100,
        items < 0 ==> review_cost(items) == 0,
{
}

} // verus!

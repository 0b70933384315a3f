//! Per-dimension scoring functions for the 8 Forjar Score dimensions.
//!
//! The PRF, DOC and RES ratios are compared as the binary64 quotients they are
//! computed as, and the OBS coverage as the binary64 product it is computed
//! as, with the rounding worked out in integers.

use vstd::prelude::*;

use crate::qualify::IdempotencyClass;
use crate::recipe_score::config::{
    entries_get, field_str, get_field, has_depends_on, has_field, has_resource_group,
    has_tags, has_template, opt_text, prefer, resource_str, untag, untagged, uses_template,
    NamedValue, PolicyConfig, RecipeConfig, YamlValue,
};
use crate::duration::{f64_value, f64_value_exec};
use crate::recipe_score::ScoringInput;
use crate::score::{penalties_view, Penalty, PenaltyView, RuntimeData};
use crate::text::{
    chars_eq_str, chars_of, contains, contains_str, decimal, is_ws, lead_ws, lemma_lead_ws,
    push_decimal_str, push_str, trim_start,
};

verus! {

broadcast use vstd::string::group_string_axioms;

/// `pts` clamped to 0–100.
pub open spec fn clamp(pts: int) -> u32 {
    if pts < 0 {
        0
    } else if pts > 100 {
        100
    } else {
        pts as u32
    }
}

/// Clamp a signed score to 0–100.
pub fn clamp_score(pts: i32) -> (s: u32)
    ensures
        s == clamp(pts as int),
{
    if pts < 0 {
        0
    } else if pts > 100 {
        100
    } else {
        pts as u32
    }
}

/// A penalty of the given dimension, points and reason.
pub open spec fn penalty(dimension: Seq<char>, points: i32, reason: Seq<char>) -> PenaltyView {
    PenaltyView { dimension, points, reason }
}

/// Total points of a list of penalties.
pub open spec fn points_sum(ps: Seq<PenaltyView>) -> int
    decreases ps.len(),
{
    if ps.len() == 0 {
        0
    } else {
        points_sum(ps.drop_last()) + ps.last().points
    }
}

/// Points add up over concatenation.
pub proof fn lemma_points_sum_concat(a: Seq<PenaltyView>, b: Seq<PenaltyView>)
    ensures
        points_sum(a + b) == points_sum(a) + points_sum(b),
    decreases b.len(),
{
    if b.len() > 0 {
        lemma_points_sum_concat(a, b.drop_last());
        assert((a + b).drop_last() =~= a + b.drop_last());
    } else {
        assert(a + b =~= a);
    }
}

/// Makes a penalty.
fn make_penalty(dimension: &str, points: i32, reason: &str) -> (p: Penalty)
    ensures
        p@ == penalty(dimension@, points, reason@),
{
    Penalty { dimension: dimension.to_string(), points, reason: reason.to_string() }
}

/// Appends a penalty to the list.
fn add_penalty(penalties: &mut Vec<Penalty>, p: Penalty)
    ensures
        penalties_view(final(penalties)@) == penalties_view(old(penalties)@).push(p@),
{
    penalties.push(p);
    assert(penalties_view(penalties@) =~= penalties_view(old(penalties)@).push(p@));
}

// ── COR ──────────────────────────────────────────────────────────

/// Points taken for warnings: 2 each, at most 10.
pub open spec fn warn_penalty(rt: RuntimeData) -> int {
    2 * (if rt.warning_count <= 5 {
        rt.warning_count as int
    } else {
        5
    })
}

/// Correctness points before clamping.
pub open spec fn cor_points(rt: RuntimeData) -> int {
    (if rt.validate_pass {
        20int
    } else {
        0
    }) + (if rt.plan_pass {
        20int
    } else {
        0
    }) + (if rt.first_apply_pass {
        40int
    } else {
        0
    }) + (if rt.all_resources_converged {
        10int
    } else {
        0
    }) + (if rt.state_lock_written {
        10int
    } else {
        0
    }) - warn_penalty(rt)
}

/// COR score: 0 without runtime data.
pub open spec fn cor_score(input: ScoringInput) -> u32 {
    match input.runtime {
        None => 0,
        Some(rt) => clamp(cor_points(*rt)),
    }
}

/// COR penalties: one for warnings, when there are any.
pub open spec fn cor_penalties(input: ScoringInput) -> Seq<PenaltyView> {
    match input.runtime {
        None => Seq::empty(),
        Some(rt) => if warn_penalty(*rt) > 0 {
            seq![
                penalty(
                    "COR"@,
                    warn_penalty(*rt) as i32,
                    decimal(rt.warning_count as nat) + " warning(s) during apply"@,
                ),
            ]
        } else {
            Seq::empty()
        },
    }
}

/// COR — Correctness (20%).
pub fn score_cor(input: &ScoringInput, penalties: &mut Vec<Penalty>) -> (s: u32)
    ensures
        s == cor_score(*input),
        penalties_view(final(penalties)@) == penalties_view(old(penalties)@) + cor_penalties(*input),
{
    let rt = match input.runtime {
        None => {
            assert(penalties_view(penalties@) =~= penalties_view(old(penalties)@) + cor_penalties(*input));
            return 0;
        },
        Some(rt) => rt,
    };
    let mut pts: i32 = 0;
    if rt.validate_pass {
        pts += 20;
    }
    if rt.plan_pass {
        pts += 20;
    }
    if rt.first_apply_pass {
        pts += 40;
    }
    if rt.all_resources_converged {
        pts += 10;
    }
    if rt.state_lock_written {
        pts += 10;
    }
    let capped: u32 = if rt.warning_count <= 5 {
        rt.warning_count
    } else {
        5
    };
    let warn_penalty: i32 = (capped as i32) * 2;
    if warn_penalty > 0 {
        let mut reason = String::new();
        push_decimal_str(&mut reason, rt.warning_count as u128);
        push_str(&mut reason, " warning(s) during apply");
        add_penalty(
            penalties,
            Penalty { dimension: "COR".to_string(), points: warn_penalty, reason },
        );
        pts -= warn_penalty;
    } else {
        assert(penalties_view(penalties@) =~= penalties_view(old(penalties)@) + cor_penalties(*input));
    }
    clamp_score(pts)
}

// ── IDM ──────────────────────────────────────────────────────────

/// Bonus points of an idempotency class.
pub open spec fn class_bonus(c: IdempotencyClass) -> int {
    match c {
        IdempotencyClass::Strong => 20,
        IdempotencyClass::Weak => 10,
        IdempotencyClass::Eventual => 0,
    }
}

/// Points taken for resources changed on re-apply: 10 each; a count beyond
/// `i32::MAX` counts as 10.
pub open spec fn idm_deduction(rt: RuntimeData) -> int {
    if rt.changed_on_reapply == 0 {
        0
    } else if rt.changed_on_reapply <= i32::MAX {
        10 * rt.changed_on_reapply
    } else {
        100
    }
}

/// The deduction fits an `i32` (the product `count * 10` is taken in `i32`).
pub open spec fn idm_in_range(input: ScoringInput) -> bool {
    match input.runtime {
        None => true,
        Some(rt) => rt.changed_on_reapply <= 214748364 || rt.changed_on_reapply > i32::MAX,
    }
}

/// Idempotency points before clamping.
pub open spec fn idm_points(rt: RuntimeData, c: IdempotencyClass) -> int {
    (if rt.second_apply_pass {
        30int
    } else {
        0
    }) + (if rt.zero_changes {
        30int
    } else {
        0
    }) + (if rt.hash_stable {
        20int
    } else {
        0
    }) + class_bonus(c) - idm_deduction(rt)
}

/// IDM score: 0 without runtime data.
pub open spec fn idm_score(input: ScoringInput) -> u32 {
    match input.runtime {
        None => 0,
        Some(rt) => clamp(idm_points(*rt, *input.idempotency_class)),
    }
}

/// IDM penalties: one for resources changed on re-apply, when there are any.
pub open spec fn idm_penalties(input: ScoringInput) -> Seq<PenaltyView> {
    match input.runtime {
        None => Seq::empty(),
        Some(rt) => if rt.changed_on_reapply > 0 {
            seq![
                penalty(
                    "IDM"@,
                    idm_deduction(*rt) as i32,
                    decimal(rt.changed_on_reapply as nat) + " resource(s) changed on re-apply"@,
                ),
            ]
        } else {
            Seq::empty()
        },
    }
}

/// IDM — Idempotency (20%).
pub fn score_idm(input: &ScoringInput, penalties: &mut Vec<Penalty>) -> (s: u32)
    requires
        idm_in_range(*input),
    ensures
        s == idm_score(*input),
        penalties_view(final(penalties)@) == penalties_view(old(penalties)@) + idm_penalties(*input),
{
    let rt = match input.runtime {
        None => {
            assert(penalties_view(penalties@) =~= penalties_view(old(penalties)@) + idm_penalties(*input));
            return 0;
        },
        Some(rt) => rt,
    };
    let mut pts: i32 = 0;
    if rt.second_apply_pass {
        pts += 30;
    }
    if rt.zero_changes {
        pts += 30;
    }
    if rt.hash_stable {
        pts += 20;
    }
    match input.idempotency_class {
        IdempotencyClass::Strong => pts += 20,
        IdempotencyClass::Weak => pts += 10,
        IdempotencyClass::Eventual => {},
    }
    if rt.changed_on_reapply > 0 {
        let base: i32 = if rt.changed_on_reapply <= 0x7fff_ffff {
            rt.changed_on_reapply as i32
        } else {
            10
        };
        let deduction: i32 = base * 10;
        let mut reason = String::new();
        push_decimal_str(&mut reason, rt.changed_on_reapply as u128);
        push_str(&mut reason, " resource(s) changed on re-apply");
        add_penalty(penalties, Penalty { dimension: "IDM".to_string(), points: deduction, reason });
        pts -= deduction;
    } else {
        assert(penalties_view(penalties@) =~= penalties_view(old(penalties)@) + idm_penalties(*input));
    }
    clamp_score(pts)
}

// ── PRF ──────────────────────────────────────────────────────────

/// Whether `x as f64 / y as f64 <= c`, for a binary64 constant `c` with an
/// even mantissa whose midpoint to the next binary64 value above is `t / p`:
/// the correctly rounded quotient is at most `c` exactly when the exact
/// quotient of the two converted values is at most that midpoint.
pub open spec fn f64_quotient_at_most(x: u64, y: u64, t: nat, p: nat) -> bool {
    f64_value(x as nat) * p <= f64_value(y as nat) * t
}

/// Points for the first apply against the budget (ratio `first as f64 / budget
/// as f64` at most 0.50: 50, 0.75: 40, 1.00: 30, 1.50: 15); without a budget a
/// measured apply counts as on budget.
pub open spec fn prf_budget_points(first: u64, budget: u64) -> int {
    if budget > 0 && first > 0 {
        if f64_quotient_at_most(first, budget, 0x20000000000001, 0x40000000000000) {
            50
        } else if f64_quotient_at_most(first, budget, 0x30000000000001, 0x40000000000000) {
            40
        } else if f64_quotient_at_most(first, budget, 0x20000000000001, 0x20000000000000) {
            30
        } else if f64_quotient_at_most(first, budget, 0x30000000000001, 0x20000000000000) {
            15
        } else {
            0
        }
    } else if first > 0 {
        30
    } else {
        0
    }
}

/// Points for the idempotent apply time (≤ 2 s: 30, ≤ 5 s: 25, ≤ 10 s: 15).
pub open spec fn prf_idem_points(idem: u64) -> int {
    if idem > 0 {
        if idem <= 2000 {
            30
        } else if idem <= 5000 {
            25
        } else if idem <= 10000 {
            15
        } else {
            0
        }
    } else {
        0
    }
}

/// Points for the ratio `idem as f64 / first as f64` (at most 0.05: 20,
/// 0.10: 15, 0.25: 10).
pub open spec fn prf_ratio_points(first: u64, idem: u64) -> int {
    if first > 0 && idem > 0 {
        if f64_quotient_at_most(idem, first, 14411518807585589, 0x400000000000000) {
            20
        } else if f64_quotient_at_most(idem, first, 14411518807585589, 0x200000000000000) {
            15
        } else if f64_quotient_at_most(idem, first, 0x20000000000001, 0x80000000000000) {
            10
        } else {
            0
        }
    } else {
        0
    }
}

/// PRF score: 0 without runtime data.
pub open spec fn prf_score(input: ScoringInput) -> u32 {
    match input.runtime {
        None => 0,
        Some(rt) => clamp(
            prf_budget_points(rt.first_apply_ms, input.budget_ms) + prf_idem_points(
                rt.idempotent_apply_ms,
            ) + prf_ratio_points(rt.first_apply_ms, rt.idempotent_apply_ms),
        ),
    }
}

/// Whether `x as f64 / y as f64` is at most the constant whose rounding
/// midpoint above is `t / p` (see `f64_quotient_at_most`).
fn quotient_at_most(x: u64, y: u64, t: u128, p: u128) -> (b: bool)
    requires
        t <= 0x400000000000000,
        p <= 0x400000000000000,
    ensures
        b == f64_quotient_at_most(x, y, t as nat, p as nat),
{
    let (a, c) = scaled_values(x, y, t, p);
    a <= c
}

/// Whether `x as f64 / y as f64 >= c`, for a binary64 constant `c` with an
/// even mantissa whose midpoint to the next binary64 value below is `t / p`:
/// the rounded quotient reaches `c` exactly when the exact quotient of the
/// converted values reaches that midpoint (a tie rounds to `c`).
pub open spec fn f64_quotient_at_least(x: nat, y: nat, t: nat, p: nat) -> bool {
    f64_value(x) * p >= f64_value(y) * t
}

/// Whether `x as f64 / y as f64 >= c`, for a binary64 constant `c` with an odd
/// mantissa whose midpoint to the next binary64 value below is `t / p`: the
/// exact quotient must pass that midpoint (a tie rounds away from `c`).
pub open spec fn f64_quotient_above(x: nat, y: nat, t: nat, p: nat) -> bool {
    f64_value(x) * p > f64_value(y) * t
}

/// The converted values `x as f64` and `y as f64`, each times its factor.
fn scaled_values(x: u64, y: u64, t: u128, p: u128) -> (r: (u128, u128))
    requires
        t <= 0x400000000000000,
        p <= 0x400000000000000,
    ensures
        r.0 == f64_value(x as nat) * p,
        r.1 == f64_value(y as nat) * t,
{
    let xv = f64_value_exec(x);
    let yv = f64_value_exec(y);
    proof {
        assert(xv * p <= (0x10000000000000000 + 2048) * 0x400000000000000) by (nonlinear_arith)
            requires
                xv <= 0x10000000000000000 + 2048,
                p <= 0x400000000000000,
        ;
        assert(yv * t <= (0x10000000000000000 + 2048) * 0x400000000000000) by (nonlinear_arith)
            requires
                yv <= 0x10000000000000000 + 2048,
                t <= 0x400000000000000,
        ;
    }
    (xv * p, yv * t)
}

/// Whether `x as f64 / y as f64` reaches the even-mantissa constant with lower midpoint `t / p`.
fn quotient_at_least(x: u64, y: u64, t: u128, p: u128) -> (b: bool)
    requires
        t <= 0x400000000000000,
        p <= 0x400000000000000,
    ensures
        b == f64_quotient_at_least(x as nat, y as nat, t as nat, p as nat),
{
    let (a, c) = scaled_values(x, y, t, p);
    a >= c
}

/// Whether `x as f64 / y as f64` reaches the odd-mantissa constant with lower midpoint `t / p`.
fn quotient_above(x: u64, y: u64, t: u128, p: u128) -> (b: bool)
    requires
        t <= 0x400000000000000,
        p <= 0x400000000000000,
    ensures
        b == f64_quotient_above(x as nat, y as nat, t as nat, p as nat),
{
    let (a, c) = scaled_values(x, y, t, p);
    a > c
}

/// PRF — Performance (15%).
pub fn score_prf(input: &ScoringInput) -> (s: u32)
    ensures
        s == prf_score(*input),
{
    let rt = match input.runtime {
        None => {
            return 0;
        },
        Some(rt) => rt,
    };
    let first = rt.first_apply_ms;
    let idem = rt.idempotent_apply_ms;
    let budget = input.budget_ms;
    let mut pts: i32 = 0;
    if budget > 0 && first > 0 {
        if quotient_at_most(first, budget, 0x20000000000001, 0x40000000000000) {
            pts += 50;
        } else if quotient_at_most(first, budget, 0x30000000000001, 0x40000000000000) {
            pts += 40;
        } else if quotient_at_most(first, budget, 0x20000000000001, 0x20000000000000) {
            pts += 30;
        } else if quotient_at_most(first, budget, 0x30000000000001, 0x20000000000000) {
            pts += 15;
        }
    } else if first > 0 {
        pts += 30;
    }
    if idem > 0 {
        if idem <= 2000 {
            pts += 30;
        } else if idem <= 5000 {
            pts += 25;
        } else if idem <= 10000 {
            pts += 15;
        }
    }
    if first > 0 && idem > 0 {
        if quotient_at_most(idem, first, 14411518807585589, 0x400000000000000) {
            pts += 20;
        } else if quotient_at_most(idem, first, 14411518807585589, 0x200000000000000) {
            pts += 15;
        } else if quotient_at_most(idem, first, 0x20000000000001, 0x80000000000000) {
            pts += 10;
        }
    }
    clamp_score(pts)
}

// ── SAF ──────────────────────────────────────────────────────────

/// The resource's `type` field is the given text.
pub open spec fn is_kind(v: YamlValue, kind: Seq<char>) -> bool {
    field_str(v, "type"@) == Some(kind)
}

/// Penalties of one file resource: mode 0777 (30), no mode (5), no owner (3).
pub open spec fn file_penalties(v: YamlValue) -> Seq<PenaltyView> {
    let mode = field_str(v, "mode"@);
    let owner = field_str(v, "owner"@);
    (if mode == Some("0777"@) {
        seq![penalty("SAF"@, 30, "file with mode 0777"@)]
    } else {
        Seq::empty()
    }) + (if mode is None {
        seq![penalty("SAF"@, 5, "file without explicit mode"@)]
    } else {
        Seq::empty()
    }) + (if owner is None {
        seq![penalty("SAF"@, 3, "file without explicit owner"@)]
    } else {
        Seq::empty()
    })
}

/// Penalties of the file resources, in resource order.
pub open spec fn files_penalties(rs: Seq<NamedValue>) -> Seq<PenaltyView>
    decreases rs.len(),
{
    if rs.len() == 0 {
        Seq::empty()
    } else {
        files_penalties(rs.drop_last()) + if is_kind(rs.last().value, "file"@) {
            file_penalties(rs.last().value)
        } else {
            Seq::empty()
        }
    }
}

/// The raw YAML mentions both `curl` and `bash`.
pub open spec fn curl_bash(raw: Seq<char>) -> bool {
    contains(raw, "curl"@) && contains(raw, "bash"@)
}

/// Penalties of the package resources without a version pin (3 each), in order.
pub open spec fn packages_penalties(rs: Seq<NamedValue>) -> Seq<PenaltyView>
    decreases rs.len(),
{
    if rs.len() == 0 {
        Seq::empty()
    } else {
        packages_penalties(rs.drop_last()) + if is_kind(rs.last().value, "package"@) && field_str(
            rs.last().value,
            "version"@,
        ) is None {
            seq![penalty("SAF"@, 3, "package without version pin"@)]
        } else {
            Seq::empty()
        }
    }
}

/// All SAF penalties: file resources, then `curl|bash` (30), then packages.
pub open spec fn saf_penalties(input: ScoringInput) -> Seq<PenaltyView> {
    files_penalties(input.config.resources@) + (if curl_bash(input.raw_yaml@) {
        seq![penalty("SAF"@, 30, "curl|bash pattern detected"@)]
    } else {
        Seq::empty()
    }) + packages_penalties(input.config.resources@)
}

/// Some file resource has mode 0777.
pub open spec fn has_0777_file(rs: Seq<NamedValue>) -> bool {
    exists|i: int|
        0 <= i < rs.len() && is_kind(#[trigger] rs[i].value, "file"@) && field_str(
            rs[i].value,
            "mode"@,
        ) == Some("0777"@)
}

/// A critical violation: a file with mode 0777, or `curl|bash`.
pub open spec fn saf_critical(input: ScoringInput) -> bool {
    has_0777_file(input.config.resources@) || curl_bash(input.raw_yaml@)
}

/// SAF score: 100 less the penalty points, clamped; at most 40 with a critical violation.
pub open spec fn saf_score(input: ScoringInput) -> u32 {
    let s = clamp(100 - points_sum(saf_penalties(input)));
    if saf_critical(input) && s > 40 {
        40
    } else {
        s
    }
}

/// The penalty points fit the `i32` running total.
pub open spec fn saf_in_range(input: ScoringInput) -> bool {
    100 - points_sum(saf_penalties(input)) >= i32::MIN
}

/// Penalty points are never negative, and sums only grow along a list.
proof fn lemma_points_nonneg(rs: Seq<NamedValue>)
    ensures
        points_sum(files_penalties(rs)) >= 0,
        points_sum(packages_penalties(rs)) >= 0,
        points_sum(files_penalties(rs)) <= 38 * rs.len(),
        points_sum(packages_penalties(rs)) <= 3 * rs.len(),
    decreases rs.len(),
{
    if rs.len() > 0 {
        lemma_points_nonneg(rs.drop_last());
        let v = rs.last().value;
        let fp = file_penalties(v);
        reveal_with_fuel(points_sum, 4);
        lemma_points_sum_concat(files_penalties(rs.drop_last()), if is_kind(v, "file"@) {
            fp
        } else {
            Seq::empty()
        });
        lemma_file_penalties_points(v);
        lemma_points_sum_concat(packages_penalties(rs.drop_last()), if is_kind(v, "package"@)
            && field_str(v, "version"@) is None {
            seq![penalty("SAF"@, 3, "package without version pin"@)]
        } else {
            Seq::empty()
        });
    }
}

/// One file resource costs between 0 and 38 points.
proof fn lemma_file_penalties_points(v: YamlValue)
    ensures
        0 <= points_sum(file_penalties(v)) <= 38,
{
    let mode = field_str(v, "mode"@);
    let owner = field_str(v, "owner"@);
    let a = if mode == Some("0777"@) {
        seq![penalty("SAF"@, 30, "file with mode 0777"@)]
    } else {
        Seq::empty()
    };
    let b = if mode is None {
        seq![penalty("SAF"@, 5, "file without explicit mode"@)]
    } else {
        Seq::empty()
    };
    let c = if owner is None {
        seq![penalty("SAF"@, 3, "file without explicit owner"@)]
    } else {
        Seq::empty()
    };
    reveal_with_fuel(points_sum, 2);
    lemma_points_sum_concat(a, b);
    lemma_points_sum_concat(a + b, c);
    assert(mode == Some("0777"@) ==> !(mode is None));
}

/// Appends the penalties of one file resource; returns the points they cost
/// and whether the mode is 0777.
fn file_resource_penalties(v: &YamlValue, penalties: &mut Vec<Penalty>) -> (r: (i32, bool))
    ensures
        penalties_view(final(penalties)@) == penalties_view(old(penalties)@) + file_penalties(*v),
        r.0 == points_sum(file_penalties(*v)),
        r.1 == (field_str(*v, "mode"@) == Some("0777"@)),
{
    let ghost start = penalties_view(penalties@);
    let mode = resource_str(v, "mode");
    let owner = resource_str(v, "owner");
    let mut cost: i32 = 0;
    let mut critical = false;
    let ghost mut added: Seq<PenaltyView> = Seq::empty();
    let is_0777 = match &mode {
        Some(m) => {
            let mc = chars_of(m.as_str());
            chars_eq_str(&mc, "0777")
        },
        None => false,
    };
    if is_0777 {
        cost += 30;
        critical = true;
        add_penalty(penalties, make_penalty("SAF", 30, "file with mode 0777"));
        proof {
            added = added.push(penalty("SAF"@, 30, "file with mode 0777"@));
        }
    }
    if mode.is_none() {
        cost += 5;
        add_penalty(penalties, make_penalty("SAF", 5, "file without explicit mode"));
        proof {
            added = added.push(penalty("SAF"@, 5, "file without explicit mode"@));
        }
    }
    if owner.is_none() {
        cost += 3;
        add_penalty(penalties, make_penalty("SAF", 3, "file without explicit owner"));
        proof {
            added = added.push(penalty("SAF"@, 3, "file without explicit owner"@));
        }
    }
    proof {
        assert(added =~= file_penalties(*v));
        assert(penalties_view(penalties@) =~= start + added);
        lemma_file_penalties_points(*v);
        reveal_with_fuel(points_sum, 4);
        if is_0777 {
            if mode.is_none() {
            }
        }
    }
    (cost, critical)
}

/// SAF — Safety (15%). Starts at 100, deductions applied.
pub fn score_saf(input: &ScoringInput, penalties: &mut Vec<Penalty>) -> (s: u32)
    requires
        saf_in_range(*input),
    ensures
        s == saf_score(*input),
        penalties_view(final(penalties)@) == penalties_view(old(penalties)@) + saf_penalties(*input),
        saf_critical(*input) ==> s <= 40,
{
    let ghost start = penalties_view(penalties@);
    let rs = &input.config.resources;
    let ghost all = rs@;
    proof {
        lemma_points_nonneg(all);
        lemma_points_sum_concat(files_penalties(all), if curl_bash(input.raw_yaml@) {
            seq![penalty("SAF"@, 30, "curl|bash pattern detected"@)]
        } else {
            Seq::empty()
        });
        reveal_with_fuel(points_sum, 2);
        lemma_points_sum_concat(files_penalties(all) + (if curl_bash(input.raw_yaml@) {
            seq![penalty("SAF"@, 30, "curl|bash pattern detected"@)]
        } else {
            Seq::empty()
        }), packages_penalties(all));
    }
    let mut pts: i32 = 100;
    let mut has_critical = false;
    let mut i: usize = 0;
    assert(all.take(0) =~= Seq::<NamedValue>::empty());
    while i < rs.len()
        invariant
            i <= all.len(),
            all == rs@,
            all == input.config.resources@,
            saf_in_range(*input),
            points_sum(files_penalties(all)) >= 0,
            points_sum(packages_penalties(all)) >= 0,
            100 - points_sum(saf_penalties(*input)) >= i32::MIN,
            points_sum(saf_penalties(*input)) == points_sum(files_penalties(all)) + (if curl_bash(
                input.raw_yaml@,
            ) {
                30int
            } else {
                0
            }) + points_sum(packages_penalties(all)),
            pts == 100 - points_sum(files_penalties(all.take(i as int))),
            has_critical == has_0777_file(all.take(i as int)),
            penalties_view(penalties@) == start + files_penalties(all.take(i as int)),
        decreases all.len() - i,
    {
        let ghost before = penalties_view(penalties@);
        assert(all.take(i + 1).drop_last() =~= all.take(i as int));
        proof {
            lemma_files_prefix_le(all, i as int + 1);
        }
        let v = &rs[i].value;
        let kind = resource_str(v, "type");
        let is_file = match &kind {
            Some(k) => {
                let kc = chars_of(k.as_str());
                chars_eq_str(&kc, "file")
            },
            None => false,
        };
        if is_file {
            let (cost, crit) = file_resource_penalties(v, penalties);
            proof {
                lemma_points_sum_concat(files_penalties(all.take(i as int)), file_penalties(*v));
                lemma_file_penalties_points(*v);
            }
            pts = pts - cost;
            if crit {
                has_critical = true;
            }
        } else {
            assert(files_penalties(all.take(i + 1)) =~= files_penalties(all.take(i as int)));
        }
        proof {
            assert(penalties_view(penalties@) =~= start + files_penalties(all.take(i + 1)));
            if has_0777_file(all.take(i + 1)) {
                let k = choose|k: int|
                    0 <= k < all.take(i + 1).len() && is_kind(#[trigger] all.take(i + 1)[k].value, "file"@)
                        && field_str(all.take(i + 1)[k].value, "mode"@) == Some("0777"@);
                if k < i {
                    assert(all.take(i as int)[k] == all.take(i + 1)[k]);
                }
            }
            if has_0777_file(all.take(i as int)) {
                let k = choose|k: int|
                    0 <= k < all.take(i as int).len() && is_kind(#[trigger] all.take(i as int)[k].value, "file"@)
                        && field_str(all.take(i as int)[k].value, "mode"@) == Some("0777"@);
                assert(all.take(i + 1)[k] == all.take(i as int)[k]);
            }
            if is_file && field_str(*v, "mode"@) == Some("0777"@) {
                assert(all.take(i + 1)[i as int] == all[i as int]);
            }
        }
        i = i + 1;
    }
    assert(all.take(all.len() as int) =~= all);
    let raw = chars_of(input.raw_yaml);
    if contains_str(&raw, "curl") && contains_str(&raw, "bash") {
        pts = pts - 30;
        has_critical = true;
        add_penalty(penalties, make_penalty("SAF", 30, "curl|bash pattern detected"));
    }
    let ghost mid = penalties_view(penalties@);
    assert(mid =~= start + files_penalties(all) + (if curl_bash(input.raw_yaml@) {
        seq![penalty("SAF"@, 30, "curl|bash pattern detected"@)]
    } else {
        Seq::empty()
    }));
    let ghost pts_mid = pts as int;
    let mut j: usize = 0;
    assert(all.take(0) =~= Seq::<NamedValue>::empty());
    while j < rs.len()
        invariant
            j <= all.len(),
            all == rs@,
            pts_mid - points_sum(packages_penalties(all)) >= i32::MIN,
            points_sum(packages_penalties(all)) >= 0,
            pts == pts_mid - points_sum(packages_penalties(all.take(j as int))),
            penalties_view(penalties@) == mid + packages_penalties(all.take(j as int)),
        decreases all.len() - j,
    {
        assert(all.take(j + 1).drop_last() =~= all.take(j as int));
        proof {
            lemma_packages_prefix_le(all, j as int + 1);
        }
        let v = &rs[j].value;
        let kind = resource_str(v, "type");
        let is_pkg = match &kind {
            Some(k) => {
                let kc = chars_of(k.as_str());
                chars_eq_str(&kc, "package")
            },
            None => false,
        };
        let ghost pre = packages_penalties(all.take(j as int));
        if is_pkg && resource_str(v, "version").is_none() {
            proof {
                let pp = penalty("SAF"@, 3, "package without version pin"@);
                assert(all.take(j + 1).last() == all[j as int]);
                assert(packages_penalties(all.take(j + 1)) =~= pre.push(pp));
                assert(pre.push(pp).drop_last() =~= pre);
                assert(points_sum(pre.push(pp)) == points_sum(pre) + 3);
            }
            pts = pts - 3;
            add_penalty(penalties, make_penalty("SAF", 3, "package without version pin"));
        } else {
            proof {
                assert(all.take(j + 1).last() == all[j as int]);
                assert(packages_penalties(all.take(j + 1)) =~= pre);
            }
        }
        proof {
            assert(penalties_view(penalties@) =~= mid + packages_penalties(all.take(j + 1)));
        }
        j = j + 1;
    }
    assert(all.take(all.len() as int) =~= all);
    assert(penalties_view(penalties@) =~= start + saf_penalties(*input));
    let score = clamp_score(pts);
    if has_critical && score > 40 {
        40
    } else {
        score
    }
}

/// The file penalties of a prefix cost no more than those of the whole list.
proof fn lemma_files_prefix_le(rs: Seq<NamedValue>, k: int)
    requires
        0 <= k <= rs.len(),
    ensures
        0 <= points_sum(files_penalties(rs.take(k))) <= points_sum(files_penalties(rs)),
    decreases rs.len() - k,
{
    lemma_points_nonneg(rs.take(k));
    if k < rs.len() {
        lemma_files_prefix_le(rs, k + 1);
        assert(rs.take(k + 1).drop_last() =~= rs.take(k));
        let v = rs[k].value;
        lemma_file_penalties_points(v);
        reveal_with_fuel(points_sum, 1);
        lemma_points_sum_concat(files_penalties(rs.take(k)), if is_kind(v, "file"@) {
            file_penalties(v)
        } else {
            Seq::empty()
        });
    } else {
        assert(rs.take(k) =~= rs);
    }
}

/// The package penalties of a prefix cost no more than those of the whole list.
proof fn lemma_packages_prefix_le(rs: Seq<NamedValue>, k: int)
    requires
        0 <= k <= rs.len(),
    ensures
        0 <= points_sum(packages_penalties(rs.take(k))) <= points_sum(packages_penalties(rs)),
    decreases rs.len() - k,
{
    lemma_points_nonneg(rs.take(k));
    if k < rs.len() {
        lemma_packages_prefix_le(rs, k + 1);
        assert(rs.take(k + 1).drop_last() =~= rs.take(k));
        let v = rs[k].value;
        reveal_with_fuel(points_sum, 2);
        lemma_points_sum_concat(packages_penalties(rs.take(k)), if is_kind(v, "package"@)
            && field_str(v, "version"@) is None {
            seq![penalty("SAF"@, 3, "package without version pin"@)]
        } else {
            Seq::empty()
        });
    } else {
        assert(rs.take(k) =~= rs);
    }
}

// ── OBS ──────────────────────────────────────────────────────────

/// Number of file resources.
pub open spec fn count_files(rs: Seq<NamedValue>) -> nat
    decreases rs.len(),
{
    if rs.len() == 0 {
        0
    } else {
        count_files(rs.drop_last()) + if is_kind(rs.last().value, "file"@) {
            1nat
        } else {
            0nat
        }
    }
}

/// Number of file resources whose field `key` is a string.
pub open spec fn count_files_with(rs: Seq<NamedValue>, key: Seq<char>) -> nat
    decreases rs.len(),
{
    if rs.len() == 0 {
        0
    } else {
        count_files_with(rs.drop_last(), key) + if is_kind(rs.last().value, "file"@) && field_str(
            rs.last().value,
            key,
        ) is Some {
            1nat
        } else {
            0nat
        }
    }
}

/// Whether the exact quotient of `m as f64` and `n as f64` reaches the
/// threshold `t / p` (inclusively or not), as 0 or 1.
pub open spec fn step_reached(m: nat, n: nat, t: nat, p: nat, inclusive: bool) -> int {
    if (inclusive && f64_value(m) * p >= f64_value(n) * t) || (!inclusive && f64_value(m) * p
        > f64_value(n) * t) {
        1
    } else {
        0
    }
}

/// Coverage points `((m as f64 / n as f64) * 15.0) as i32`: how many of the
/// whole numbers 1 to 15 the twice-rounded product reaches. The product reaches
/// `j` exactly when the exact quotient of the converted counts reaches the
/// `j`-th threshold below, which the two roundings (to the quotient, then to
/// the product) fix.
pub open spec fn coverage_steps(m: nat, n: nat) -> int {
    step_reached(m, n, 0x22222222222221, 0x200000000000000, false)
        + step_reached(m, n, 0x22222222222221, 0x100000000000000, false)
        + step_reached(m, n, 0x33333333333333, 0x100000000000000, true)
        + step_reached(m, n, 0x22222222222221, 0x80000000000000, false)
        + step_reached(m, n, 0x2aaaaaaaaaaaa9, 0x80000000000000, false)
        + step_reached(m, n, 0x33333333333333, 0x80000000000000, true)
        + step_reached(m, n, 0x3bbbbbbbbbbbbb, 0x80000000000000, true)
        + step_reached(m, n, 0x22222222222221, 0x40000000000000, false)
        + step_reached(m, n, 0x26666666666665, 0x40000000000000, false)
        + step_reached(m, n, 0x2aaaaaaaaaaaa9, 0x40000000000000, false)
        + step_reached(m, n, 0x2eeeeeeeeeeeed, 0x40000000000000, false)
        + step_reached(m, n, 0x33333333333333, 0x40000000000000, true)
        + step_reached(m, n, 0x37777777777777, 0x40000000000000, true)
        + step_reached(m, n, 0x3bbbbbbbbbbbbb, 0x40000000000000, true)
        + step_reached(m, n, 0x3fffffffffffff, 0x40000000000000, true)
}

/// File mode and owner coverage: 15 points each, for the share (computed in
/// binary64 and truncated) of the file resources that set it; 30 when there
/// are resources but no files.
pub open spec fn coverage_points(rs: Seq<NamedValue>) -> int {
    let n = count_files(rs);
    if n > 0 {
        coverage_steps(count_files_with(rs, "mode"@), n) + coverage_steps(
            count_files_with(rs, "owner"@),
            n,
        )
    } else if rs.len() > 0 {
        30
    } else {
        0
    }
}

/// Whether the entries have key `k`, as 0 or 1.
pub open spec fn key_flag(es: Seq<crate::recipe_score::config::YamlEntry>, k: Seq<char>) -> nat {
    if entries_get(es, k) is Some {
        1
    } else {
        0
    }
}

/// Notify hooks: 20 points in proportion (rounded down) to how many of
/// `on_success`, `on_failure` and `on_drift` the mapping sets.
pub open spec fn notify_points(n: Option<YamlValue>) -> int {
    match n {
        Some(v) => match untagged(v) {
            YamlValue::Mapping(es) => (((key_flag(es@, "on_success"@) + key_flag(es@, "on_failure"@)
                + key_flag(es@, "on_drift"@)) * 20) / 3) as int,
            _ => 0,
        },
        None => 0,
    }
}

/// The effective tripwire (policy section first).
pub open spec fn eff_tripwire_spec(c: RecipeConfig) -> Option<YamlValue> {
    prefer(c.policy_field(|p: PolicyConfig| p.tripwire), c.tripwire)
}

/// The effective notify hooks (policy section first).
pub open spec fn eff_notify_spec(c: RecipeConfig) -> Option<YamlValue> {
    prefer(c.policy_field(|p: PolicyConfig| p.notify), c.notify)
}

/// A lock file is set in the policy section or at top level.
pub open spec fn eff_lock_spec(c: RecipeConfig) -> bool {
    c.policy_field(|p: PolicyConfig| p.lock_file) is Some || c.lock_file is Some
}

/// Observability points: tripwire 15, lock file 15, outputs 10, coverage, notify hooks.
pub open spec fn obs_points(c: RecipeConfig) -> int {
    (if eff_tripwire_spec(c) is Some {
        15int
    } else {
        0
    }) + (if eff_lock_spec(c) {
        15int
    } else {
        0
    }) + (if c.outputs is Some {
        10int
    } else {
        0
    }) + coverage_points(c.resources@) + notify_points(eff_notify_spec(c))
}

/// OBS score.
pub open spec fn obs_score(input: ScoringInput) -> u32 {
    clamp(obs_points(*input.config))
}

/// Whether a resource is of the given kind.
fn resource_is(v: &YamlValue, kind: &str) -> (b: bool)
    ensures
        b == is_kind(*v, kind@),
{
    match resource_str(v, "type") {
        Some(k) => {
            let kc = chars_of(k.as_str());
            chars_eq_str(&kc, kind)
        },
        None => false,
    }
}

/// Counts file resources, and those with string `mode` and `owner` fields.
fn file_counts(rs: &Vec<NamedValue>) -> (r: (u64, u64, u64))
    ensures
        r.0 == count_files(rs@),
        r.1 == count_files_with(rs@, "mode"@),
        r.2 == count_files_with(rs@, "owner"@),
        r.1 <= r.0 && r.2 <= r.0,
{
    let mut n: u64 = 0;
    let mut m: u64 = 0;
    let mut o: u64 = 0;
    let mut i: usize = 0;
    while i < rs.len()
        invariant
            i <= rs@.len(),
            n == count_files(rs@.take(i as int)),
            m == count_files_with(rs@.take(i as int), "mode"@),
            o == count_files_with(rs@.take(i as int), "owner"@),
            m <= n <= i,
            o <= n,
        decreases rs@.len() - i,
    {
        assert(rs@.take(i + 1).drop_last() =~= rs@.take(i as int));
        assert(rs@.take(i + 1).last() == rs@[i as int]);
        let v = &rs[i].value;
        if resource_is(v, "file") {
            n = n + 1;
            if resource_str(v, "mode").is_some() {
                m = m + 1;
            }
            if resource_str(v, "owner").is_some() {
                o = o + 1;
            }
        }
        i = i + 1;
    }
    assert(rs@.take(rs@.len() as int) =~= rs@);
    (n, m, o)
}

/// Counts the notify hooks that a notify mapping sets.
fn notify_hook_points(n: Option<&YamlValue>) -> (p: i32)
    ensures
        p == notify_points(match n {
            Some(v) => Some(*v),
            None => None,
        }),
        0 <= p <= 20,
{
    match n {
        None => 0,
        Some(v) => match untag(v) {
            YamlValue::Mapping(es) => {
                let mut count: i32 = 0;
                if get_field(v, "on_success").is_some() {
                    count += 1;
                }
                if get_field(v, "on_failure").is_some() {
                    count += 1;
                }
                if get_field(v, "on_drift").is_some() {
                    count += 1;
                }
                (count * 20) / 3
            },
            _ => 0,
        },
    }
}

/// Whether the exact quotient of `m as f64` and `n as f64` reaches `t / p`, as 0 or 1.
fn step_exec(m: u64, n: u64, t: u128, p: u128, inclusive: bool) -> (r: i32)
    requires
        t <= 0x400000000000000,
        p <= 0x400000000000000,
    ensures
        r == step_reached(m as nat, n as nat, t as nat, p as nat, inclusive),
        0 <= r <= 1,
{
    let (a, b) = scaled_values(m, n, t, p);
    if (inclusive && a >= b) || (!inclusive && a > b) {
        1
    } else {
        0
    }
}

/// `((m as f64 / n as f64) * 15.0) as i32`, as `coverage_steps` states it.
fn coverage_steps_exec(m: u64, n: u64) -> (c: i32)
    ensures
        c == coverage_steps(m as nat, n as nat),
        0 <= c <= 15,
{
    let mut c: i32 = 0;
    c = c + step_exec(m, n, 0x22222222222221, 0x200000000000000, false);
    c = c + step_exec(m, n, 0x22222222222221, 0x100000000000000, false);
    c = c + step_exec(m, n, 0x33333333333333, 0x100000000000000, true);
    c = c + step_exec(m, n, 0x22222222222221, 0x80000000000000, false);
    c = c + step_exec(m, n, 0x2aaaaaaaaaaaa9, 0x80000000000000, false);
    c = c + step_exec(m, n, 0x33333333333333, 0x80000000000000, true);
    c = c + step_exec(m, n, 0x3bbbbbbbbbbbbb, 0x80000000000000, true);
    c = c + step_exec(m, n, 0x22222222222221, 0x40000000000000, false);
    c = c + step_exec(m, n, 0x26666666666665, 0x40000000000000, false);
    c = c + step_exec(m, n, 0x2aaaaaaaaaaaa9, 0x40000000000000, false);
    c = c + step_exec(m, n, 0x2eeeeeeeeeeeed, 0x40000000000000, false);
    c = c + step_exec(m, n, 0x33333333333333, 0x40000000000000, true);
    c = c + step_exec(m, n, 0x37777777777777, 0x40000000000000, true);
    c = c + step_exec(m, n, 0x3bbbbbbbbbbbbb, 0x40000000000000, true);
    c = c + step_exec(m, n, 0x3fffffffffffff, 0x40000000000000, true);
    c
}

/// OBS — Observability (10%).
pub fn score_obs(input: &ScoringInput) -> (s: u32)
    ensures
        s == obs_score(*input),
{
    let c = input.config;
    let mut pts: i32 = 0;
    if c.eff_tripwire().is_some() {
        pts += 15;
    }
    if c.eff_lock_file() {
        pts += 15;
    }
    if c.outputs.is_some() {
        pts += 10;
    }
    let (n, m, o) = file_counts(&c.resources);
    if n > 0 {
        pts += coverage_steps_exec(m, n);
        pts += coverage_steps_exec(o, n);
    } else if c.resources.len() > 0 {
        pts += 30;
    }
    pts += notify_hook_points(c.eff_notify());
    clamp_score(pts)
}

// ── DOC ──────────────────────────────────────────────────────────

/// A line without the `\r` of a `\r\n` ending.
pub open spec fn strip_cr(l: Seq<char>) -> Seq<char> {
    if l.len() > 0 && l.last() == '\r' {
        l.drop_last()
    } else {
        l
    }
}

/// Reading `s` left to right: the lines ended so far, and the line in progress.
pub open spec fn line_state(s: Seq<char>) -> (Seq<Seq<char>>, Seq<char>)
    decreases s.len(),
{
    if s.len() == 0 {
        (Seq::empty(), Seq::empty())
    } else {
        let (done, cur) = line_state(s.drop_last());
        if s.last() == '\n' {
            (done.push(strip_cr(cur)), Seq::empty())
        } else {
            (done, cur.push(s.last()))
        }
    }
}

/// The lines of `s` as `str::lines` gives them: split at `\n` (and `\r\n`),
/// with no empty line after a final line break.
pub open spec fn text_lines(s: Seq<char>) -> Seq<Seq<char>> {
    let (done, cur) = line_state(s);
    if cur.len() > 0 {
        done.push(cur)
    } else {
        done
    }
}

/// The line, with leading whitespace removed, starts with `#`.
pub open spec fn is_comment_line(l: Seq<char>) -> bool {
    trim_start(l).len() > 0 && trim_start(l)[0] == '#'
}

/// Number of comment lines.
pub open spec fn count_comments(ls: Seq<Seq<char>>) -> nat
    decreases ls.len(),
{
    if ls.len() == 0 {
        0
    } else {
        count_comments(ls.drop_last()) + if is_comment_line(ls.last()) {
            1nat
        } else {
            0nat
        }
    }
}

/// Lines joined with `\n`.
pub open spec fn join_lines(ls: Seq<Seq<char>>) -> Seq<char>
    decreases ls.len(),
{
    if ls.len() == 0 {
        Seq::empty()
    } else if ls.len() == 1 {
        ls[0]
    } else {
        join_lines(ls.drop_last()) + seq!['\n'] + ls.last()
    }
}

/// The first five lines (all of them when there are fewer).
pub open spec fn first_five(ls: Seq<Seq<char>>) -> Seq<Seq<char>> {
    if ls.len() <= 5 {
        ls
    } else {
        ls.take(5)
    }
}

/// Comment ratio points: the ratio `comments as f64 / total as f64` at least
/// 0.15: 40, 0.10: 30, 0.05: 20.
pub open spec fn comment_points(comments: nat, total: nat) -> int {
    if total > 0 {
        if f64_quotient_above(comments, total, 10808639105689189, 0x100000000000000) {
            40
        } else if f64_quotient_at_least(comments, total, 14411518807585587, 0x200000000000000) {
            30
        } else if f64_quotient_at_least(comments, total, 14411518807585587, 0x400000000000000) {
            20
        } else {
            0
        }
    } else {
        0
    }
}

/// Header metadata points: recipe number, tier, idempotency, 10 each.
pub open spec fn header_points(h: Seq<char>) -> int {
    (if contains(h, "Recipe #"@) || contains(h, "Recipe:"@) {
        10int
    } else {
        0
    }) + (if contains(h, "Tier:"@) || contains(h, "Tier "@) {
        10int
    } else {
        0
    }) + (if contains(h, "Idempotency:"@) || contains(h, "idempotency"@) {
        10int
    } else {
        0
    })
}

/// Documentation points: comment ratio, header in the first five lines,
/// description 15, a name with a dash 5.
pub open spec fn doc_points(input: ScoringInput) -> int {
    let ls = text_lines(input.raw_yaml@);
    comment_points(count_comments(ls), ls.len()) + header_points(join_lines(first_five(ls))) + (
    if input.config.description is Some {
        15int
    } else {
        0
    }) + (if input.config.name@.len() > 0 && contains(input.config.name@, "-"@) {
        5int
    } else {
        0
    })
}

/// DOC score.
pub open spec fn doc_score(input: ScoringInput) -> u32 {
    clamp(doc_points(input))
}

/// The lines of a text, taken by their characters.
pub open spec fn lines_view(ls: Seq<Vec<char>>) -> Seq<Seq<char>> {
    ls.map_values(|l: Vec<char>| l@)
}

/// A line without the `\r` of a `\r\n` ending.
fn strip_cr_exec(l: Vec<char>) -> (r: Vec<char>)
    ensures
        r@ == strip_cr(l@),
{
    let mut l = l;
    if l.len() > 0 && l[l.len() - 1] == '\r' {
        l.pop();
    }
    l
}

/// The lines of `s`.
fn split_lines(s: &Vec<char>) -> (r: Vec<Vec<char>>)
    ensures
        lines_view(r@) == text_lines(s@),
{
    let mut done: Vec<Vec<char>> = Vec::new();
    let mut cur: Vec<char> = Vec::new();
    let mut i: usize = 0;
    assert(s@.take(0) =~= Seq::<char>::empty());
    assert(lines_view(done@) =~= Seq::<Seq<char>>::empty());
    while i < s.len()
        invariant
            i <= s@.len(),
            line_state(s@.take(i as int)) == (lines_view(done@), cur@),
        decreases s@.len() - i,
    {
        assert(s@.take(i + 1).drop_last() =~= s@.take(i as int));
        assert(s@.take(i + 1).last() == s@[i as int]);
        let c = s[i];
        if c == '\n' {
            let line = strip_cr_exec(cur);
            let ghost d = done@;
            done.push(line);
            assert(lines_view(done@) =~= lines_view(d).push(line@));
            cur = Vec::new();
            assert(cur@ =~= Seq::<char>::empty());
        } else {
            cur.push(c);
        }
        i = i + 1;
    }
    assert(s@.take(s@.len() as int) =~= s@);
    if cur.len() > 0 {
        let ghost d = done@;
        done.push(cur);
        assert(lines_view(done@) =~= lines_view(d).push(cur@));
    }
    done
}

/// Whether the line, with leading whitespace removed, starts with `#`.
fn is_comment_exec(l: &Vec<char>) -> (b: bool)
    ensures
        b == is_comment_line(l@),
{
    let mut i: usize = 0;
    while i < l.len() && crate::text::is_whitespace(l[i])
        invariant
            i <= l@.len(),
            forall|j: int| 0 <= j < i ==> is_ws(#[trigger] l@[j]),
        decreases l@.len() - i,
    {
        i = i + 1;
    }
    proof {
        lemma_lead_ws(l@);
        if lead_ws(l@) < i {
            assert(is_ws(l@[lead_ws(l@) as int]));
        }
        if i < lead_ws(l@) {
            assert(is_ws(l@[i as int]));
        }
    }
    i < l.len() && l[i] == '#'
}

/// Joins lines with `\n`.
fn join_lines_exec(ls: &Vec<Vec<char>>, n: usize) -> (r: Vec<char>)
    requires
        n <= ls@.len(),
    ensures
        r@ == join_lines(lines_view(ls@).take(n as int)),
{
    let mut r: Vec<char> = Vec::new();
    let mut i: usize = 0;
    assert(lines_view(ls@).take(0).len() == 0);
    while i < n
        invariant
            i <= n <= ls@.len(),
            r@ == join_lines(lines_view(ls@).take(i as int)),
        decreases n - i,
    {
        let ghost before = r@;
        if i > 0 {
            r.push('\n');
        }
        let mut k: usize = 0;
        let ghost mid = r@;
        while k < ls[i].len()
            invariant
                k <= ls@[i as int]@.len(),
                i < n <= ls@.len(),
                r@ == mid + ls@[i as int]@.take(k as int),
            decreases ls@[i as int]@.len() - k,
        {
            r.push(ls[i][k]);
            assert(ls@[i as int]@.take(k + 1) =~= ls@[i as int]@.take(k as int).push(
                ls@[i as int]@[k as int],
            ));
            k = k + 1;
        }
        assert(ls@[i as int]@.take(ls@[i as int]@.len() as int) =~= ls@[i as int]@);
        assert(lines_view(ls@).take(i + 1).drop_last() =~= lines_view(ls@).take(i as int));
        assert(lines_view(ls@).take(i + 1).last() == ls@[i as int]@);
        if i == 0 {
            assert(r@ =~= join_lines(lines_view(ls@).take(1)));
        } else {
            assert(r@ =~= join_lines(lines_view(ls@).take(i + 1)));
        }
        i = i + 1;
    }
    r
}

/// DOC — Documentation (8%).
pub fn score_doc(input: &ScoringInput) -> (s: u32)
    ensures
        s == doc_score(*input),
{
    let raw = chars_of(input.raw_yaml);
    let lines = split_lines(&raw);
    let ghost lv = lines_view(lines@);
    let mut pts: i32 = 0;
    let total = lines.len();
    let mut comments: usize = 0;
    let mut i: usize = 0;
    assert(lv.take(0).len() == 0);
    while i < total
        invariant
            i <= total == lines@.len(),
            lv == lines_view(lines@),
            comments == count_comments(lv.take(i as int)),
            comments <= i,
        decreases total - i,
    {
        assert(lv.take(i + 1).drop_last() =~= lv.take(i as int));
        assert(lv.take(i + 1).last() == lines@[i as int]@);
        if is_comment_exec(&lines[i]) {
            comments = comments + 1;
        }
        i = i + 1;
    }
    assert(lv.take(total as int) =~= lv);
    if total > 0 {
        let c: u64 = comments as u64;
        let t: u64 = total as u64;
        if quotient_above(c, t, 10808639105689189, 0x100000000000000) {
            pts += 40;
        } else if quotient_at_least(c, t, 14411518807585587, 0x200000000000000) {
            pts += 30;
        } else if quotient_at_least(c, t, 14411518807585587, 0x400000000000000) {
            pts += 20;
        }
    }
    let n = if total <= 5 {
        total
    } else {
        5
    };
    let header = join_lines_exec(&lines, n);
    assert(lv.take(n as int) =~= first_five(lv));
    if contains_str(&header, "Recipe #") || contains_str(&header, "Recipe:") {
        pts += 10;
    }
    if contains_str(&header, "Tier:") || contains_str(&header, "Tier ") {
        pts += 10;
    }
    if contains_str(&header, "Idempotency:") || contains_str(&header, "idempotency") {
        pts += 10;
    }
    if input.config.description.is_some() {
        pts += 15;
    }
    let name = chars_of(input.config.name.as_str());
    if name.len() > 0 && contains_str(&name, "-") {
        pts += 5;
    }
    clamp_score(pts)
}

// ── RES ──────────────────────────────────────────────────────────

/// Number of resources with a `depends_on` field.
pub open spec fn count_with_deps(rs: Seq<NamedValue>) -> nat
    decreases rs.len(),
{
    if rs.len() == 0 {
        0
    } else {
        count_with_deps(rs.drop_last()) + if has_field(rs.last().value, "depends_on"@) {
            1nat
        } else {
            0nat
        }
    }
}

/// Dependency DAG points: the ratio of resources with dependencies, as
/// `with_deps as f64 / total as f64`, at least 0.50: 30, at least 0.30: 20.
pub open spec fn dag_points(rs: Seq<NamedValue>) -> int {
    let t = rs.len();
    if t > 0 {
        let d = count_with_deps(rs);
        if f64_quotient_at_least(d, t, 0x3fffffffffffff, 0x80000000000000) {
            30
        } else if f64_quotient_above(d, t, 10808639105689189, 0x80000000000000) {
            20
        } else {
            0
        }
    } else {
        0
    }
}

/// Resilience points: failure policy `continue_independent` 20, more than one
/// SSH retry 10, DAG ratio, pre- and post-apply hooks 10 each (top-level settings).
pub open spec fn res_points(c: RecipeConfig) -> int {
    (if opt_text(c.failure) == Some("continue_independent"@) {
        20int
    } else {
        0
    }) + (if c.ssh_retries matches Some(r) && r > 1 {
        10int
    } else {
        0
    }) + dag_points(c.resources@) + (if c.pre_apply is Some {
        10int
    } else {
        0
    }) + (if c.post_apply is Some {
        10int
    } else {
        0
    })
}

/// RES score.
pub open spec fn res_score(input: ScoringInput) -> u32 {
    clamp(res_points(*input.config))
}

/// RES — Resilience (7%).
pub fn score_res(input: &ScoringInput) -> (s: u32)
    ensures
        s == res_score(*input),
{
    let c = input.config;
    let mut pts: i32 = 0;
    match &c.failure {
        Some(f) => {
            let fc = chars_of(f.as_str());
            if chars_eq_str(&fc, "continue_independent") {
                pts += 20;
            }
        },
        None => {},
    }
    match c.ssh_retries {
        Some(r) => {
            if r > 1 {
                pts += 10;
            }
        },
        None => {},
    }
    let rs = &c.resources;
    let total = rs.len();
    if total > 0 {
        let mut d: usize = 0;
        let mut i: usize = 0;
        while i < total
            invariant
                i <= total == rs@.len(),
                d == count_with_deps(rs@.take(i as int)),
                d <= i,
            decreases total - i,
        {
            assert(rs@.take(i + 1).drop_last() =~= rs@.take(i as int));
            assert(rs@.take(i + 1).last() == rs@[i as int]);
            if has_depends_on(&rs[i].value) {
                d = d + 1;
            }
            i = i + 1;
        }
        assert(rs@.take(total as int) =~= rs@);
        let dd: u64 = d as u64;
        let tt: u64 = total as u64;
        if quotient_at_least(dd, tt, 0x3fffffffffffff, 0x80000000000000) {
            pts += 30;
        } else if quotient_above(dd, tt, 10808639105689189, 0x80000000000000) {
            pts += 20;
        }
    }
    if c.pre_apply.is_some() {
        pts += 10;
    }
    if c.post_apply.is_some() {
        pts += 10;
    }
    clamp_score(pts)
}

// ── CMP ──────────────────────────────────────────────────────────

/// Some resource uses templates.
pub open spec fn any_template(rs: Seq<NamedValue>) -> bool {
    exists|i: int| 0 <= i < rs.len() && uses_template(#[trigger] rs[i].value)
}

/// Some resource has the field `key`.
pub open spec fn any_field(rs: Seq<NamedValue>, key: Seq<char>) -> bool {
    exists|i: int| 0 <= i < rs.len() && has_field(#[trigger] rs[i].value, key)
}

/// Number of included recipes (0 without an `includes` list).
pub open spec fn include_count(c: RecipeConfig) -> nat {
    match c.includes {
        Some(inc) => inc@.len(),
        None => 0,
    }
}

/// Composability points: params 20, templates 10, includes 10, tags 15,
/// resource groups 15, more than one machine 10, more than one include 15.
pub open spec fn composability_points(c: RecipeConfig) -> int {
    (if c.params is Some {
        20int
    } else {
        0
    }) + (if any_template(c.resources@) {
        10int
    } else {
        0
    }) + (if include_count(c) > 0 {
        10int
    } else {
        0
    }) + (if any_field(c.resources@, "tags"@) {
        15int
    } else {
        0
    }) + (if any_field(c.resources@, "resource_group"@) {
        15int
    } else {
        0
    }) + (if c.machines@.len() > 1 {
        10int
    } else {
        0
    }) + (if include_count(c) > 1 {
        15int
    } else {
        0
    })
}

/// Composability score.
pub open spec fn composability_score(input: ScoringInput) -> u32 {
    clamp(composability_points(*input.config))
}

/// Whether some resource uses templates.
fn any_resource_template(rs: &Vec<NamedValue>) -> (b: bool)
    ensures
        b == any_template(rs@),
{
    let mut i: usize = 0;
    while i < rs.len()
        invariant
            i <= rs@.len(),
            forall|j: int| 0 <= j < i ==> !uses_template(#[trigger] rs@[j].value),
        decreases rs@.len() - i,
    {
        if has_template(&rs[i].value) {
            return true;
        }
        i = i + 1;
    }
    false
}

/// Whether some resource has tags.
fn any_resource_tags(rs: &Vec<NamedValue>) -> (b: bool)
    ensures
        b == any_field(rs@, "tags"@),
{
    let mut i: usize = 0;
    while i < rs.len()
        invariant
            i <= rs@.len(),
            forall|j: int| 0 <= j < i ==> !has_field(#[trigger] rs@[j].value, "tags"@),
        decreases rs@.len() - i,
    {
        if has_tags(&rs[i].value) {
            return true;
        }
        i = i + 1;
    }
    false
}

/// Whether some resource has a `resource_group` field.
fn any_resource_group(rs: &Vec<NamedValue>) -> (b: bool)
    ensures
        b == any_field(rs@, "resource_group"@),
{
    let mut i: usize = 0;
    while i < rs.len()
        invariant
            i <= rs@.len(),
            forall|j: int| 0 <= j < i ==> !has_field(#[trigger] rs@[j].value, "resource_group"@),
        decreases rs@.len() - i,
    {
        if has_resource_group(&rs[i].value) {
            return true;
        }
        i = i + 1;
    }
    false
}

/// CMP — Composability (5%).
pub fn score_cmp(input: &ScoringInput) -> (s: u32)
    ensures
        s == composability_score(*input),
{
    let c = input.config;
    let mut pts: i32 = 0;
    if c.params.is_some() {
        pts += 20;
    }
    if any_resource_template(&c.resources) {
        pts += 10;
    }
    let includes: usize = match &c.includes {
        Some(inc) => inc.len(),
        None => 0,
    };
    if includes > 0 {
        pts += 10;
    }
    if any_resource_tags(&c.resources) {
        pts += 15;
    }
    if any_resource_group(&c.resources) {
        pts += 15;
    }
    if c.machines.len() > 1 {
        pts += 10;
    }
    if includes > 1 {
        pts += 15;
    }
    clamp_score(pts)
}

} // verus!

//! Forjar Score computed from the recipe itself — multi-dimensional recipe
//! quality scoring.
//!
//! Computes a composite score (0–100) across 8 dimensions and assigns a letter
//! grade (A–F). Designed so A-grade requires >= 80 in every dimension — no
//! gaming by overperforming in easy dimensions.

pub mod config;
pub mod dimensions;

use vstd::prelude::*;

use crate::qualify::{IdempotencyClass, RecipeStatus};
use crate::recipe_score::config::RecipeConfig;
use crate::recipe_score::dimensions::{
    composability_score, cor_penalties, cor_score, doc_score, idm_in_range, idm_penalties,
    idm_score, obs_score, prf_score, res_score, saf_in_range, saf_penalties, saf_score, score_cmp,
    score_cor, score_doc, score_idm, score_obs, score_prf, score_res, score_saf,
};
use crate::score::{
    dims_bounded, dims_min, grade_rank, penalties_view, DimensionScores, Grade, Penalty,
    PenaltyView, RuntimeData,
};

verus! {

/// Combined input for scoring: recipe status, static config, raw YAML text,
/// performance budget, idempotency class, and optional runtime data.
pub struct ScoringInput<'a> {
    /// Recipe qualification status.
    pub status: &'a RecipeStatus,
    /// Idempotency class from CSV.
    pub idempotency_class: &'a IdempotencyClass,
    /// Parsed recipe config (for static analysis).
    pub config: &'a RecipeConfig,
    /// Raw YAML text (for comment ratio).
    pub raw_yaml: &'a str,
    /// Performance budget for first apply (ms). 0 = no budget.
    pub budget_ms: u64,
    /// Runtime data (None for blocked/pending recipes — static-only scoring).
    pub runtime: Option<&'a RuntimeData>,
}

/// Current scoring algorithm version.
pub const SCORE_VERSION: &'static str = "1.0";

/// Safety hard cap when a critical violation exists.
pub const SAFETY_CRITICAL_CAP: u32 = 40;

/// Complete Forjar Score for a recipe.
pub struct ForjarScore {
    /// Composite score (0–100).
    pub composite: u32,
    /// Letter grade.
    pub grade: Grade,
    /// Per-dimension breakdown.
    pub dimensions: DimensionScores,
    /// Penalties applied during scoring.
    pub penalties: Vec<Penalty>,
    /// Scoring algorithm version.
    pub version: String,
}

/// A score with its text and penalties taken by their views.
pub struct ForjarScoreView {
    pub composite: u32,
    pub grade: Grade,
    pub dimensions: DimensionScores,
    pub penalties: Seq<PenaltyView>,
    pub version: Seq<char>,
}

impl View for ForjarScore {
    type V = ForjarScoreView;

    open spec fn view(&self) -> ForjarScoreView {
        ForjarScoreView {
            composite: self.composite,
            grade: self.grade,
            dimensions: self.dimensions,
            penalties: penalties_view(self.penalties@),
            version: self.version@,
        }
    }
}

/// Weighted sum of the dimensions: COR 20, IDM 20, PRF 15, SAF 15, OBS 10,
/// DOC 8, RES 7, CMP 5 (the weights sum to 100).
pub open spec fn weighted_sum(d: DimensionScores) -> int {
    20 * d.cor + 20 * d.idm + 15 * d.prf + 15 * d.saf + 10 * d.obs + 8 * d.doc + 7 * d.res + 5
        * d.cmp
}

/// A hundredth of `w`, rounded down, at most 100.
pub open spec fn hundredth_capped(w: int) -> int {
    if w / 100 > 100 {
        100
    } else {
        w / 100
    }
}

/// Weighted composite: the weighted sum divided by 100 (rounded down), at most 100.
pub open spec fn composite_of(d: DimensionScores) -> int {
    hundredth_capped(weighted_sum(d))
}

/// Grade from composite and lowest dimension: A needs 90 and 80, B 75 and 60,
/// C 60 and 40, D a composite of 40; F otherwise.
pub open spec fn grade_for(composite: int, min_dim: int) -> Grade {
    if composite >= 90 && min_dim >= 80 {
        Grade::A
    } else if composite >= 75 && min_dim >= 60 {
        Grade::B
    } else if composite >= 60 && min_dim >= 40 {
        Grade::C
    } else if composite >= 40 {
        Grade::D
    } else {
        Grade::F
    }
}

/// Blocked and pending recipes score F outright.
pub open spec fn hard_fail_status(s: RecipeStatus) -> bool {
    s == RecipeStatus::Blocked || s == RecipeStatus::Pending
}

/// Runtime data shows a failed validate, plan or first apply.
pub open spec fn runtime_failed(input: ScoringInput) -> bool {
    match input.runtime {
        Some(rt) => !rt.validate_pass || !rt.plan_pass || !rt.first_apply_pass,
        None => false,
    }
}

/// All eight dimension scores of the input.
pub open spec fn all_dims(input: ScoringInput) -> DimensionScores {
    DimensionScores {
        cor: cor_score(input),
        idm: idm_score(input),
        prf: prf_score(input),
        saf: saf_score(input),
        obs: obs_score(input),
        doc: doc_score(input),
        res: res_score(input),
        cmp: composability_score(input),
    }
}

/// The static dimensions alone; the runtime ones are 0.
pub open spec fn static_dims(input: ScoringInput) -> DimensionScores {
    DimensionScores { cor: 0, idm: 0, prf: 0, ..all_dims(input) }
}

/// The whole score of an input.
pub open spec fn score_of(input: ScoringInput) -> ForjarScoreView {
    if hard_fail_status(*input.status) {
        ForjarScoreView {
            composite: 0,
            grade: Grade::F,
            dimensions: static_dims(input),
            penalties: saf_penalties(input),
            version: SCORE_VERSION@,
        }
    } else if runtime_failed(input) {
        ForjarScoreView {
            composite: 0,
            grade: Grade::F,
            dimensions: all_dims(input),
            penalties: cor_penalties(input) + idm_penalties(input) + saf_penalties(input),
            version: SCORE_VERSION@,
        }
    } else {
        let d = all_dims(input);
        ForjarScoreView {
            composite: composite_of(d) as u32,
            grade: grade_for(composite_of(d), dims_min(d) as int),
            dimensions: d,
            penalties: cor_penalties(input) + idm_penalties(input) + saf_penalties(input),
            version: SCORE_VERSION@,
        }
    }
}

/// The input can be scored without overflow: the hard-fail statuses score
/// only the static dimensions, the others need the IDM deduction in range;
/// SAF's running total always needs to stay in range.
pub open spec fn scorable(input: ScoringInput) -> bool {
    (hard_fail_status(*input.status) || idm_in_range(input)) && saf_in_range(input)
}

/// Weighted composite of eight scores, at most 100.
fn weighted_composite(
    cor: u32,
    idm: u32,
    prf: u32,
    saf: u32,
    obs: u32,
    doc: u32,
    res: u32,
    composability: u32,
) -> (c: u32)
    ensures
        c == hundredth_capped(
            20 * cor + 20 * idm + 15 * prf + 15 * saf + 10 * obs + 8 * doc + 7 * res + 5
                * composability,
        ),
{
    let weighted: u64 = cor as u64 * 20 + idm as u64 * 20 + prf as u64 * 15 + saf as u64 * 15
        + obs as u64 * 10 + doc as u64 * 8 + res as u64 * 7 + composability as u64 * 5;
    let result: u64 = weighted / 100;
    if result > 100 {
        100
    } else {
        result as u32
    }
}

/// Weighted composite score.
fn compute_composite(d: &DimensionScores) -> (c: u32)
    ensures
        c == composite_of(*d),
        c <= 100,
{
    weighted_composite(d.cor, d.idm, d.prf, d.saf, d.obs, d.doc, d.res, d.cmp)
}

/// Grade from composite + min dimension.
fn compute_grade(composite: u32, min_dim: u32) -> (g: Grade)
    ensures
        g == grade_for(composite as int, min_dim as int),
        g == Grade::A <==> composite >= 90 && min_dim >= 80,
        g == Grade::B <==> 75 <= composite && 60 <= min_dim && !(composite >= 90 && min_dim >= 80),
        g == Grade::C <==> 60 <= composite && 40 <= min_dim && !(75 <= composite && 60 <= min_dim),
        g == Grade::D <==> 40 <= composite && !(60 <= composite && 40 <= min_dim),
        g == Grade::F <==> composite < 40,
        forall|c: u32, m: u32|
            composite <= c && min_dim <= m ==> grade_rank(g) <= grade_rank(
                #[trigger] grade_for(c as int, m as int),
            ),
{
    if composite >= 90 && min_dim >= 80 {
        Grade::A
    } else if composite >= 75 && min_dim >= 60 {
        Grade::B
    } else if composite >= 60 && min_dim >= 40 {
        Grade::C
    } else if composite >= 40 {
        Grade::D
    } else {
        Grade::F
    }
}

impl ForjarScore {
    /// Compute the Forjar Score for a recipe.
    ///
    /// Blocked and pending recipes get F with composite 0 and only their
    /// static dimensions; a failed validate, plan or first apply gets F with
    /// composite 0; otherwise the weighted composite and the grade that it and
    /// the lowest dimension earn.
    pub fn compute(input: &ScoringInput) -> (s: ForjarScore)
        requires
            scorable(*input),
        ensures
            s@ == score_of(*input),
            s.composite <= 100,
            dims_bounded(s.dimensions),
            hard_fail_status(*input.status) || runtime_failed(*input) ==> s.grade == Grade::F
                && s.composite == 0,
            !hard_fail_status(*input.status) && !runtime_failed(*input) ==> ({
                let c = s.composite;
                let m = dims_min(s.dimensions);
                &&& s.grade == Grade::A <==> c >= 90 && m >= 80
                &&& s.grade == Grade::B <==> 75 <= c && 60 <= m && !(c >= 90 && m >= 80)
                &&& s.grade == Grade::C <==> 60 <= c && 40 <= m && !(75 <= c && 60 <= m)
                &&& s.grade == Grade::D <==> 40 <= c && !(60 <= c && 40 <= m)
                &&& s.grade == Grade::F <==> c < 40
            }),
    {
        proof {
            if !hard_fail_status(*input.status) && !runtime_failed(*input) {
                lemma_score_grade_band(*input);
            }
        }
        let mut penalties: Vec<Penalty> = Vec::new();
        let ghost empty = penalties_view(penalties@);
        assert(empty =~= Seq::<PenaltyView>::empty());
        if *input.status == RecipeStatus::Blocked || *input.status == RecipeStatus::Pending {
            let saf = score_saf(input, &mut penalties);
            let obs = score_obs(input);
            let doc = score_doc(input);
            let res = score_res(input);
            let composability = score_cmp(input);
            let s = ForjarScore {
                composite: 0,
                grade: Grade::F,
                dimensions: DimensionScores {
                    cor: 0,
                    idm: 0,
                    prf: 0,
                    saf,
                    obs,
                    doc,
                    res,
                    cmp: composability,
                },
                penalties,
                version: SCORE_VERSION.to_string(),
            };
            assert(s@.penalties =~= saf_penalties(*input));
            return s;
        }
        let cor = score_cor(input, &mut penalties);
        let idm = score_idm(input, &mut penalties);
        let prf = score_prf(input);
        let saf = score_saf(input, &mut penalties);
        let obs = score_obs(input);
        let doc = score_doc(input);
        let res = score_res(input);
        let composability = score_cmp(input);
        assert(penalties_view(penalties@) =~= cor_penalties(*input) + idm_penalties(*input)
            + saf_penalties(*input));
        let dimensions = DimensionScores {
            cor,
            idm,
            prf,
            saf,
            obs,
            doc,
            res,
            cmp: composability,
        };
        let failed = match input.runtime {
            Some(rt) => !rt.validate_pass || !rt.plan_pass || !rt.first_apply_pass,
            None => false,
        };
        if failed {
            return ForjarScore {
                composite: 0,
                grade: Grade::F,
                dimensions,
                penalties,
                version: SCORE_VERSION.to_string(),
            };
        }
        let composite = compute_composite(&dimensions);
        let grade = compute_grade(composite, dimensions.min_score());
        ForjarScore { composite, grade, dimensions, penalties, version: SCORE_VERSION.to_string() }
    }
}


/// An A needs at least 80 in every dimension and a composite of at least 90:
/// no recipe earns it by overperforming in the easy dimensions.
pub proof fn lemma_grade_a_needs_every_dimension(input: ScoringInput)
    ensures
        score_of(input).grade == Grade::A ==> {
            let d = score_of(input).dimensions;
            &&& score_of(input).composite >= 90
            &&& d.cor >= 80 && d.idm >= 80 && d.prf >= 80 && d.saf >= 80
            &&& d.obs >= 80 && d.doc >= 80 && d.res >= 80 && d.cmp >= 80
        },
{
}

/// Blocked and pending recipes, and recipes whose validate, plan or first
/// apply failed, score F with composite 0.
pub proof fn lemma_hard_fail_scores_f(input: ScoringInput)
    requires
        hard_fail_status(*input.status) || runtime_failed(input),
    ensures
        score_of(input).grade == Grade::F,
        score_of(input).composite == 0,
{
}

/// The weights sum to 100: when every dimension scores `v`, so does the composite.
pub proof fn lemma_uniform_composite(v: u32)
    requires
        v <= 100,
    ensures
        composite_of(
            DimensionScores { cor: v, idm: v, prf: v, saf: v, obs: v, doc: v, res: v, cmp: v },
        ) == v,
{
}

/// Raising any dimension never lowers the composite.
pub proof fn lemma_composite_monotone(a: DimensionScores, b: DimensionScores)
    requires
        a.cor <= b.cor && a.idm <= b.idm && a.prf <= b.prf && a.saf <= b.saf,
        a.obs <= b.obs && a.doc <= b.doc && a.res <= b.res && a.cmp <= b.cmp,
    ensures
        composite_of(a) <= composite_of(b),
{
    assert(weighted_sum(a) <= weighted_sum(b));
    assert(weighted_sum(a) / 100 <= weighted_sum(b) / 100) by (nonlinear_arith)
        requires
            weighted_sum(a) <= weighted_sum(b),
    ;
}

/// Each grade has its band: A needs a composite of 90 and every dimension at
/// 80; B, short of A, a composite of 75 and every dimension at 60; C, short of
/// B, 60 and 40; D, short of C, a composite of 40; F is a composite below 40.
pub proof fn lemma_grade_bands(composite: int, min_dim: int)
    ensures
        grade_for(composite, min_dim) == Grade::A <==> composite >= 90 && min_dim >= 80,
        grade_for(composite, min_dim) == Grade::B <==> 75 <= composite && 60 <= min_dim && !(
        composite >= 90 && min_dim >= 80),
        grade_for(composite, min_dim) == Grade::C <==> 60 <= composite && 40 <= min_dim && !(75
            <= composite && 60 <= min_dim),
        grade_for(composite, min_dim) == Grade::D <==> 40 <= composite && !(60 <= composite && 40
            <= min_dim),
        grade_for(composite, min_dim) == Grade::F <==> composite < 40,
{
}

/// On a recipe that is not failed outright, the score's grade is the band of
/// its own composite and lowest dimension.
pub proof fn lemma_score_grade_band(input: ScoringInput)
    requires
        !hard_fail_status(*input.status),
        !runtime_failed(input),
    ensures
        ({
            let s = score_of(input);
            let c = s.composite as int;
            let m = dims_min(s.dimensions) as int;
            &&& s.grade == Grade::A <==> c >= 90 && m >= 80
            &&& s.grade == Grade::B <==> 75 <= c && 60 <= m && !(c >= 90 && m >= 80)
            &&& s.grade == Grade::C <==> 60 <= c && 40 <= m && !(75 <= c && 60 <= m)
            &&& s.grade == Grade::D <==> 40 <= c && !(60 <= c && 40 <= m)
            &&& s.grade == Grade::F <==> c < 40
        }),
{
    let d = all_dims(input);
    lemma_grade_bands(composite_of(d), dims_min(d) as int);
}

/// The grade never drops when the composite or the lowest dimension rises.
pub proof fn lemma_grade_monotone(c1: int, m1: int, c2: int, m2: int)
    requires
        c1 <= c2,
        m1 <= m2,
    ensures
        grade_rank(grade_for(c1, m1)) <= grade_rank(grade_for(c2, m2)),
{
}

} // verus!

//! Forjar Score — grades, dimension scores, and the bridge to forjar's
//! two-tier scoring engine.
//!
//! forjar computes the scores; this module keeps the cookbook's presentation
//! types (`Grade`, `DimensionScores`) for the CSV, the table and the reports.

use vstd::prelude::*;

use crate::qualify::{class_text, status_text, IdempotencyClass, RecipeStatus};
use crate::text::{
    all_ascii, ascii_uppercase, chars_eq_str, chars_of, err_view, is_ascii_upper, is_ws,
    lemma_trim_no_ws, push_chars, push_str, string_of, to_uppercase, trim, trim_chars, uppercase,
};

verus! {

broadcast use vstd::string::group_string_axioms;

// ── Types ────────────────────────────────────────────────────────

/// Per-dimension scores (each 0–100).
#[derive(Debug, Clone, Copy, PartialEq, Eq, Structural)]
pub struct DimensionScores {
    /// Correctness.
    pub cor: u32,
    /// Idempotency.
    pub idm: u32,
    /// Performance.
    pub prf: u32,
    /// Safety.
    pub saf: u32,
    /// Observability.
    pub obs: u32,
    /// Documentation.
    pub doc: u32,
    /// Resilience.
    pub res: u32,
    /// Composability.
    pub cmp: u32,
}

/// The smaller of two numbers.
pub open spec fn min_u32(a: u32, b: u32) -> u32 {
    if a <= b {
        a
    } else {
        b
    }
}

/// The smallest of the eight dimension scores.
pub open spec fn dims_min(d: DimensionScores) -> u32 {
    min_u32(
        min_u32(min_u32(d.cor, d.idm), min_u32(d.prf, d.saf)),
        min_u32(min_u32(d.obs, d.doc), min_u32(d.res, d.cmp)),
    )
}

/// Every dimension score is at most 100.
pub open spec fn dims_bounded(d: DimensionScores) -> bool {
    d.cor <= 100 && d.idm <= 100 && d.prf <= 100 && d.saf <= 100 && d.obs <= 100 && d.doc <= 100
        && d.res <= 100 && d.cmp <= 100
}

impl DimensionScores {
    /// Minimum score across all dimensions.
    ///
    /// The result is one of the eight scores and no larger than any of them.
    pub fn min_score(&self) -> (m: u32)
        ensures
            m == dims_min(*self),
            m <= self.cor && m <= self.idm && m <= self.prf && m <= self.saf && m <= self.obs
                && m <= self.doc && m <= self.res && m <= self.cmp,
            m == self.cor || m == self.idm || m == self.prf || m == self.saf || m == self.obs
                || m == self.doc || m == self.res || m == self.cmp,
    {
        let mut m = self.cor;
        if self.idm < m {
            m = self.idm;
        }
        if self.prf < m {
            m = self.prf;
        }
        if self.saf < m {
            m = self.saf;
        }
        if self.obs < m {
            m = self.obs;
        }
        if self.doc < m {
            m = self.doc;
        }
        if self.res < m {
            m = self.res;
        }
        if self.cmp < m {
            m = self.cmp;
        }
        m
    }
}

/// Letter grade.
#[derive(Debug, Clone, Copy, PartialEq, Eq, Structural)]
pub enum Grade {
    /// Production-hardened.
    A,
    /// Solid, minor gaps.
    B,
    /// Functional but rough.
    C,
    /// Bare minimum.
    D,
    /// Failed or never qualified.
    F,
}

/// The letter of a grade.
pub open spec fn grade_text(g: Grade) -> Seq<char> {
    match g {
        Grade::A => "A"@,
        Grade::B => "B"@,
        Grade::C => "C"@,
        Grade::D => "D"@,
        Grade::F => "F"@,
    }
}

/// The shields.io badge markdown for a grade.
pub open spec fn grade_badge_text(g: Grade) -> Seq<char> {
    match g {
        Grade::A => "![A](https://img.shields.io/badge/A-brightgreen)"@,
        Grade::B => "![B](https://img.shields.io/badge/B-blue)"@,
        Grade::C => "![C](https://img.shields.io/badge/C-yellow)"@,
        Grade::D => "![D](https://img.shields.io/badge/D-orange)"@,
        Grade::F => "![F](https://img.shields.io/badge/F-red)"@,
    }
}

/// The grade that a CSV word names: one of the five letters, or empty for `F`.
pub open spec fn grade_word(t: Seq<char>) -> Option<Grade> {
    if t == "A"@ {
        Some(Grade::A)
    } else if t == "B"@ {
        Some(Grade::B)
    } else if t == "C"@ {
        Some(Grade::C)
    } else if t == "D"@ {
        Some(Grade::D)
    } else if t == "F"@ || t.len() == 0 {
        Some(Grade::F)
    } else {
        None
    }
}

/// How a CSV cell reads as a grade: trimmed, one of the five letters (or
/// empty for `F`) as it stands or uppercased; otherwise the error names the
/// uppercased text.
pub open spec fn grade_from_text(t: Seq<char>) -> Result<Grade, Seq<char>> {
    match grade_word(trim(t)) {
        Some(g) => Ok(g),
        None => match grade_word(uppercase(trim(t))) {
            Some(g) => Ok(g),
            None => Err("unknown grade: "@ + uppercase(trim(t))),
        },
    }
}

/// A grade from a letter: `A`–`D`, anything else is `F`.
pub open spec fn grade_of_char(c: char) -> Grade {
    if c == 'A' {
        Grade::A
    } else if c == 'B' {
        Grade::B
    } else if c == 'C' {
        Grade::C
    } else if c == 'D' {
        Grade::D
    } else {
        Grade::F
    }
}

/// The rank of a grade letter: `A` 4 down to `D` 1; anything else 0.
pub open spec fn char_rank(c: char) -> nat {
    if c == 'A' {
        4
    } else if c == 'B' {
        3
    } else if c == 'C' {
        2
    } else if c == 'D' {
        1
    } else {
        0
    }
}

/// The rank of a grade: `A` 4 down to `F` 0.
pub open spec fn grade_rank(g: Grade) -> nat {
    match g {
        Grade::A => 4,
        Grade::B => 3,
        Grade::C => 2,
        Grade::D => 1,
        Grade::F => 0,
    }
}

/// The letter of a rank.
pub open spec fn rank_char(r: nat) -> char {
    if r == 4 {
        'A'
    } else if r == 3 {
        'B'
    } else if r == 2 {
        'C'
    } else if r == 1 {
        'D'
    } else {
        'F'
    }
}

/// The lower of two grade letters.
pub open spec fn grade_min_spec(a: char, b: char) -> char {
    rank_char(if char_rank(a) <= char_rank(b) {
        char_rank(a)
    } else {
        char_rank(b)
    })
}

/// The grade letters consist of ASCII uppercase letters only.
proof fn lemma_grade_text_upper(g: Grade)
    ensures
        forall|i: int| 0 <= i < grade_text(g).len() ==> is_ascii_upper(#[trigger] grade_text(g)[i]),
        grade_text(g).len() == 1,
{
    reveal_strlit("A");
    reveal_strlit("B");
    reveal_strlit("C");
    reveal_strlit("D");
    reveal_strlit("F");
}

/// What a trimmed and uppercased cell `u` reads as: the grade its letter names
/// (`F` for an empty cell), or the error `unknown grade: ` followed by `u`.
pub open spec fn grade_of_uppered(u: Seq<char>) -> Result<Grade, Seq<char>> {
    match grade_word(u) {
        Some(g) => Ok(g),
        None => Err("unknown grade: "@ + u),
    }
}

/// A grade word is ASCII and its own uppercase.
proof fn lemma_grade_word_ascii(t: Seq<char>)
    requires
        grade_word(t) is Some,
    ensures
        all_ascii(t),
        ascii_uppercase(t) == t,
{
    reveal_strlit("A");
    reveal_strlit("B");
    reveal_strlit("C");
    reveal_strlit("D");
    reveal_strlit("F");
    if t.len() > 0 {
        let g = grade_word(t)->Some_0;
        assert(t == grade_text(g));
        lemma_grade_text_upper(g);
    }
    assert(ascii_uppercase(t) =~= t);
}

/// Each grade letter reads back as its grade.
pub proof fn lemma_grade_roundtrip(g: Grade)
    ensures
        grade_from_text(grade_text(g)) == Ok::<Grade, Seq<char>>(g),
{
    reveal_strlit("A");
    reveal_strlit("B");
    reveal_strlit("C");
    reveal_strlit("D");
    reveal_strlit("F");
    let t = grade_text(g);
    lemma_grade_text_upper(g);
    assert(!is_ws(t[0]));
    lemma_trim_no_ws(t);
}

/// The grade that the text names, if it is a grade word.
fn grade_of_word(t: &Vec<char>) -> (r: Option<Grade>)
    ensures
        r == grade_word(t@),
{
    if chars_eq_str(t, "A") {
        Some(Grade::A)
    } else if chars_eq_str(t, "B") {
        Some(Grade::B)
    } else if chars_eq_str(t, "C") {
        Some(Grade::C)
    } else if chars_eq_str(t, "D") {
        Some(Grade::D)
    } else if chars_eq_str(t, "F") || t.len() == 0 {
        Some(Grade::F)
    } else {
        None
    }
}

impl Grade {
    /// Shields.io badge markdown.
    pub fn badge(&self) -> (b: &'static str)
        ensures
            b@ == grade_badge_text(*self),
    {
        match self {
            Grade::A => "![A](https://img.shields.io/badge/A-brightgreen)",
            Grade::B => "![B](https://img.shields.io/badge/B-blue)",
            Grade::C => "![C](https://img.shields.io/badge/C-yellow)",
            Grade::D => "![D](https://img.shields.io/badge/D-orange)",
            Grade::F => "![F](https://img.shields.io/badge/F-red)",
        }
    }

    /// Short string for CSV.
    pub fn as_str(&self) -> (s: &'static str)
        ensures
            s@ == grade_text(*self),
    {
        match self {
            Grade::A => "A",
            Grade::B => "B",
            Grade::C => "C",
            Grade::D => "D",
            Grade::F => "F",
        }
    }

    /// Parse from CSV string.
    ///
    /// The cell is trimmed and uppercased; `A`–`F` are accepted and an empty
    /// cell reads as `F`. Each letter that `as_str` gives reads back as its
    /// grade.
    pub fn from_csv(s: &str) -> (r: Result<Self, String>)
        ensures
            err_view(r) == grade_of_uppered(uppercase(trim(s@))),
            all_ascii(trim(s@)) ==> err_view(r) == grade_of_uppered(ascii_uppercase(trim(s@))),
            err_view(r) == grade_from_text(s@),
            forall|g: Grade| s@ == grade_text(g) ==> r == Ok::<Grade, String>(g),
    {
        proof {
            assert forall|g: Grade| s@ == grade_text(g) implies grade_from_text(s@) == Ok::<
                Grade,
                Seq<char>,
            >(g) by {
                lemma_grade_roundtrip(g);
            }
        }
        let v = chars_of(s);
        let t = trim_chars(&v);
        let u = chars_of(to_uppercase(string_of(&t).as_str()).as_str());
        proof {
            if grade_word(t@) is Some {
                lemma_grade_word_ascii(t@);
            }
        }
        match grade_of_word(&t) {
            Some(g) => Ok(g),
            None => match grade_of_word(&u) {
                Some(g) => Ok(g),
                None => {
                    let mut e = String::new();
                    push_str(&mut e, "unknown grade: ");
                    push_chars(&mut e, &u);
                    Err(e)
                },
            },
        }
    }

    /// Convert from forjar's `char` grade.
    pub fn from_char(c: char) -> (g: Self)
        ensures
            g == grade_of_char(c),
    {
        match c {
            'A' => Grade::A,
            'B' => Grade::B,
            'C' => Grade::C,
            'D' => Grade::D,
            _ => Grade::F,
        }
    }
}

/// Rank of a grade letter.
fn char_rank_exec(c: char) -> (r: u8)
    ensures
        r == char_rank(c),
{
    match c {
        'A' => 4,
        'B' => 3,
        'C' => 2,
        'D' => 1,
        _ => 0,
    }
}

/// Minimum of two grade chars.
///
/// The result is the lower of the two grades; letters other than `A`–`D` count as `F`.
pub fn grade_min_char(a: char, b: char) -> (c: char)
    ensures
        c == grade_min_spec(a, b),
        char_rank(c) <= char_rank(a) && char_rank(c) <= char_rank(b),
        char_rank(c) == char_rank(a) || char_rank(c) == char_rank(b),
{
    let ra = char_rank_exec(a);
    let rb = char_rank_exec(b);
    let m = if ra <= rb {
        ra
    } else {
        rb
    };
    match m {
        4 => 'A',
        3 => 'B',
        2 => 'C',
        1 => 'D',
        _ => 'F',
    }
}

/// Taking the lower of two grades does not depend on their order, and a grade
/// against itself is that grade (for the letters `A`–`D` and `F`).
pub proof fn lemma_grade_min_laws(a: char, b: char)
    ensures
        grade_min_spec(a, b) == grade_min_spec(b, a),
        char_rank(grade_min_spec(a, a)) == char_rank(a),
        grade_of_char(grade_min_spec(a, b)) == (if grade_rank(grade_of_char(a)) <= grade_rank(
            grade_of_char(b),
        ) {
            grade_of_char(a)
        } else {
            grade_of_char(b)
        }),
{
}

/// A scoring penalty applied to a dimension.
pub struct Penalty {
    /// Which dimension this penalty affects.
    pub dimension: String,
    /// Points deducted (positive = deduction).
    pub points: i32,
    /// Human-readable reason.
    pub reason: String,
}

/// A penalty with its text taken by its characters.
pub struct PenaltyView {
    pub dimension: Seq<char>,
    pub points: i32,
    pub reason: Seq<char>,
}

impl View for Penalty {
    type V = PenaltyView;

    open spec fn view(&self) -> PenaltyView {
        PenaltyView { dimension: self.dimension@, points: self.points, reason: self.reason@ }
    }
}

/// Penalties taken by their views.
pub open spec fn penalties_view(ps: Seq<Penalty>) -> Seq<PenaltyView> {
    ps.map_values(|p: Penalty| p@)
}

/// Runtime data collected during qualification (from `cookbook-runner`).
#[derive(Debug, Clone, Copy)]
pub struct RuntimeData {
    /// Whether `forjar validate` passed.
    pub validate_pass: bool,
    /// Whether `forjar plan` passed.
    pub plan_pass: bool,
    /// Whether first `forjar apply` passed.
    pub first_apply_pass: bool,
    /// Whether second apply passed.
    pub second_apply_pass: bool,
    /// Whether second apply had zero changes.
    pub zero_changes: bool,
    /// Whether state hashes are stable across applies.
    pub hash_stable: bool,
    /// Number of resources that changed on second apply.
    pub changed_on_reapply: u32,
    /// Number of warnings during apply.
    pub warning_count: u32,
    /// First apply time in milliseconds.
    pub first_apply_ms: u64,
    /// Idempotent apply time in milliseconds.
    pub idempotent_apply_ms: u64,
    /// Whether state lock file was written.
    pub state_lock_written: bool,
    /// Whether all resources converged.
    pub all_resources_converged: bool,
}

impl RuntimeData {
    /// Runtime data with every check failed and every count and time zero.
    pub fn new() -> (r: RuntimeData)
        ensures
            !r.validate_pass && !r.plan_pass && !r.first_apply_pass && !r.second_apply_pass
                && !r.zero_changes && !r.hash_stable && r.changed_on_reapply == 0
                && r.warning_count == 0 && r.first_apply_ms == 0 && r.idempotent_apply_ms == 0
                && !r.state_lock_written && !r.all_resources_converged,
    {
        RuntimeData {
            validate_pass: false,
            plan_pass: false,
            first_apply_pass: false,
            second_apply_pass: false,
            zero_changes: false,
            hash_stable: false,
            changed_on_reapply: 0,
            warning_count: 0,
            first_apply_ms: 0,
            idempotent_apply_ms: 0,
            state_lock_written: false,
            all_resources_converged: false,
        }
    }
}

impl Default for RuntimeData {
    /// Runtime data with every check failed and every count and time zero.
    fn default() -> (r: RuntimeData)
        ensures
            !r.validate_pass && !r.plan_pass && !r.first_apply_pass && !r.second_apply_pass
                && !r.zero_changes && !r.hash_stable && r.changed_on_reapply == 0
                && r.warning_count == 0 && r.first_apply_ms == 0 && r.idempotent_apply_ms == 0
                && !r.state_lock_written && !r.all_resources_converged,
    {
        RuntimeData::new()
    }
}

// ── Complete score ───────────────────────────────────────────────

/// Complete Forjar Score for a recipe.
pub struct ForjarScore {
    /// Composite score (0–100).
    pub composite: u32,
    /// Overall letter grade — `min(static, runtime)`.
    pub grade: Grade,
    /// Static grade (design quality).
    pub static_grade: Grade,
    /// Runtime grade (operational quality), or `None` if not yet qualified.
    pub runtime_grade: Option<Grade>,
    /// Per-dimension breakdown.
    pub dimensions: DimensionScores,
    /// Penalties applied during scoring.
    pub penalties: Vec<Penalty>,
    /// Scoring algorithm version.
    pub version: String,
}

/// A score with its text and penalties taken by their views.
pub struct ForjarScoreView {
    pub composite: u32,
    pub grade: Grade,
    pub static_grade: Grade,
    pub runtime_grade: Option<Grade>,
    pub dimensions: DimensionScores,
    pub penalties: Seq<PenaltyView>,
    pub version: Seq<char>,
}

impl View for ForjarScore {
    type V = ForjarScoreView;

    open spec fn view(&self) -> ForjarScoreView {
        ForjarScoreView {
            composite: self.composite,
            grade: self.grade,
            static_grade: self.static_grade,
            runtime_grade: self.runtime_grade,
            dimensions: self.dimensions,
            penalties: penalties_view(self.penalties@),
            version: self.version@,
        }
    }
}

/// Combined input for scoring: recipe status, raw YAML text,
/// performance budget, idempotency class, and optional runtime data.
pub struct ScoringInput<'a> {
    /// Recipe qualification status.
    pub status: &'a RecipeStatus,
    /// Idempotency class from CSV.
    pub idempotency_class: &'a IdempotencyClass,
    /// Raw YAML text (parsed internally by forjar).
    pub raw_yaml: &'a str,
    /// Performance budget for first apply (ms). 0 = no budget.
    pub budget_ms: u64,
    /// Runtime data (None for blocked/pending recipes — static-only scoring).
    pub runtime: Option<&'a RuntimeData>,
}

/// What forjar's scoring engine returns, as plain values.
pub struct ForjarOutcome {
    /// Per-dimension code (`"COR"`, …) and score, in forjar's order.
    pub dimensions: Vec<(String, u32)>,
    /// Composite over all eight dimensions.
    pub composite: u32,
    /// Static (design) grade letter.
    pub static_grade: char,
    /// Runtime grade letter, when runtime data was given.
    pub runtime_grade: Option<char>,
}

/// An outcome with its dimension codes taken by their characters.
pub struct ForjarOutcomeView {
    pub dimensions: Seq<(Seq<char>, u32)>,
    pub composite: u32,
    pub static_grade: char,
    pub runtime_grade: Option<char>,
}

/// Dimension entries with their codes taken by their characters.
pub open spec fn entries_view(dims: Seq<(String, u32)>) -> Seq<(Seq<char>, u32)> {
    dims.map_values(|d: (String, u32)| (d.0@, d.1))
}

impl View for ForjarOutcome {
    type V = ForjarOutcomeView;

    open spec fn view(&self) -> ForjarOutcomeView {
        ForjarOutcomeView {
            dimensions: entries_view(self.dimensions@),
            composite: self.composite,
            static_grade: self.static_grade,
            runtime_grade: self.runtime_grade,
        }
    }
}

/// The dimension codes in the order forjar lists them.
pub open spec fn dimension_codes() -> Seq<Seq<char>> {
    seq!["COR"@, "IDM"@, "PRF"@, "SAF"@, "OBS"@, "DOC"@, "RES"@, "CMP"@]
}

/// A letter that forjar uses as a grade.
pub open spec fn is_grade_letter(c: char) -> bool {
    c == 'A' || c == 'B' || c == 'C' || c == 'D' || c == 'F'
}

/// What holds of every result of forjar's scoring engine: eight dimensions
/// with the codes in order, each at most 100; the runtime dimensions are 0
/// without runtime data, performance is 0 without a budget; there is a runtime
/// grade exactly when runtime data was given; grades are letters `A`–`D`, `F`.
pub open spec fn outcome_facts(o: ForjarOutcomeView, has_runtime: bool, budget_ms: u64) -> bool {
    &&& o.dimensions.len() == 8
    &&& forall|i: int|
        0 <= i < 8 ==> (#[trigger] o.dimensions[i]).0 == dimension_codes()[i]
            && o.dimensions[i].1 <= 100
    &&& !has_runtime ==> o.dimensions[0].1 == 0 && o.dimensions[1].1 == 0
        && o.dimensions[2].1 == 0
    &&& budget_ms == 0 ==> o.dimensions[2].1 == 0
    &&& o.runtime_grade.is_some() == has_runtime
    &&& is_grade_letter(o.static_grade)
    &&& (o.runtime_grade matches Some(c) ==> is_grade_letter(c))
    &&& o.composite <= 100
}

/// The score of the first dimension with the given code, or 0 if none has it.
pub open spec fn lookup_score(dims: Seq<(Seq<char>, u32)>, code: Seq<char>) -> u32
    decreases dims.len(),
{
    if dims.len() == 0 {
        0
    } else if dims[0].0 == code {
        dims[0].1
    } else {
        lookup_score(dims.drop_first(), code)
    }
}

/// Dimension scores looked up by code.
pub open spec fn dims_of_entries(dims: Seq<(Seq<char>, u32)>) -> DimensionScores {
    DimensionScores {
        cor: lookup_score(dims, "COR"@),
        idm: lookup_score(dims, "IDM"@),
        prf: lookup_score(dims, "PRF"@),
        saf: lookup_score(dims, "SAF"@),
        obs: lookup_score(dims, "OBS"@),
        doc: lookup_score(dims, "DOC"@),
        res: lookup_score(dims, "RES"@),
        cmp: lookup_score(dims, "CMP"@),
    }
}

/// The overall grade letter: the lower of static and runtime, or static alone.
pub open spec fn overall_letter(o: ForjarOutcomeView) -> char {
    match o.runtime_grade {
        Some(rg) => grade_min_spec(o.static_grade, rg),
        None => o.static_grade,
    }
}

/// The score built from forjar's result.
pub open spec fn outcome_score(o: ForjarOutcomeView) -> ForjarScoreView {
    ForjarScoreView {
        composite: o.composite,
        grade: grade_of_char(overall_letter(o)),
        static_grade: grade_of_char(o.static_grade),
        runtime_grade: match o.runtime_grade {
            Some(c) => Some(grade_of_char(c)),
            None => None,
        },
        dimensions: dims_of_entries(o.dimensions),
        penalties: Seq::empty(),
        version: "2.0"@,
    }
}

/// All dimension scores zero.
pub open spec fn zero_dims() -> DimensionScores {
    DimensionScores { cor: 0, idm: 0, prf: 0, saf: 0, obs: 0, doc: 0, res: 0, cmp: 0 }
}

/// The score given when the YAML is not a forjar configuration.
pub open spec fn parse_failure_score() -> ForjarScoreView {
    ForjarScoreView {
        composite: 0,
        grade: Grade::F,
        static_grade: Grade::F,
        runtime_grade: None,
        dimensions: zero_dims(),
        penalties: seq![
            PenaltyView { dimension: "ALL"@, points: 100, reason: "YAML parse failure"@ },
        ],
        version: "2.0"@,
    }
}

impl DimensionScores {
    /// Build from forjar's dimension score vector (each score looked up by code, 0 if absent).
    pub fn from_forjar(dims: &Vec<(String, u32)>) -> (d: DimensionScores)
        ensures
            d == dims_of_entries(entries_view(dims@)),
    {
        DimensionScores {
            cor: find_score(dims, "COR"),
            idm: find_score(dims, "IDM"),
            prf: find_score(dims, "PRF"),
            saf: find_score(dims, "SAF"),
            obs: find_score(dims, "OBS"),
            doc: find_score(dims, "DOC"),
            res: find_score(dims, "RES"),
            cmp: find_score(dims, "CMP"),
        }
    }
}

/// The score of the first dimension with code `code`, or 0.
fn find_score(dims: &Vec<(String, u32)>, code: &str) -> (s: u32)
    ensures
        s == lookup_score(entries_view(dims@), code@),
{
    let want = crate::text::chars_of(code);
    let mut i: usize = 0;
    assert(dims@.skip(0) =~= dims@);
    while i < dims.len()
        invariant
            i <= dims@.len(),
            lookup_score(entries_view(dims@), code@) == lookup_score(
                entries_view(dims@.skip(i as int)),
                code@,
            ),
            want@ == code@,
        decreases dims@.len() - i,
    {
        assert(entries_view(dims@.skip(i as int)).drop_first() =~= entries_view(dims@.skip(i + 1)));
        assert(entries_view(dims@.skip(i as int))[0] == (dims@[i as int].0@, dims@[i as int].1));
        let c = crate::text::chars_of(dims[i].0.as_str());
        if crate::text::chars_eq(&c, &want) {
            return dims[i].1;
        }
        i = i + 1;
    }
    assert(entries_view(dims@.skip(i as int)).len() == 0);
    0
}

/// Scoring algorithm version: that of forjar's engine, which `forjar_score_version` reads.
pub const SCORE_VERSION: &'static str = "2.0";

/// Reads forjar's scoring version, `forjar::core::scoring::SCORE_VERSION`.
///
/// Claimed of forjar: the constant is `"2.0"`, as its source defines it.
#[verifier::external_body]
fn forjar_score_version() -> (v: String)
    ensures
        v@ == "2.0"@,
{
    forjar::core::scoring::SCORE_VERSION.to_string()
}

/// Whether `serde_yaml_ng::from_str` reads `yaml` as a forjar `ForjarConfig`.
pub uninterp spec fn is_forjar_config(yaml: Seq<char>) -> bool;

/// What `forjar::core::scoring::compute` gives for the configuration read from
/// `yaml`, the status and idempotency words, the budget, the runtime data and
/// the raw text handed to it.
pub uninterp spec fn forjar_outcome(
    yaml: Seq<char>,
    status: Seq<char>,
    idempotency: Seq<char>,
    budget_ms: u64,
    runtime: Option<RuntimeData>,
    raw_yaml: Option<Seq<char>>,
) -> ForjarOutcomeView;

/// The runtime data behind an optional reference.
pub open spec fn runtime_of(r: Option<&RuntimeData>) -> Option<RuntimeData> {
    match r {
        Some(t) => Some(*t),
        None => None,
    }
}

/// Texts behind an optional string.
pub open spec fn opt_string(s: Option<String>) -> Option<Seq<char>> {
    match s {
        Some(t) => Some(t@),
        None => None,
    }
}

/// The inputs on which forjar's scoring runs without overflow: the timing
/// percentages it takes in `u64` (first apply × 100 against the budget, second
/// apply × 100 against the first) fit, and the text is small enough that its
/// `i32` safety total (at most 68 points per resource, 10 per secret-like
/// parameter) cannot overflow.
pub open spec fn forjar_scorable(yaml: Seq<char>, budget_ms: u64, runtime: Option<RuntimeData>) -> bool {
    &&& yaml.len() <= 0x1000_0000
    &&& match runtime {
        Some(rt) => budget_ms > 0 ==> {
            &&& rt.first_apply_ms <= u64::MAX / 100
            &&& rt.first_apply_ms > 0 ==> rt.idempotent_apply_ms <= u64::MAX / 100
        },
        None => true,
    }
}

/// Reads `yaml` as forjar's `ForjarConfig` with `serde_yaml_ng::from_str` and,
/// when that succeeds, runs `forjar::core::scoring::compute` on it.
///
/// Claimed of serde_yaml_ng and forjar (as their sources show): reading
/// succeeds depending on the text alone (`is_forjar_config`); the scores are a
/// function of the arguments (`forjar_outcome`) with eight dimensions with the
/// codes COR, IDM, PRF, SAF, OBS, DOC, RES, CMP in that order, each at most 100;
/// COR, IDM and PRF are 0 without runtime data and PRF is 0 without a budget;
/// a runtime grade exactly when runtime data is given; grade letters `A`–`D`
/// or `F`; a composite of at most 100. How the scores follow from the
/// configuration and the text is not stated.
#[verifier::external_body]
fn forjar_scoring(
    yaml: &str,
    status: String,
    idempotency: String,
    budget_ms: u64,
    runtime: Option<&RuntimeData>,
    raw_yaml: Option<String>,
) -> (r: Option<ForjarOutcome>)
    requires
        forjar_scorable(yaml@, budget_ms, runtime_of(runtime)),
    ensures
        r.is_some() == is_forjar_config(yaml@),
        r matches Some(o) ==> o@ == forjar_outcome(
            yaml@,
            status@,
            idempotency@,
            budget_ms,
            runtime_of(runtime),
            opt_string(raw_yaml),
        ) && outcome_facts(o@, runtime.is_some(), budget_ms),
{
    let config = serde_yaml_ng::from_str(yaml).ok()?;
    let runtime = runtime.map(|&RuntimeData { validate_pass, plan_pass, first_apply_pass,
        second_apply_pass, zero_changes, hash_stable, changed_on_reapply, warning_count,
        first_apply_ms, idempotent_apply_ms, state_lock_written, all_resources_converged }|
        forjar::core::scoring::RuntimeData { validate_pass, plan_pass, first_apply_pass,
        second_apply_pass, zero_changes_on_reapply: zero_changes, hash_stable, changed_on_reapply,
        warning_count, first_apply_ms, second_apply_ms: idempotent_apply_ms, state_lock_written,
        all_resources_converged });
    let r = forjar::core::scoring::compute(&config, &forjar::core::scoring::ScoringInput { status,
        idempotency, budget_ms, raw_yaml, runtime });
    Some(ForjarOutcome { composite: r.composite, static_grade: r.static_grade, runtime_grade:
        r.runtime_grade, dimensions: r.dimensions.iter().map(|d| (d.code.into(), d.score)).collect() })
}

/// A grade read from a letter has that letter's rank.
pub proof fn lemma_grade_of_char_rank(c: char)
    ensures
        grade_rank(grade_of_char(c)) == char_rank(c),
{
}

/// The overall grade is the lower of the static and runtime grades — one of
/// the two, ranked no higher than either — and the static grade alone when
/// there is no runtime grade.
pub proof fn lemma_overall_grade(o: ForjarOutcomeView)
    ensures
        o.runtime_grade matches Some(rg) ==> grade_rank(grade_of_char(overall_letter(o))) == (
        if char_rank(o.static_grade) <= char_rank(rg) {
            char_rank(o.static_grade)
        } else {
            char_rank(rg)
        }),
        o.runtime_grade is None ==> overall_letter(o) == o.static_grade,
{
    if let Some(rg) = o.runtime_grade {
        lemma_grade_of_char_rank(overall_letter(o));
    }
}

impl ForjarScore {
    /// The score for forjar's result: its composite and dimensions; the
    /// overall grade is the lower of static and runtime grade (static alone
    /// without a runtime grade); no penalties; forjar's scoring version.
    pub fn from_outcome(o: &ForjarOutcome) -> (s: ForjarScore)
        ensures
            s@ == outcome_score(o@),
            grade_rank(s.grade) <= grade_rank(s.static_grade),
            s.runtime_grade matches Some(rg) ==> grade_rank(s.grade) <= grade_rank(rg),
            s.static_grade == grade_of_char(o.static_grade),
            s.runtime_grade matches Some(rg) ==> grade_rank(s.grade) == (if grade_rank(
                s.static_grade,
            ) <= grade_rank(rg) {
                grade_rank(s.static_grade)
            } else {
                grade_rank(rg)
            }),
            s.runtime_grade is None ==> s.grade == s.static_grade,
    {
        proof {
            lemma_overall_grade(o@);
            lemma_grade_of_char_rank(o.static_grade);
            if let Some(rg) = o.runtime_grade {
                lemma_grade_of_char_rank(rg);
            }
        }
        let grade_char = match o.runtime_grade {
            Some(rg) => grade_min_char(o.static_grade, rg),
            None => o.static_grade,
        };
        let runtime_grade = match o.runtime_grade {
            Some(c) => Some(Grade::from_char(c)),
            None => None,
        };
        let s = ForjarScore {
            composite: o.composite,
            grade: Grade::from_char(grade_char),
            static_grade: Grade::from_char(o.static_grade),
            runtime_grade,
            dimensions: DimensionScores::from_forjar(&o.dimensions),
            penalties: Vec::new(),
            version: forjar_score_version(),
        };
        assert(penalties_view(s.penalties@) =~= Seq::<PenaltyView>::empty());
        s
    }

    /// The score for YAML that forjar cannot read: everything 0, grade F, one
    /// penalty on all dimensions.
    fn parse_failure() -> (s: ForjarScore)
        ensures
            s@ == parse_failure_score(),
    {
        let mut penalties: Vec<Penalty> = Vec::new();
        penalties.push(
            Penalty {
                dimension: "ALL".to_string(),
                points: 100,
                reason: "YAML parse failure".to_string(),
            },
        );
        let s = ForjarScore {
            composite: 0,
            grade: Grade::F,
            static_grade: Grade::F,
            runtime_grade: None,
            dimensions: DimensionScores {
                cor: 0,
                idm: 0,
                prf: 0,
                saf: 0,
                obs: 0,
                doc: 0,
                res: 0,
                cmp: 0,
            },
            penalties,
            version: forjar_score_version(),
        };
        assert(penalties_view(s.penalties@) =~= parse_failure_score().penalties);
        s
    }

    /// Compute the Forjar Score by delegating to forjar's v2 scoring engine.
    ///
    /// YAML that forjar cannot read scores 0 with grade F. Otherwise forjar's
    /// result for the recipe text, status and class words, budget and runtime
    /// data is taken as `from_outcome` takes it, so the overall grade is never
    /// above the static grade nor above the runtime grade.
    pub fn compute(input: &ScoringInput) -> (s: ForjarScore)
        requires
            forjar_scorable(input.raw_yaml@, input.budget_ms, runtime_of(input.runtime)),
        ensures
            !is_forjar_config(input.raw_yaml@) ==> s@ == parse_failure_score(),
            is_forjar_config(input.raw_yaml@) ==> s@ == outcome_score(
                forjar_outcome(
                    input.raw_yaml@,
                    status_text(*input.status),
                    class_text(*input.idempotency_class),
                    input.budget_ms,
                    runtime_of(input.runtime),
                    Some(input.raw_yaml@),
                ),
            ),
            grade_rank(s.grade) <= grade_rank(s.static_grade),
            s.runtime_grade matches Some(rg) ==> grade_rank(s.grade) == (if grade_rank(
                s.static_grade,
            ) <= grade_rank(rg) {
                grade_rank(s.static_grade)
            } else {
                grade_rank(rg)
            }),
            s.runtime_grade is None ==> s.grade == s.static_grade,
            s.runtime_grade.is_some() ==> input.runtime.is_some(),
            dims_bounded(s.dimensions),
            s.composite <= 100,
    {
        let result = forjar_scoring(
            input.raw_yaml,
            input.status.as_str().to_string(),
            input.idempotency_class.as_str().to_string(),
            input.budget_ms,
            input.runtime,
            Some(input.raw_yaml.to_string()),
        );
        match result {
            None => Self::parse_failure(),
            Some(o) => {
                proof {
                    lemma_outcome_dims(o@);
                }
                Self::from_outcome(&o)
            },
        }
    }
}

/// The lookup finds the entry at `k` when no earlier entry has its code.
proof fn lemma_lookup_at(dims: Seq<(Seq<char>, u32)>, code: Seq<char>, k: int)
    requires
        0 <= k < dims.len(),
        dims[k].0 == code,
        forall|j: int| 0 <= j < k ==> (#[trigger] dims[j]).0 != code,
    ensures
        lookup_score(dims, code) == dims[k].1,
    decreases k,
{
    if k > 0 {
        assert(dims[0].0 != code);
        assert forall|j: int| 0 <= j < k - 1 implies (#[trigger] dims.drop_first()[j]).0
            != code by {
            assert(dims.drop_first()[j] == dims[j + 1]);
        }
        lemma_lookup_at(dims.drop_first(), code, k - 1);
    }
}

/// The eight dimension codes are distinct.
proof fn lemma_codes_distinct()
    ensures
        forall|i: int, j: int|
            0 <= i < 8 && 0 <= j < 8 && i != j ==> #[trigger] dimension_codes()[i]
                != #[trigger] dimension_codes()[j],
{
    reveal_strlit("COR");
    reveal_strlit("IDM");
    reveal_strlit("PRF");
    reveal_strlit("SAF");
    reveal_strlit("OBS");
    reveal_strlit("DOC");
    reveal_strlit("RES");
    reveal_strlit("CMP");
    let c = dimension_codes();
    assert forall|i: int, j: int|
        0 <= i < 8 && 0 <= j < 8 && i != j implies #[trigger] c[i] != #[trigger] c[j] by {
        if c[i] == c[j] {
            assert(c[i][0] == c[j][0]);
            assert(c[i][1] == c[j][1]);
        }
    }
}

/// With forjar's codes in order, each dimension is read from its own position.
proof fn lemma_outcome_dims(o: ForjarOutcomeView)
    requires
        o.dimensions.len() == 8,
        forall|i: int|
            0 <= i < 8 ==> (#[trigger] o.dimensions[i]).0 == dimension_codes()[i]
                && o.dimensions[i].1 <= 100,
    ensures
        dims_bounded(dims_of_entries(o.dimensions)),
        dims_of_entries(o.dimensions).cor == o.dimensions[0].1,
        dims_of_entries(o.dimensions).idm == o.dimensions[1].1,
        dims_of_entries(o.dimensions).prf == o.dimensions[2].1,
{
    let d = o.dimensions;
    let c = dimension_codes();
    lemma_codes_distinct();
    assert forall|k: int| 0 <= k < 8 implies lookup_score(d, #[trigger] c[k]) == d[k].1 by {
        assert forall|j: int| 0 <= j < k implies (#[trigger] d[j]).0 != c[k] by {
            assert(d[j].0 == c[j]);
        }
        assert(d[k].0 == c[k]);
        lemma_lookup_at(d, c[k], k);
    }
    assert(c[0] == "COR"@);
    assert(c[1] == "IDM"@);
    assert(c[2] == "PRF"@);
    assert(c[3] == "SAF"@);
    assert(c[4] == "OBS"@);
    assert(c[5] == "DOC"@);
    assert(c[6] == "RES"@);
    assert(c[7] == "CMP"@);
    assert(d[3].1 <= 100 && d[4].1 <= 100 && d[5].1 <= 100 && d[6].1 <= 100
        && d[7].1 <= 100 && d[0].1 <= 100 && d[1].1 <= 100 && d[2].1 <= 100);
}

} // verus!

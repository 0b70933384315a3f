//! Recipe qualification types.

use vstd::prelude::*;

use crate::text::{
    all_ascii, ascii_lowercase, chars_eq_str, chars_of, err_view, is_ascii_lower, is_ws,
    lemma_trim_no_ws, lowercase, push_chars, push_str, string_of, to_lowercase, trim, trim_chars,
};

verus! {

broadcast use vstd::string::group_string_axioms;

/// Recipe qualification status.
#[derive(Debug, Clone, Copy, PartialEq, Eq, Structural)]
pub enum RecipeStatus {
    /// Recipe passes all qualification checks.
    Qualified,
    /// Recipe is blocked by a forjar bug or missing feature.
    Blocked,
    /// Recipe has not been qualified yet.
    Pending,
}

/// The CSV word for a status.
pub open spec fn status_text(s: RecipeStatus) -> Seq<char> {
    match s {
        RecipeStatus::Qualified => "qualified"@,
        RecipeStatus::Blocked => "blocked"@,
        RecipeStatus::Pending => "pending"@,
    }
}

/// The shields.io badge markdown for a status.
pub open spec fn status_badge_text(s: RecipeStatus) -> Seq<char> {
    match s {
        RecipeStatus::Qualified => "![qualified](https://img.shields.io/badge/QUALIFIED-brightgreen)"@,
        RecipeStatus::Blocked => "![blocked](https://img.shields.io/badge/BLOCKED-red)"@,
        RecipeStatus::Pending => "![pending](https://img.shields.io/badge/PENDING-lightgray)"@,
    }
}

/// The status that a word names, if it is one of the three CSV words.
pub open spec fn status_word(t: Seq<char>) -> Option<RecipeStatus> {
    if t == "qualified"@ {
        Some(RecipeStatus::Qualified)
    } else if t == "blocked"@ {
        Some(RecipeStatus::Blocked)
    } else if t == "pending"@ {
        Some(RecipeStatus::Pending)
    } else {
        None
    }
}

/// How a CSV cell reads as a status: trimmed, it must be one of the three
/// words, as it stands or lowercased; otherwise the error names the lowercased
/// text.
pub open spec fn status_from_text(t: Seq<char>) -> Result<RecipeStatus, Seq<char>> {
    match status_word(trim(t)) {
        Some(x) => Ok(x),
        None => match status_word(lowercase(trim(t))) {
            Some(x) => Ok(x),
            None => Err("unknown status: "@ + lowercase(trim(t))),
        },
    }
}

/// What a trimmed and lowercased cell `l` reads as: the status its word names,
/// or the error `unknown status: ` followed by `l`.
pub open spec fn status_of_lowered(l: Seq<char>) -> Result<RecipeStatus, Seq<char>> {
    match status_word(l) {
        Some(x) => Ok(x),
        None => Err("unknown status: "@ + l),
    }
}

/// A status word is ASCII and its own lowercase.
proof fn lemma_status_word_ascii(t: Seq<char>)
    requires
        status_word(t) is Some,
    ensures
        all_ascii(t),
        ascii_lowercase(t) == t,
{
    let x = status_word(t)->Some_0;
    reveal_strlit("qualified");
    reveal_strlit("blocked");
    reveal_strlit("pending");
    assert(t == status_text(x));
    lemma_status_text_lower(x);
    assert(ascii_lowercase(t) =~= t);
}

/// The CSV words consist of ASCII lowercase letters only.
proof fn lemma_status_text_lower(s: RecipeStatus)
    ensures
        forall|i: int| 0 <= i < status_text(s).len() ==> is_ascii_lower(#[trigger] status_text(s)[i]),
        status_text(s).len() > 0,
{
    reveal_strlit("qualified");
    reveal_strlit("blocked");
    reveal_strlit("pending");
}

/// Each status word reads back as its status.
pub proof fn lemma_status_roundtrip(x: RecipeStatus)
    ensures
        status_from_text(status_text(x)) == Ok::<RecipeStatus, Seq<char>>(x),
{
    reveal_strlit("qualified");
    reveal_strlit("blocked");
    reveal_strlit("pending");
    let t = status_text(x);
    lemma_status_text_lower(x);
    assert(!is_ws(t[0]));
    assert(!is_ws(t.last()));
    lemma_trim_no_ws(t);
}

/// The status that the text names, if it is one of the three words.
fn status_of_word(t: &Vec<char>) -> (r: Option<RecipeStatus>)
    ensures
        r == status_word(t@),
{
    if chars_eq_str(t, "qualified") {
        Some(RecipeStatus::Qualified)
    } else if chars_eq_str(t, "blocked") {
        Some(RecipeStatus::Blocked)
    } else if chars_eq_str(t, "pending") {
        Some(RecipeStatus::Pending)
    } else {
        None
    }
}

impl RecipeStatus {
    /// Parse from CSV string value.
    ///
    /// The cell is trimmed and lowercased; the three status words are
    /// accepted, anything else is an error that names the lowercased text.
    /// Each word that `as_str` gives reads back as its status.
    pub fn from_csv(s: &str) -> (r: Result<Self, String>)
        ensures
            err_view(r) == status_of_lowered(lowercase(trim(s@))),
            all_ascii(trim(s@)) ==> err_view(r) == status_of_lowered(ascii_lowercase(trim(s@))),
            err_view(r) == status_from_text(s@),
            forall|x: RecipeStatus| s@ == status_text(x) ==> r == Ok::<RecipeStatus, String>(x),
    {
        proof {
            assert forall|x: RecipeStatus| s@ == status_text(x) implies status_from_text(s@) == Ok::<
                RecipeStatus,
                Seq<char>,
            >(x) by {
                lemma_status_roundtrip(x);
            }
        }
        let v = chars_of(s);
        let t = trim_chars(&v);
        let l = chars_of(to_lowercase(string_of(&t).as_str()).as_str());
        proof {
            if status_word(t@) is Some {
                lemma_status_word_ascii(t@);
            }
        }
        match status_of_word(&t) {
            Some(x) => Ok(x),
            None => match status_of_word(&l) {
                Some(x) => Ok(x),
                None => {
                    let mut e = String::new();
                    push_str(&mut e, "unknown status: ");
                    push_chars(&mut e, &l);
                    Err(e)
                },
            },
        }
    }

    /// Badge markdown for shields.io.
    pub fn badge(&self) -> (b: &'static str)
        ensures
            b@ == status_badge_text(*self),
    {
        match self {
            RecipeStatus::Qualified => "![qualified](https://img.shields.io/badge/QUALIFIED-brightgreen)",
            RecipeStatus::Blocked => "![blocked](https://img.shields.io/badge/BLOCKED-red)",
            RecipeStatus::Pending => "![pending](https://img.shields.io/badge/PENDING-lightgray)",
        }
    }

    /// Short string for CSV.
    pub fn as_str(&self) -> (s: &'static str)
        ensures
            s@ == status_text(*self),
    {
        match self {
            RecipeStatus::Qualified => "qualified",
            RecipeStatus::Blocked => "blocked",
            RecipeStatus::Pending => "pending",
        }
    }
}

/// Idempotency classification for a recipe.
#[derive(Debug, Clone, Copy, PartialEq, Eq, Structural)]
pub enum IdempotencyClass {
    /// Same inputs always produce identical state hash.
    Strong,
    /// Zero changes on re-apply but hash may vary.
    Weak,
    /// May require multiple applies to converge.
    Eventual,
}

/// The CSV word for an idempotency class.
pub open spec fn class_text(c: IdempotencyClass) -> Seq<char> {
    match c {
        IdempotencyClass::Strong => "strong"@,
        IdempotencyClass::Weak => "weak"@,
        IdempotencyClass::Eventual => "eventual"@,
    }
}

/// The class that a word names, if it is one of the three CSV words.
pub open spec fn class_word(t: Seq<char>) -> Option<IdempotencyClass> {
    if t == "strong"@ {
        Some(IdempotencyClass::Strong)
    } else if t == "weak"@ {
        Some(IdempotencyClass::Weak)
    } else if t == "eventual"@ {
        Some(IdempotencyClass::Eventual)
    } else {
        None
    }
}

/// How a CSV cell reads as an idempotency class: trimmed, it must be one of
/// the three words, as it stands or lowercased; otherwise the error names the
/// lowercased text.
pub open spec fn class_from_text(t: Seq<char>) -> Result<IdempotencyClass, Seq<char>> {
    match class_word(trim(t)) {
        Some(x) => Ok(x),
        None => match class_word(lowercase(trim(t))) {
            Some(x) => Ok(x),
            None => Err("unknown idempotency class: "@ + lowercase(trim(t))),
        },
    }
}

/// What a trimmed and lowercased cell `l` reads as: the class its word names,
/// or the error `unknown idempotency class: ` followed by `l`.
pub open spec fn class_of_lowered(l: Seq<char>) -> Result<IdempotencyClass, Seq<char>> {
    match class_word(l) {
        Some(x) => Ok(x),
        None => Err("unknown idempotency class: "@ + l),
    }
}

/// A class word is ASCII and its own lowercase.
proof fn lemma_class_word_ascii(t: Seq<char>)
    requires
        class_word(t) is Some,
    ensures
        all_ascii(t),
        ascii_lowercase(t) == t,
{
    let x = class_word(t)->Some_0;
    reveal_strlit("strong");
    reveal_strlit("weak");
    reveal_strlit("eventual");
    assert(t == class_text(x));
    lemma_class_text_lower(x);
    assert(ascii_lowercase(t) =~= t);
}

/// The class words consist of ASCII lowercase letters only.
proof fn lemma_class_text_lower(c: IdempotencyClass)
    ensures
        forall|i: int| 0 <= i < class_text(c).len() ==> is_ascii_lower(#[trigger] class_text(c)[i]),
        class_text(c).len() > 0,
{
    reveal_strlit("strong");
    reveal_strlit("weak");
    reveal_strlit("eventual");
}

/// Each class word reads back as its class.
pub proof fn lemma_class_roundtrip(x: IdempotencyClass)
    ensures
        class_from_text(class_text(x)) == Ok::<IdempotencyClass, Seq<char>>(x),
{
    reveal_strlit("strong");
    reveal_strlit("weak");
    reveal_strlit("eventual");
    let t = class_text(x);
    lemma_class_text_lower(x);
    assert(!is_ws(t[0]));
    assert(!is_ws(t.last()));
    lemma_trim_no_ws(t);
}

/// The class that the text names, if it is one of the three words.
fn class_of_word(t: &Vec<char>) -> (r: Option<IdempotencyClass>)
    ensures
        r == class_word(t@),
{
    if chars_eq_str(t, "strong") {
        Some(IdempotencyClass::Strong)
    } else if chars_eq_str(t, "weak") {
        Some(IdempotencyClass::Weak)
    } else if chars_eq_str(t, "eventual") {
        Some(IdempotencyClass::Eventual)
    } else {
        None
    }
}

impl IdempotencyClass {
    /// Parse from CSV string value.
    ///
    /// The cell is trimmed and lowercased; the three class words are
    /// accepted, anything else is an error that names the lowercased text.
    /// Each word that `as_str` gives reads back as its class.
    pub fn from_csv(s: &str) -> (r: Result<Self, String>)
        ensures
            err_view(r) == class_of_lowered(lowercase(trim(s@))),
            all_ascii(trim(s@)) ==> err_view(r) == class_of_lowered(ascii_lowercase(trim(s@))),
            err_view(r) == class_from_text(s@),
            forall|x: IdempotencyClass| s@ == class_text(x) ==> r == Ok::<IdempotencyClass, String>(x),
    {
        proof {
            assert forall|x: IdempotencyClass| s@ == class_text(x) implies class_from_text(s@) == Ok::<
                IdempotencyClass,
                Seq<char>,
            >(x) by {
                lemma_class_roundtrip(x);
            }
        }
        let v = chars_of(s);
        let t = trim_chars(&v);
        let l = chars_of(to_lowercase(string_of(&t).as_str()).as_str());
        proof {
            if class_word(t@) is Some {
                lemma_class_word_ascii(t@);
            }
        }
        match class_of_word(&t) {
            Some(x) => Ok(x),
            None => match class_of_word(&l) {
                Some(x) => Ok(x),
                None => {
                    let mut e = String::new();
                    push_str(&mut e, "unknown idempotency class: ");
                    push_chars(&mut e, &l);
                    Err(e)
                },
            },
        }
    }

    /// Short string for CSV.
    pub fn as_str(&self) -> (s: &'static str)
        ensures
            s@ == class_text(*self),
    {
        match self {
            IdempotencyClass::Strong => "strong",
            IdempotencyClass::Weak => "weak",
            IdempotencyClass::Eventual => "eventual",
        }
    }
}

/// A single recipe's qualification record.
#[derive(Debug, Clone, PartialEq, Eq)]
pub struct RecipeQualification {
    /// Recipe number (1-indexed).
    pub recipe_num: u32,
    /// Recipe short name (kebab-case).
    pub name: String,
    /// Category (infra, gpu, nix, rust, package, ops, linux, opentofu).
    pub category: String,
    /// Current status.
    pub status: RecipeStatus,
    /// Testability tier (e.g., "1+2", "2+3", "3").
    pub tier: String,
    /// Idempotency classification.
    pub idempotency_class: IdempotencyClass,
    /// First-apply time in milliseconds (0 = not measured).
    pub first_apply_ms: u64,
    /// Idempotent-apply time in milliseconds (0 = not measured).
    pub idempotent_apply_ms: u64,
    /// Blocker ticket (e.g., "FJ-1126", empty if none).
    pub blocker_ticket: String,
    /// Blocker description (empty if none).
    pub blocker_description: String,
    /// Date last qualified (ISO 8601, empty if never).
    pub last_qualified: String,
    /// Qualified by (agent name, empty if never).
    pub qualified_by: String,
}

/// A qualification record with its text fields taken by their characters.
pub struct RecipeView {
    pub recipe_num: u32,
    pub name: Seq<char>,
    pub category: Seq<char>,
    pub status: RecipeStatus,
    pub tier: Seq<char>,
    pub idempotency_class: IdempotencyClass,
    pub first_apply_ms: u64,
    pub idempotent_apply_ms: u64,
    pub blocker_ticket: Seq<char>,
    pub blocker_description: Seq<char>,
    pub last_qualified: Seq<char>,
    pub qualified_by: Seq<char>,
}

impl View for RecipeQualification {
    type V = RecipeView;

    open spec fn view(&self) -> RecipeView {
        RecipeView {
            recipe_num: self.recipe_num,
            name: self.name@,
            category: self.category@,
            status: self.status,
            tier: self.tier@,
            idempotency_class: self.idempotency_class,
            first_apply_ms: self.first_apply_ms,
            idempotent_apply_ms: self.idempotent_apply_ms,
            blocker_ticket: self.blocker_ticket@,
            blocker_description: self.blocker_description@,
            last_qualified: self.last_qualified@,
            qualified_by: self.qualified_by@,
        }
    }
}

/// The records of a slice, each by its view.
pub open spec fn recipes_view(rs: Seq<RecipeQualification>) -> Seq<RecipeView> {
    rs.map_values(|r: RecipeQualification| r@)
}

} // verus!

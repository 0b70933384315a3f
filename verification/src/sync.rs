//! README sync: the qualification table that a CSV gives, spliced into a README.

use vstd::prelude::*;

use crate::qualify::{recipes_view, RecipeQualification, RecipeStatus, RecipeView};
use crate::table::{
    count_status, csv_records, generate_summary, generate_table, lemma_count_status_is_filter,
    parse_csv, parse_rows, readme_update, summary_text, table_text, update_readme, with_status,
};
use crate::text::push_str;

verus! {

broadcast use vstd::string::group_string_axioms;

/// Result of a README sync operation.
#[derive(Debug, Clone, Copy)]
pub struct SyncResult {
    /// Total number of recipes in the CSV.
    pub total: usize,
    /// Number of qualified recipes.
    pub qualified: usize,
}

/// The block spliced into the README: the summary, a blank line, the table.
pub open spec fn sync_block(rs: Seq<RecipeView>, timestamp: Seq<char>) -> Seq<char> {
    summary_text(rs, timestamp) + "\n\n"@ + table_text(rs)
}

/// What a sync of the records gives: the updated README, the number of records
/// and of qualified ones; or the README's marker error.
pub open spec fn sync_of(rs: Seq<RecipeView>, readme: Seq<char>, timestamp: Seq<char>) -> Result<
    (Seq<char>, nat, nat),
    Seq<char>,
> {
    match readme_update(readme, sync_block(rs, timestamp)) {
        Err(e) => Err(e),
        Ok(t) => Ok((t, rs.len(), count_status(rs, RecipeStatus::Qualified))),
    }
}

/// A sync succeeds exactly when the README's markers allow the update; it
/// then reports every record in its total and the qualified ones as qualified.
pub proof fn lemma_sync_totals(rs: Seq<RecipeView>, readme: Seq<char>, timestamp: Seq<char>)
    ensures
        sync_of(rs, readme, timestamp) is Ok <==> readme_update(readme, sync_block(rs, timestamp))
            is Ok,
        sync_of(rs, readme, timestamp) matches Ok((t, total, qualified)) ==> {
            &&& total == rs.len()
            &&& qualified == with_status(rs, RecipeStatus::Qualified).len()
            &&& Ok::<Seq<char>, Seq<char>>(t) == readme_update(readme, sync_block(rs, timestamp))
        },
{
    lemma_count_status_is_filter(rs, RecipeStatus::Qualified);
}

/// A sync outcome taken by its views.
pub open spec fn sync_view(r: Result<(String, SyncResult), String>) -> Result<
    (Seq<char>, nat, nat),
    Seq<char>,
> {
    match r {
        Ok((t, sr)) => Ok((t@, sr.total as nat, sr.qualified as nat)),
        Err(e) => Err(e@),
    }
}

/// Counts the qualified records.
fn count_qualified(recipes: &Vec<RecipeQualification>) -> (c: usize)
    ensures
        c == count_status(recipes_view(recipes@), RecipeStatus::Qualified),
{
    let ghost all = recipes_view(recipes@);
    let mut c: usize = 0;
    let mut i: usize = 0;
    while i < recipes.len()
        invariant
            i <= recipes@.len(),
            all == recipes_view(recipes@),
            c == count_status(all.take(i as int), RecipeStatus::Qualified),
            c <= i,
        decreases recipes@.len() - i,
    {
        assert(all.take(i + 1).drop_last() =~= all.take(i as int));
        if recipes[i].status == RecipeStatus::Qualified {
            c = c + 1;
        }
        i = i + 1;
    }
    assert(all.take(recipes@.len() as int) =~= all);
    c
}

/// Splices the summary and table of the records into the README text.
///
/// Gives the updated README with the totals, or the README's marker error.
pub fn sync_records(recipes: &Vec<RecipeQualification>, readme: &str, timestamp: &str) -> (r:
    Result<(String, SyncResult), String>)
    ensures
        sync_view(r) == sync_of(recipes_view(recipes@), readme@, timestamp@),
        r matches Ok((_, sr)) ==> sr.total == recipes@.len() && sr.qualified == with_status(
            recipes_view(recipes@),
            RecipeStatus::Qualified,
        ).len(),
{
    proof {
        lemma_sync_totals(recipes_view(recipes@), readme@, timestamp@);
    }
    let summary = generate_summary(recipes.as_slice(), timestamp);
    let table = generate_table(recipes.as_slice());
    let mut block = summary;
    push_str(&mut block, "\n\n");
    push_str(&mut block, table.as_str());
    assert(block@ == sync_block(recipes_view(recipes@), timestamp@));
    match update_readme(readme, block.as_str()) {
        Err(e) => Err(e),
        Ok(updated) => {
            let total = recipes.len();
            let qualified = count_qualified(recipes);
            Ok((updated, SyncResult { total, qualified }))
        },
    }
}

/// Sync the README text from CSV text.
///
/// Parses the CSV, then splices its summary and table between the README's
/// markers. Gives the CSV error, or the README's marker error, or the updated
/// README with the totals.
pub fn sync_contents(csv_content: &str, readme: &str, timestamp: &str) -> (r: Result<
    (String, SyncResult),
    String,
>)
    ensures
        match parse_rows(csv_records(csv_content@)) {
            Err(e) => sync_view(r) == Err::<(Seq<char>, nat, nat), Seq<char>>(e),
            Ok(rs) => sync_view(r) == sync_of(rs, readme@, timestamp@),
        },
        parse_rows(csv_records(csv_content@)) matches Ok(rs) ==> (r matches Ok((_, sr)) ==> (
        sr.total == rs.len() && sr.qualified == with_status(rs, RecipeStatus::Qualified).len())),
{
    match parse_csv(csv_content) {
        Err(e) => Err(e),
        Ok(recipes) => sync_records(&recipes, readme, timestamp),
    }
}

} // verus!

//! Recipe qualification records, README table generation and recipe scoring.

pub mod duration;
pub mod qualify;
pub mod recipe_score;
pub mod recipes_dir;
pub mod score;
pub mod sync;
pub mod table;
pub mod text;

pub use qualify::{IdempotencyClass, RecipeQualification, RecipeStatus};
pub use recipe_score::config::{PolicyConfig, RecipeConfig};
pub use score::{
    DimensionScores, ForjarScore, Grade, Penalty, RuntimeData, ScoringInput, SCORE_VERSION,
};
pub use sync::{sync_contents, sync_records, SyncResult};
pub use table::{
    generate_summary, generate_table, parse_csv, update_readme, write_csv, END_MARKER,
    START_MARKER,
};

//! Practice-attempt logging with batch lifecycle and streak-based mastery,
//! over an owned in-memory store.
//!
//! An attempt at a problem is logged with [`log_attempt`]: the subject, the
//! material and the problem it names are found or created, the attempt is
//! placed in a batch of consecutive practice, numbered, stored with its
//! resources, and the problem's solved flag is brought up to date. What
//! each step does to the [`Store`] is stated over the store's model.

pub mod batches;
pub mod engine;
pub mod error;
pub mod ident;
pub mod images;
pub mod laws;
pub mod mastery;
pub mod model;
pub mod queries;
pub mod recorder;
pub mod resolver;
pub mod rows;
pub mod store;
pub mod text;
pub mod timestamp;
pub mod upkeep;

pub use engine::{
    delete_attempt, log_attempt, log_attempt_at, update_attempt, update_problem,
    update_problem_image, LogAttemptResponse,
};
pub use error::{EngineError, Fault, Field, StoreFault};
pub use ident::generate_problem_id;
pub use mastery::check_and_mark_solved;
pub use images::image_file_name;
pub use queries::{
    get_materials_for_subject, get_problems_for_material, get_subjects, test_database,
    MaterialItem, ProblemSummary, SubjectItem,
};
pub use rows::AttemptInput;
pub use store::Store;
pub use timestamp::Timestamp;

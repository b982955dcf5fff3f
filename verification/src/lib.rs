//! An in-process enrichment-table indexing and lookup engine.
//!
//! A [`registry::TableRegistry`] owns loaded tables and the indexes built over
//! them during the compile phase; sealing it yields read-only
//! [`search::TableSearch`] handles through which events look up single rows
//! with well-defined ambiguity and not-found semantics.

pub mod condition;
pub mod error;
pub mod index;
pub mod meaning;
pub mod record;
pub mod registry;
pub mod search;
pub mod table;
pub mod value;

pub use condition::Condition;
pub use condition::ResolvedValue;
pub use condition::evaluate_condition;
pub use error::Error;
pub use index::IndexHandle;
pub use meaning::MeaningError;
pub use meaning::MeaningList;
pub use meaning::SetSemanticMeaning;
pub use record::GetEnrichmentTableRecord;
pub use record::GetEnrichmentTableRecordFn;
pub use record::case_mode;
pub use record::get_enrichment_table_record;
pub use registry::TableRegistry;
pub use search::TableSearch;
pub use value::Case;
pub use value::Value;

pub mod content;
pub mod labels;
pub mod query;
pub mod reparse;
pub mod tokenize;

//! Verified core of a tool that gathers ransomware group, victim and ransom-note
//! records from public trackers and renders them as text reports.
pub mod cli;
pub mod db;
pub mod json;
pub mod note_page;
pub mod profile;
pub mod report;
pub mod summary;
pub mod sync;
pub mod table;
pub mod text;

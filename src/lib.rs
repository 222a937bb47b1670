//! Ingestion engine for university timetable sheets: cell grammars, the
//! carry-forward row reader, the speciality classifier and the schedule
//! assembler.
pub mod error;
pub mod group;
pub mod rows;
pub mod schedule;
pub mod speciality;
pub mod text;

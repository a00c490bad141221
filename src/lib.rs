//! Well time-series workbooks: reading year sheets into typed records,
//! selecting and ordering them, planning the per-well export, and the
//! progress protocol between a background job and its observer.
pub mod numeric;
pub mod text;
pub mod record;
pub mod sets;
pub mod ingest;
pub mod transform;
pub mod export;
pub mod job;
pub mod selection;

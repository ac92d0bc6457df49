//! Ingestion of DICOM uploads for a radiology teaching-file service.
//!
//! The library decides how many image instances an uploaded byte buffer
//! holds, extracts their identifying attributes, expands multi-frame
//! objects, probes concatenated streams for embedded parts and groups the
//! resulting records into series.

pub mod api;
pub mod clock;
pub mod db;
pub mod dicom;
pub mod models;
pub mod probe;
pub mod provision;
pub mod routes;
pub mod series;
pub mod study;
pub mod text;

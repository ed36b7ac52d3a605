//! Observation-stacking pipeline for high-frame-rate planetary and solar
//! imaging: binary container ingestion, calibration-frame synthesis, frame
//! quality scoring and selection, per-frame registration, and a drizzle
//! resampling/merge engine with three accumulation strategies.
//!
//! All pixel samples are integers (at most 16 bits of sensor data); fractional
//! coordinates and offsets use a Q16 fixed-point representation, and angles are
//! carried in microdegrees. Trigonometry, ephemeris lookups, image codecs and
//! file input belong to the callers.

pub mod anaysis;
pub mod calibrationframe;
pub mod context;
pub mod datasource;
pub mod drizzle;
pub mod error;
pub mod fpmap;
pub mod framerecord;
pub mod limiting;
pub mod mean;
pub mod median;
pub mod offsetting;
pub mod rotation;
pub mod hotpixel;
pub mod image;
pub mod ser;
pub mod stacking;
pub mod stats;
pub mod target;

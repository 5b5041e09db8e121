//! Loader for recorded flight-log files in the flyg format.
//!
//! A flyg file is a structured text document (a restricted JSON document,
//! see [`json`]) holding static plane metadata, the four flight-phase
//! timestamps, the touchdown speed and a sequence of fuel samples. A file
//! may also be stored gzip-compressed; such files are recognized purely by
//! their filename extension (`cflyg`, matched case-insensitively).
//!
//! The library works on plain values: filenames and file contents enter as
//! bytes, and [`loader::decode_flight_recording`] turns them into a typed
//! [`model::FlygFlight`] or one of the classified errors of
//! [`model::FlygFormatError`]. Opening and reading the file itself is left
//! to the caller.

pub mod json;
pub mod loader;
pub mod model;

pub use model::Decimal;
pub use model::FlygFlight;
pub use model::FlygFormatError;
pub use model::FuelRecord;
pub use model::PlaneInformation;
pub use model::Times;

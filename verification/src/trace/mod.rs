//! The flight recorder: naming, recording, reading back and replaying the
//! trace of one run.

pub mod geom;
pub mod gzip;
pub mod input;
pub mod json;
pub mod load;
pub mod paths;
pub mod record;
pub mod replay;
pub mod wallclock;
pub mod writer;

//! Statistics over ordered rows.

pub mod accuracy;
pub mod aggregator_laws;
pub mod exact;
pub mod expanding;
pub mod frame_laws;
pub mod laws;
pub mod outcomes;
pub mod window;

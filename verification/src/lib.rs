//! Verified core of a batch image tool: an edge-aware, border-seeded flood
//! fill that turns the near-white outer background of an RGBA raster
//! transparent while stopping at contrast edges, together with the small
//! decision functions (extension filtering, format gating, output-path
//! construction) that the surrounding batch pipeline asks of it.

pub mod pixel;
pub mod raster;
pub mod fill;
pub mod laws;
pub mod pathtext;
pub mod convert;

//! H.264: NAL units, parameter sets, slice decoding and motion-vector prediction.

pub mod cavlc;
pub mod coeff_contexts;
pub mod context_tables;
pub mod contexts;
pub mod dpb;
pub mod export;
pub mod grids;
pub mod header_laws;
pub mod macroblock_laws;
pub mod mb_b;
pub mod mb_cabac;
pub mod mb_cavlc;
pub mod motion_laws;
pub mod nal;
pub mod params;
pub mod partition_laws;
pub mod picture;
pub mod picture_laws;
pub mod residual_cabac;
pub mod residual_laws;
pub mod reuse;
pub mod stream;
pub mod syntax_laws;
pub mod vlc;

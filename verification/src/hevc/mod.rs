//! H.265: NAL units, parameter sets, slice decoding and motion-vector reconstruction.

pub mod context_tables;
pub mod contexts;
pub mod cu;
pub mod env;
pub mod export;
pub mod frame;
pub mod header_laws;
pub mod inter;
pub mod intra;
pub mod intra_laws;
pub mod motion;
pub mod motion_laws;
pub mod nal;
pub mod params;
pub mod predictor_laws;
pub mod refs;
pub mod residual;
pub mod residual_laws;
pub mod scan;
pub mod set_laws;
pub mod slice;
pub mod slice_header;
pub mod stream;
pub mod stream_laws;
pub mod syntax_laws;
pub mod transform;
pub mod tree_laws;
pub mod unit_laws;

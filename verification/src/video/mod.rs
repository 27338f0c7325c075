//! Video command planning: FFmpeg command lines for encoding and VMAF
//! analysis, and the decisions taken around them.
pub mod builder;
pub mod encode;
pub mod vmaf;
pub mod probe;

//! Media Forge: the logic of a batch image conversion and CBZ archiving tool.
//!
//! The library holds the decisions of the tool: which files a scan keeps,
//! how each file is handled and where its output goes, how archives are
//! named, filled and checked, what a quality report compares, and how
//! results are tallied. Reading and writing files, progress display and the
//! codecs themselves are left to the program around it.
//!
//! - `paths`, `text`, `kinds`, `natural`: the path model, string helpers,
//!   file kinds by extension, and natural ordering of names.
//! - `scanner`, `walker`: what a directory walk keeps.
//! - `image`: conversion planning, animation detection, CBZ archiving,
//!   quality reports.
//! - `video`: FFmpeg command lines for AV1 encoding and VMAF analysis.
//! - `cpu`, `process`, `summary`, `naming`, `constants`: thread counts, the
//!   child-process registry, run summaries, display names, defaults.
//! - `mf_core`, `mf_archive`, `mf_image`, `mf_video`: the rules of the
//!   workspace's separate command-line tools.
pub mod constants;
pub mod cpu;
pub mod image;
pub mod kinds;
pub mod naming;
pub mod natural;
pub mod paths;
pub mod process;
pub mod scanner;
pub mod summary;
pub mod text;
pub mod video;
pub mod walker;

pub mod mf_archive;
pub mod mf_core;
pub mod mf_image;
pub mod mf_video;

pub use cpu::CpuControl;
pub use naming::Naming;
pub use process::ProcessManager;
pub use scanner::Scanner;
pub use walker::Walker;

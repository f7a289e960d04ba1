//! The build invocation input and the structured run result.

use vstd::prelude::*;

use crate::config::RawValueMap;

verus! {

/// Everything one build invocation needs: target paths, naming choices,
/// the clean-vs-incremental flag, free form extra arguments, the raw
/// setting values, and the cancellation mark.
#[derive(Debug, Clone)]
pub struct BuildConfig {
    pub project_path: String,
    pub build_dir: String,
    pub cube_ide_exe_path: String,
    pub workspace_path: String,
    pub project_name: Option<String>,
    pub config_name: Option<String>,
    pub clean_build: bool,
    pub custom_console_args: Option<String>,
    pub settings: RawValueMap,
    pub cancelled: Option<bool>,
}

/// The structured result of one build run: a terminal message, every
/// collected log line, the stages reached, and the overall success flag.
#[derive(Debug)]
pub struct BuildResult {
    pub result: String,
    pub logs: Vec<String>,
    pub stages: Vec<String>,
    pub success: bool,
}

} // verus!
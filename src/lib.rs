use vstd::prelude::*;

pub mod analysis_item;
pub mod config;
pub mod display_info;
pub mod file_info;
pub mod methods;

pub use analysis_item::{AnalysisItem, AnalyzeError, Visit};
pub use config::{Arguments, Percent};
pub use display_info::{DisplayItemInfo, Rgb, Share};
pub use file_info::FileInfo;
pub use methods::{render, show_disk_analyze_result, size_fraction, DisplayRow};

verus! {

/// The standard I/O error, carried opaquely in results.
#[verifier::external_type_specification]
#[verifier::external_body]
pub struct ExIoError(std::io::Error);

/// Help is printed by the command-line front end; there is nothing to do here.
pub fn _show_help() -> (r: std::io::Result<()>)
    ensures
        r is Ok,
{
    Ok(())
}

} // verus!

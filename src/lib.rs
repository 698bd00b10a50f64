//! Checks whether the installed NVIDIA GeForce display driver is out of date.
//!
//! The installed version is read from the output of the vendor's diagnostic
//! tool, the available one from the vendor's driver lookup service; both are
//! compared as decimal numbers, and an outdated driver leads to an offer to open
//! the download page or to download and run the installer.
pub mod dispatch;
pub mod download;
pub mod error;
pub mod probe;
pub mod remote;
pub mod version;

pub use dispatch::{confirmation_needed, dispatch, selection, Action, Choice};
pub use download::DownloadTask;
pub use error::CheckError;
pub use probe::{
    candidate_locations, installed_version_from_output, pick_location, BaseDirectory, Candidate,
    DRIVER_VERSION_PATTERN, SMI,
};
pub use remote::{extract_version_information, get_available_version_information, NVIDIA_URL};
pub use version::{compare, ComparisonResult};

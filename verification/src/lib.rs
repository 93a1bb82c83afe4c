//! SB Mod Manager's core: working out what a downloaded archive is, where
//! each piece belongs in the Stellar Blade install, and the formats and rules
//! around that.

use vstd::prelude::*;

pub mod app;
pub mod archive;
pub mod assets;
pub mod bytes;
pub mod catalog;
pub mod client;
pub mod collection;
pub mod conflicts;
pub mod credentials;
pub mod deploy;
pub mod detect;
pub mod game;
pub mod gpu;
pub mod http;
pub mod json;
pub mod loadorder;
pub mod model;
pub mod nxm;
pub mod pak;
pub mod pe;
pub mod plan;
pub mod presence;
pub mod queue;
pub mod status;
pub mod store;
pub mod ratelimit;
pub mod scan;
pub mod text;
pub mod tree;
pub mod ue4ss;
pub mod upscaler;
pub mod utoc;
pub mod vdf;

pub use detect::detect_components;
pub use model::{Confidence, DetectedComponent, ModType, PakSet};
pub use plan::{DeployPlan, PlannedFile};
pub use tree::FileTree;

verus! {

} // verus!

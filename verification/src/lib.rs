//! Verified core of GModPatchTool: the Proton AppContainer binary hotfix,
//! Steam VDF parsing and the decisions that drive patching Garry's Mod.

pub mod text;
pub mod digest;
pub mod proton_appcontainer;
pub mod webstorage;
pub mod vdf;
pub mod steam;
pub mod patching;
pub mod terminal;
pub mod retry;
pub mod gmod;
pub mod manifest;
pub mod instance;
pub mod locations;

//! Package Run core: the decisions behind a local manager of frontend
//! dev-server scripts, stated and proved with Verus.

pub mod text;
pub mod update;
pub mod runner;
pub mod projects;
pub mod json;
pub mod ports;
pub mod desktop;

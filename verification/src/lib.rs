//! Verified core of a voxel editing world: chunk-key neighbourhoods by level
//! of detail, edit shapes, edit-state decisions, save and message payloads,
//! and the tag logic of the user interface.

pub mod scan;
pub mod lod;
pub mod shapes;
pub mod ray;
pub mod payload;
pub mod save;
pub mod messages;
pub mod edit;
pub mod tags;
pub mod ui;
pub mod editor;
pub mod screens;
pub mod main_menu;
pub mod voxel_edit_mode;
pub mod voxel_edit_options;
pub mod chunks;

//! GPU flight recorder: device model, event derivation, history rollups and the pure parts of
//! the vendor backends, with their behaviour stated as contracts.

pub mod amd;
pub mod apple;
pub mod backend;
pub mod by_id;
pub mod drm;
pub mod drm_devices;
pub mod events;
pub mod fdinfo;
pub mod files;
pub mod history;
pub mod intel;
pub mod lists;
pub mod mock;
pub mod model;
pub mod nvidia;
pub mod pci;
pub mod pid_table;
pub mod proc_meta;
pub mod scan;
pub mod text;
pub mod wddm;

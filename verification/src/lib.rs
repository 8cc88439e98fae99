//! Verified decision core of a two-camera sports recorder.
//!
//! The library decides; the programs around it run the hardware. It holds the
//! rules by which a lost ball is searched for ([`ort_gpu`], [`search`]) and accepted
//! again ([`recovery_filter`], [`validated`]), the reasoner that is asked as a last
//! resort ([`ball_recovery`], [`recovery_engine`]), the set-up of automatic camera
//! control ([`autocam`]), the geometry and the lifetimes of memory shared between
//! graphics interfaces ([`vulkan`], [`interop`]), the order of steps of a decode
//! thread ([`decode`]) and the uniform block of the cylindrical renderer
//! ([`cylindrical`]).
//!
//! Coordinates, confidences and angles are single-precision numbers. They are
//! carried as their bits and computed with in [`binary`], whose operations are
//! proved to round correctly, so that what is decided here from a measured value
//! is decided alike on every machine.
//!
//! Work on a device is done outside, step by step: the library says what is to be done
//! next, and is told what came of it. Plain functions that it does not hold, such as
//! powers and tangents, are handed in. Nothing is assumed of either: a contract says
//! what holds for every answer that they can give.
//!
//! What the operations are for is stated beside their contracts, as laws: in terms of
//! places, sizes, speeds and counts, and of how one call stands to another.

pub mod angle_laws;
pub mod autocam;
pub mod ball_recovery;
pub mod binary;
pub mod camera;
pub mod class_laws;
pub mod crop;
pub mod cylindrical;
pub mod decode;
pub mod detection;
pub mod detector;
pub mod distance_laws;
pub mod fitting;
pub mod gpu_buffers;
pub mod guard_laws;
pub mod image_import;
pub mod inference;
pub mod inference_laws;
pub mod interop;
pub mod labels;
pub mod letterbox;
pub mod mapping_laws;
pub mod ort_gpu;
pub mod panorama;
pub mod path_laws;
pub mod place_laws;
pub mod plan_laws;
pub mod recovery;
pub mod recovery_engine;
pub mod recovery_filter;
pub mod region_laws;
pub mod remapping;
pub mod replay;
pub mod roi;
pub mod search;
pub mod search_laws;
pub mod search_run;
pub mod selection;
pub mod session;
pub mod speed_laws;
pub mod stride;
pub mod stride_laws;
pub mod text;
pub mod tiling;
pub mod trajectory_laws;
pub mod uniform_laws;
pub mod validated;
pub mod vulkan;

//! Verified core of a mesh of model-serving nodes.

pub mod api;
pub mod baseline;
pub mod bytes;
pub mod clock;
pub mod crypto;
pub mod double;
pub mod fingerprint;
pub mod gigabytes;
pub mod gpus;
pub mod hexcodec;
pub mod interests;
pub mod json;
pub mod model_ad;
pub mod models;
pub mod order;
pub mod peers;
pub mod routes;
pub mod runtime;
pub mod service;
pub mod split;
pub mod status;
pub mod text;
pub mod text_map;
pub mod trust;
pub mod visibility;
pub mod watchdog;
pub mod verify;

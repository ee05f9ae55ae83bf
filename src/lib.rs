//! A Vulkan layer that runs applications without a display and captures every
//! presented frame to disk: the layer's decisions, state and data formats.
pub mod codes;
pub mod text;
pub mod table;
pub mod config;
pub mod decode;
pub mod frame;
pub mod surface;
pub mod host_image;
pub mod dispatch;
pub mod layer;
pub mod teardown;
pub mod capture;

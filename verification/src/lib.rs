pub mod blur_plugin;
pub mod error;
pub mod mirror_plugin;
pub mod pixels;
pub mod plugin_loader;
pub mod raster;
pub mod text;

pub use raster::Image;

pub mod argb;
pub mod cache;
pub mod config;
pub mod display;
pub mod events;
pub mod ewmh;
pub mod frames;
pub mod icons;
pub mod keys;
pub mod label;
pub mod layout;
pub mod luminance;
pub mod paint;
pub mod pixels;
pub mod redraw;
pub mod rounding;
pub mod shapes;
pub mod switcher;
pub mod text;
pub mod thumbs;
pub mod wire;

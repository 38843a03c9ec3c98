//! The decisions behind a keyboard-driven window switcher.
pub mod app;
pub mod app_icon;
pub mod binary32;
pub mod collections;
pub mod fixed_order;
pub mod icon_scale;
pub mod icon_source;
pub mod keyboard;
pub mod laws;
pub mod manifest;
pub mod messages;
pub mod painter;
pub mod pixels;
pub mod rounding;
pub mod sequences;
pub mod switch_apps;
pub mod switch_windows;
pub mod text;

//! What the operations are for, said of their arguments and results alone. Each law
//! takes the arguments and the result of a call: `call_ensures(f, arguments, result)`
//! says that `f` may give that result.
pub mod applications;
pub mod icon_sizes;
pub mod icons;
pub mod image_pixels;
pub mod keys;
pub mod logos;
pub mod panel;
pub mod paths;
pub mod switcher;
pub mod walks;
pub mod window_messages;

//! Control logic for the Sound BlasterX G6.

pub mod apply;
pub mod arith;
pub mod canvas;
pub mod display;
pub mod equalizer;
pub mod feature;
pub mod instance;
pub mod invocation;
pub mod letters;
pub mod lookup;
pub mod meter;
pub mod packet;
pub mod paths;
pub mod popup;
pub mod profile;
pub mod pulse;
pub mod render;
pub mod scale;
pub mod session;
pub mod setup;
pub mod status;
pub mod table;
pub mod text;
pub mod tray;
pub mod value;

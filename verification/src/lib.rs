//! Protocol, profile and presentation logic of a configuration tool for
//! ATK/VXE magnetic-switch keyboards (gtech controller).

pub mod actuation;
pub mod config;
pub mod device;
pub mod i18n;
pub mod laws;
pub mod light;
pub mod text;
pub mod tweaks;

//! Wallpaper rotation core: orientation metadata caching, directory-scan
//! classification, blur-cache freshness decisions, and per-orientation
//! round-robin selection.
pub mod blur;
pub mod cache;
pub mod classify;
pub mod numtext;
pub mod rotate;

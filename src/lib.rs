pub mod text;
pub mod routing;
pub mod diff;
pub mod cache;
pub mod env;
pub mod static_files;
pub mod websocket;
pub mod proxy;
pub mod cors;
pub mod html;
pub mod revs;
pub mod merge_base;
pub mod files;
pub mod tunnel;

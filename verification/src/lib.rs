//! A key-value backed HTTP counter: request routing, the decimal counter
//! value kept in the store, and static asset path resolution.

pub mod assets;
pub mod counter;
pub mod handler;
pub mod routing;
pub mod text;

pub use handler::KvCounter;
pub use assets::get_static_asset;

//! Shadow overlays: wrappers that buffer tentative changes to a value or a
//! map and apply them to the underlying storage only when asked to.

pub mod gen_wrap;
pub mod hash_wrap;
pub mod lending_wrap;
mod sealed;

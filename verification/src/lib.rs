//! Process-memory access layer: process handles, module enumeration, typed
//! reads and writes of another process's virtual memory, string marshalling,
//! and pointer-chain resolution, all specified against an abstract model of
//! the host OS memory API.

pub mod error;
pub mod handle;
pub mod laws;
pub mod memory;
pub mod module;
pub mod mouse;
pub mod ntapi;
pub mod source;
pub mod text;
pub mod value;

pub use error::mm_error;
pub use handle::p_handle;
pub use memory::mmg;
pub use mouse::Mouse;
pub use module::ModuleInfo;

//! `o-`: a JavaScript toolchain manager and npm-compatible package
//! installer, with the standard library its runtimes share (paths, buffers,
//! console, events). The logic is verified; the program around it does the
//! file, network and process work.
pub mod text;
pub mod sorted;
pub mod path;
pub mod error;
pub mod codec;
pub mod buffer;
pub mod report;
pub mod job;
pub mod pm;
pub mod app_error;
pub mod lock;
pub mod semver;
pub mod integrity;
pub mod install;
pub mod bins;
pub mod x;
pub mod console;
pub mod events;
pub mod jstd;
pub mod process;
pub mod fs;
pub mod conf;
pub mod binengine;
pub mod toolchain;
pub mod cli;

pub use app_error::AppError;
pub use buffer::Buffer;
pub use cli::process;
pub use events::EventEmitter;
pub use jstd::bootstrap_script;
pub mod timers;

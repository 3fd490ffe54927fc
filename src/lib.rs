//! Asynchronous, deduplicating loader of named resources, with the helpers
//! that look up the files a model needs once they are loaded.
mod bindings;
pub mod file_loader;
pub mod laws;
pub mod model_files;

pub use file_loader::{
    Completion, EndpointId, FileData, FileDataHandle, FileId, FileLoader, FileLoaderEndpoint,
    Polled, Rejected, Requested, Waiter,
};
pub use model_files::{get_value_from_map, to_posix_path, MissingFile, StringHashMap};

//! What the virtual machine asks of the platform it runs on.
use vstd::prelude::*;

verus! {

/// File-system access that a platform provides to the virtual machine.
pub trait FilesystemBackend {
    /// The absolute form of `path`.
    fn to_absolute_path(&self, path: &str) -> String;

    /// The canonical form of `path`.
    fn to_canonical_path(&self, path: &str) -> String;

    /// Whether a file exists at `path`.
    fn file_exists(&self, path: &str) -> Result<bool, ()>;

    /// Writes `data` to the open file `descriptor`.
    fn write_by_descriptor(&self, descriptor: u32, data: &[u8]);

    /// Fills `buffer` from the open file `descriptor`.
    fn read_by_descriptor(&self, descriptor: u32, buffer: &mut [u8]) -> Result<(), ()>;

    /// How many bytes can be read from `descriptor` without blocking.
    fn available_bytes(&self, descriptor: u32) -> u64;

    /// Opens `path` for writing.
    fn writeable_descriptor_from_path(&self, path: &str) -> Result<u32, ()>;

    /// Opens `path` for reading.
    fn readable_descriptor_from_path(&self, path: &str) -> Result<u32, ()>;
}

} // verus!

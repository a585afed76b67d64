//! The options of a new file.
use vstd::prelude::*;

verus! {

/// How a new file is written.
#[derive(Clone, Copy, Debug, PartialEq, Eq, Structural)]
pub struct WriteOptions {
    /// Block size. Default is retrieved from the server.
    pub block_size: Option<u64>,
    /// Replication factor. Default is retrieved from the server.
    pub replication: Option<u32>,
    /// Unix file permission, defaults to 0o644, which is "rw-r--r--" as a Unix permission.
    /// This is the raw octal value represented in base 10.
    pub permission: u32,
    /// Whether to overwrite the file, defaults to false. If true and the
    /// file does not exist, it will result in an error.
    pub overwrite: bool,
    /// Whether to create any missing parent directories, defaults to true. If false
    /// and the parent directory does not exist, an error will be returned.
    pub create_parent: bool,
}

impl Default for WriteOptions {
    fn default() -> (res: Self)
        ensures
            res == (WriteOptions {
                block_size: None,
                replication: None,
                permission: 0o644,
                overwrite: false,
                create_parent: true,
            }),
    {
        WriteOptions {
            block_size: None,
            replication: None,
            permission: 0o644,
            overwrite: false,
            create_parent: true,
        }
    }
}

impl AsRef<WriteOptions> for WriteOptions {
    fn as_ref(&self) -> (res: &WriteOptions)
        ensures
            *res == *self,
    {
        self
    }
}

impl WriteOptions {
    /// Sets the block size for the new file.
    pub fn block_size(self, block_size: u64) -> (res: Self)
        ensures
            res == (WriteOptions { block_size: Some(block_size), ..self }),
    {
        WriteOptions { block_size: Some(block_size), ..self }
    }

    /// Sets the replication for the new file.
    pub fn replication(self, replication: u32) -> (res: Self)
        ensures
            res == (WriteOptions { replication: Some(replication), ..self }),
    {
        WriteOptions { replication: Some(replication), ..self }
    }

    /// Sets the raw octal permission value for the new file.
    pub fn permission(self, permission: u32) -> (res: Self)
        ensures
            res == (WriteOptions { permission, ..self }),
    {
        WriteOptions { permission, ..self }
    }

    /// Sets whether to overwrite an existing file.
    pub fn overwrite(self, overwrite: bool) -> (res: Self)
        ensures
            res == (WriteOptions { overwrite, ..self }),
    {
        WriteOptions { overwrite, ..self }
    }

    /// Sets whether to create all missing parent directories.
    pub fn create_parent(self, create_parent: bool) -> (res: Self)
        ensures
            res == (WriteOptions { create_parent, ..self }),
    {
        WriteOptions { create_parent, ..self }
    }
}

} // verus!

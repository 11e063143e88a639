//! The layout of the application's home directory.  This module only
//! resolves paths; the caller that owns the real file system performs
//! the creation and existence checks on what is resolved here.

use vstd::prelude::*;

verus! {

#[derive(Debug, Clone, PartialEq, Eq)]
pub struct FileSystemHandler {
    /// The application's own directory under the user's home directory.
    pub home_directory_software: String,
}

impl FileSystemHandler {
    /// Lays the application directory out under the given home
    /// directory.
    pub fn new(home_dir: &str) -> (r: FileSystemHandler)
        ensures
            r.home_directory_software@ == home_dir@ + "/.InfoPanel"@,
    {
        let mut path = home_dir.to_owned();
        path.append("/.InfoPanel");
        FileSystemHandler { home_directory_software: path }
    }

    /// Resolves the absolute path at which the caller creates the given
    /// directory.
    pub fn create_directory(&self, path: &str) -> (r: String)
        ensures
            r@ == self.home_directory_software@ + "/"@ + path@,
    {
        let mut absolute_path = self.home_directory_software.clone();
        absolute_path.append("/");
        absolute_path.append(path);
        absolute_path
    }

    /// Resolves the absolute path at which the caller creates the given
    /// file.
    pub fn create_file(&self, path: &str) -> (r: String)
        ensures
            r@ == self.home_directory_software@ + "/"@ + path@,
    {
        let mut absolute_path = self.home_directory_software.clone();
        absolute_path.append("/");
        absolute_path.append(path);
        absolute_path
    }
}

} // verus!

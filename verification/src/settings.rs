//! The settings that drive a run, as read from the `settings` file.
use vstd::prelude::*;

verus! {

/// The `[dir]` section: where to look and how to name and pack folders.
#[derive(Debug, PartialEq, Eq)]
pub struct SettingsDir {
    /// How many files go into each folder.
    pub pick_count: usize,
    /// The name part of generated folders.
    pub name: String,
    /// The `strftime` pattern of the date part of generated folders.
    pub date: String,
    /// The directory whose files are sorted.
    pub workspace: String,
    /// Whether folders are packed into archives.
    pub is_compress: bool,
    /// Whether a folder is kept after it was packed.
    pub is_save_compress_dir: bool,
    /// The compression level of archives.
    pub compress_level: i32,
    /// The file permissions asked for (archives are written with 0o755).
    pub compress_permissions: u32,
    /// The archive suffix, which also selects the compression method.
    pub compress_method: String,
}

/// The `[file]` section.
#[derive(Debug, PartialEq, Eq)]
pub struct SettingsFile {
    /// Whether moved files get a random name.
    pub is_rename: bool,
    /// The wanted file types, as a JSON array of strings.
    pub filetypes: String,
}

/// The `[main]` section.
#[derive(Debug, PartialEq, Eq)]
pub struct SettingsMain {
    /// How many folders are worked on at the same time, less one.
    pub thread: usize,
    /// The number of processor cores (read, not used).
    pub cpu_core: usize,
}

/// All settings.
#[derive(Debug, PartialEq, Eq)]
pub struct Settings {
    pub dir: SettingsDir,
    pub file: SettingsFile,
    pub main: SettingsMain,
}

} // verus!

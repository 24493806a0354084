//! Where an install keeps its data: the folder other builds have always used, so an upgrade
//! opens the same jukebox. Which folders exist is the caller's to find out.

use vstd::prelude::*;


verus! {

/// The folder name, after the package's `name`.
pub open spec fn app_dir_name() -> Seq<char> {
    "kyylan-jukebox"@
}

/// The folder a build would have used had it been named by its product name. Only used
/// when the primary folder doesn't exist, so a wrong guess can't orphan anyone's data.
pub open spec fn product_dir_name() -> Seq<char> {
    "Kyylan Jukebox"@
}

/// A path with a name appended: std's `Path::join`, by the path syntax of the platform the
/// library is built for.
pub uninterp spec fn joined_path(base: Seq<char>, name: Seq<char>) -> Seq<char>;

/// `Path::new(base).join(name)`: `name` under `base`, with a separator between them where
/// `base` doesn't end in one. std's component rules are not stated here.
#[verifier::external_body]
fn join_path(base: &str, name: &str) -> (r: String)
    ensures
        r@ == joined_path(base@, name@),
{
    std::path::Path::new(base).join(name).to_string_lossy().into_owned()
}

/// An install's data folder.
#[derive(Debug, Clone, PartialEq, Eq)]
pub struct DataDir {
    root: String,
}

impl DataDir {
    /// The folder's path.
    pub closed spec fn root_view(&self) -> Seq<char> {
        self.root@
    }

    /// The data folder at `root`.
    pub fn at(root: String) -> (d: DataDir)
        ensures
            d.root_view() == root@,
    {
        DataDir { root }
    }

    /// The folder's path.
    pub fn root(&self) -> (r: &str)
        ensures
            r@ == self.root_view(),
    {
        self.root.as_str()
    }

    /// `config.json` in the folder.
    pub fn config_path(&self) -> (r: String)
        ensures
            r@ == joined_path(self.root_view(), "config.json"@),
    {
        join_path(self.root.as_str(), "config.json")
    }

    /// `jukebox.db` in the folder.
    pub fn database_path(&self) -> (r: String)
        ensures
            r@ == joined_path(self.root_view(), "jukebox.db"@),
    {
        join_path(self.root.as_str(), "jukebox.db")
    }
}

/// The primary data folder inside an OS config folder.
pub fn primary_root(config_base: &str) -> (r: String)
    ensures
        r@ == joined_path(config_base@, app_dir_name()),
{
    join_path(config_base, "kyylan-jukebox")
}

/// The alternate data folder inside an OS config folder.
pub fn alternate_root(config_base: &str) -> (r: String)
    ensures
        r@ == joined_path(config_base@, product_dir_name()),
{
    join_path(config_base, "Kyylan Jukebox")
}

/// The data folder inside an OS config folder: the primary one, unless it doesn't exist and
/// the alternate one is a directory. The real folder wins when both exist.
pub fn default_root_in(config_base: &str, primary_exists: bool, alternate_is_dir: bool) -> (r: String)
    ensures
        r@ == (if !primary_exists && alternate_is_dir {
            joined_path(config_base@, product_dir_name())
        } else {
            joined_path(config_base@, app_dir_name())
        }),
{
    if !primary_exists && alternate_is_dir {
        alternate_root(config_base)
    } else {
        primary_root(config_base)
    }
}

/// The data folder the environment asks for, when the override variable holds something.
pub fn override_root(value: Option<String>) -> (r: Option<DataDir>)
    ensures
        match value {
            Some(v) if v@.len() > 0 => r matches Some(d) && d.root_view() == v@,
            _ => r is None,
        },
{
    match value {
        Some(v) => if v.as_str().is_empty() { None } else { Some(DataDir::at(v)) },
        None => None,
    }
}

/// The variable that overrides the data folder.
pub fn data_dir_env() -> (r: &'static str)
    ensures
        r@ == "KYYLAN_DATA_DIR"@,
{
    "KYYLAN_DATA_DIR"
}

} // verus!

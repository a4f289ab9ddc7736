//! What the renderers know of one directory entry: its kind, its children,
//! and the text that each column shows for it.

use vstd::prelude::*;

verus! {

/// The kind of an entry.
#[derive(Clone, Copy, Debug, PartialEq, Eq, Structural)]
pub enum FileType {
    File,
    Directory,
    SymLink { is_dir: bool },
    Pipe,
    Socket,
    CharDevice,
    BlockDevice,
    Special,
}

/// Which form of an entry's name a listing shows.
#[derive(Clone, Copy, Debug, PartialEq, Eq, Structural)]
pub enum DisplayOption {
    /// The path as the user gave it.
    AsGiven,
    /// The file name alone.
    FileName,
    /// The path relative to the listed parent directory.
    Relative,
}

/// The rendered forms of an entry's name.
pub struct Name {
    pub file_name: String,
    pub path: String,
    pub relative: String,
}

/// The rendered size of an entry: `value` is the (possibly colored) number,
/// `value_plain` the same number without styling, `unit` what follows it.
pub struct Size {
    pub value: String,
    pub value_plain: String,
    pub unit: String,
}

/// The rendered owner of an entry.
pub struct Owner {
    pub user: String,
    pub group: String,
}

/// The rendered access control of an entry: its method marker and its
/// security context.
pub struct AccessControl {
    pub method: String,
    pub context: String,
}

/// One directory entry.
pub struct Meta {
    pub name: Name,
    /// The path shown above a directory's contents in a recursive listing.
    pub path: String,
    pub file_type: FileType,
    /// The rendered file-type marker of the permission column.
    pub file_type_render: String,
    pub permissions: Option<String>,
    pub access_control: Option<AccessControl>,
    pub owner: Option<Owner>,
    pub size: Option<Size>,
    pub date: Option<String>,
    pub inode: Option<String>,
    pub links: Option<String>,
    pub indicator: String,
    /// The rendered symlink target, empty for other entries.
    pub symlink: String,
    pub git_status: Option<String>,
    /// Whether the name matches the tree filter (read only when one is set).
    pub tree_filter_match: bool,
    /// The entries inside a directory that was read.
    pub content: Option<Vec<Meta>>,
}

/// Directories, and symlinks to directories.
pub open spec fn is_dir_like(t: FileType) -> bool {
    t is Directory || (t matches FileType::SymLink { is_dir } && is_dir)
}

/// Whether `t` is a directory or a symlink to one.
pub fn dir_like(t: FileType) -> (b: bool)
    ensures
        b == is_dir_like(t),
{
    match t {
        FileType::Directory => true,
        FileType::SymLink { is_dir } => is_dir,
        _ => false,
    }
}

impl Meta {
    /// An entry with the given name, path and kind, nothing read about it,
    /// and no children.
    pub fn new(name: String, path: String, file_type: FileType) -> (m: Meta)
        ensures
            m.name.file_name@ == name@,
            m.name.path@ == path@,
            m.name.relative@ == name@,
            m.path@ == path@,
            m.file_type == file_type,
            m.file_type_render@ == Seq::<char>::empty(),
            m.permissions is None,
            m.access_control is None,
            m.owner is None,
            m.size is None,
            m.date is None,
            m.inode is None,
            m.links is None,
            m.indicator@ == Seq::<char>::empty(),
            m.symlink@ == Seq::<char>::empty(),
            m.git_status is None,
            m.tree_filter_match,
            m.content is None,
    {
        let relative = name.clone();
        let path2 = path.clone();
        Meta {
            name: Name { file_name: name, path: path2, relative },
            path,
            file_type,
            file_type_render: String::new(),
            permissions: None,
            access_control: None,
            owner: None,
            size: None,
            date: None,
            inode: None,
            links: None,
            indicator: String::new(),
            symlink: String::new(),
            git_status: None,
            tree_filter_match: true,
            content: None,
        }
    }
}

} // verus!

//! The inode table behind the filesystem view of the store: directories and
//! files by inode number, their attributes and the names of their children.
use std::collections::HashMap;
use std::path::PathBuf;
use std::time::{Duration, SystemTime};
use vstd::prelude::*;
use vstd::string::StringExecFns;
use crate::error::IoErrorKind;
use crate::str_map::StrMap;
use crate::paths::{path_from, path_of};
use crate::text::{decimal, decimal_text};
use crate::file_kv::timeout_control::{duration_of_millis, millis};

verus! {

/// Error number of an I/O failure.
pub const EIO: i32 = 5;
/// Error number of a missing facility.
pub const ENOSYS: i32 = 38;
/// Error number of an invalid argument.
pub const EINVAL: i32 = 22;
/// Error number of a missing entry.
pub const ENOENT: i32 = 2;
/// Error number of an existing entry.
pub const EEXIST: i32 = 17;
/// Error number of a refused permission.
pub const EACCES: i32 = 13;
/// Error number of a path step that is not a directory.
pub const ENOTDIR: i32 = 20;
/// Error number of a directory that is not empty.
pub const ENOTEMPTY: i32 = 39;
/// Error number of a path that names a directory.
pub const EISDIR: i32 = 21;
/// Error number of a file handle that is not open.
pub const EBADF: i32 = 9;
/// File type bits of a directory.
pub const S_IFDIR: u32 = 0o040000;
/// File type bits of a regular file.
pub const S_IFREG: u32 = 0o100000;

/// Errors of filesystem operations.
#[derive(Debug)]
pub enum FuseError {
    Io(IoErrorKind),
    NotAvailable(String),
    InvalidPath(String),
    NotFound(String),
    AlreadyExists(String),
    PermissionDenied(String),
    ColumnFamily(String),
    NotADirectory(String),
    DirectoryNotEmpty(String),
}

/// Result of filesystem operations.
pub type FuseResult<T> = Result<T, FuseError>;

impl FuseError {
    /// The error number that reports the error.
    pub open spec fn errno_spec(&self) -> i32 {
        match self {
            FuseError::Io(_) => EIO,
            FuseError::NotAvailable(_) => ENOSYS,
            FuseError::InvalidPath(_) => EINVAL,
            FuseError::NotFound(_) => ENOENT,
            FuseError::AlreadyExists(_) => EEXIST,
            FuseError::PermissionDenied(_) => EACCES,
            FuseError::ColumnFamily(_) => EIO,
            FuseError::NotADirectory(_) => ENOTDIR,
            FuseError::DirectoryNotEmpty(_) => ENOTEMPTY,
        }
    }

    /// The error number that reports the error.
    pub fn errno(&self) -> (e: i32)
        ensures
            e == self.errno_spec(),
    {
        match self {
            FuseError::Io(_) => EIO,
            FuseError::NotAvailable(_) => ENOSYS,
            FuseError::InvalidPath(_) => EINVAL,
            FuseError::NotFound(_) => ENOENT,
            FuseError::AlreadyExists(_) => EEXIST,
            FuseError::PermissionDenied(_) => EACCES,
            FuseError::ColumnFamily(_) => EIO,
            FuseError::NotADirectory(_) => ENOTDIR,
            FuseError::DirectoryNotEmpty(_) => ENOTEMPTY,
        }
    }
}

#[verifier::external_type_specification]
#[verifier::external_body]
pub struct ExSystemTime(SystemTime);

/// `SystemTime::now()`: the current wall-clock time. Nothing is stated of it.
#[verifier::external_body]
fn system_now() -> SystemTime {
    SystemTime::now()
}

/// The text of the default storage root.
pub open spec fn default_root_text() -> Seq<char> {
    "./.tokitai/fuse_data"@
}

/// Configuration of the filesystem view.
#[derive(Clone, Debug)]
pub struct FuseConfig {
    /// Where the filesystem is mounted.
    pub mount_point: PathBuf,
    /// Root directory of the stored data.
    pub root_path: PathBuf,
    /// Debug logging.
    pub debug: bool,
    /// Access for other users.
    pub allow_other: bool,
    /// Unmount when closed.
    pub auto_unmount: bool,
}

impl FuseConfig {
    /// A configuration for `mount_point`, with the default root, no debug
    /// logging, no access for other users, and unmounting when closed.
    pub fn new(mount_point: &str) -> (c: Self)
        ensures
            c.mount_point == path_of(mount_point@),
            c.root_path == path_of(default_root_text()),
            !c.debug,
            !c.allow_other,
            c.auto_unmount,
    {
        FuseConfig {
            mount_point: path_from(mount_point),
            root_path: path_from("./.tokitai/fuse_data"),
            debug: false,
            allow_other: false,
            auto_unmount: true,
        }
    }

    /// This configuration with the root path set to `path`.
    pub fn with_root_path(self, path: &str) -> (c: Self)
        ensures
            c.root_path == path_of(path@),
            c.mount_point == self.mount_point,
            c.debug == self.debug,
            c.allow_other == self.allow_other,
            c.auto_unmount == self.auto_unmount,
    {
        let mut c = self;
        c.root_path = path_from(path);
        c
    }

    /// This configuration with debug logging set to `debug`.
    pub fn with_debug(self, debug: bool) -> (c: Self)
        ensures
            c.debug == debug,
            c.mount_point == self.mount_point,
            c.root_path == self.root_path,
            c.allow_other == self.allow_other,
            c.auto_unmount == self.auto_unmount,
    {
        let mut c = self;
        c.debug = debug;
        c
    }
}

/// An open file.
#[derive(Debug, Clone)]
pub struct FileHandle {
    path: String,
    flags: i32,
    data: Vec<u8>,
    dirty: bool,
}

impl FileHandle {
    /// The path of the file.
    pub closed spec fn path_spec(&self) -> Seq<char> {
        self.path@
    }

    /// The open flags.
    pub closed spec fn flags_spec(&self) -> i32 {
        self.flags
    }

    /// The buffered data.
    pub closed spec fn data_spec(&self) -> Seq<u8> {
        self.data@
    }

    /// Whether the buffer holds unwritten changes.
    pub closed spec fn dirty_spec(&self) -> bool {
        self.dirty
    }

    /// Whether the handle is one just opened for `path` with `flags`: no
    /// data, nothing unwritten.
    pub open spec fn is_fresh(&self, path: Seq<char>, flags: i32) -> bool {
        &&& self.path_spec() == path
        &&& self.flags_spec() == flags
        &&& self.data_spec().len() == 0
        &&& !self.dirty_spec()
    }

    /// A handle of `path` opened with `flags`, with no data and nothing
    /// unwritten.
    pub fn new(path: String, flags: i32) -> (h: Self)
        ensures
            h.path_spec() == path@,
            h.flags_spec() == flags,
            h.data_spec().len() == 0,
            !h.dirty_spec(),
    {
        FileHandle { path, flags, data: Vec::new(), dirty: false }
    }

    /// The path of the file.
    pub fn path(&self) -> (p: &str)
        ensures
            p@ == self.path_spec(),
    {
        self.path.as_str()
    }

    /// The open flags.
    pub fn flags(&self) -> (f: i32)
        ensures
            f == self.flags_spec(),
    {
        self.flags
    }

    /// Whether the buffer holds unwritten changes.
    pub fn is_dirty(&self) -> (d: bool)
        ensures
            d == self.dirty_spec(),
    {
        self.dirty
    }
}

/// Attributes of an inode.
#[derive(Debug, Clone, Copy)]
pub struct InodeAttr {
    pub ino: u64,
    pub size: u64,
    pub mode: u32,
    pub nlink: u32,
    pub uid: u32,
    pub gid: u32,
    pub atime: SystemTime,
    pub mtime: SystemTime,
    pub ctime: SystemTime,
}

impl InodeAttr {
    /// Attributes of directory `ino` owned by `uid` and `gid`: mode 755,
    /// two links, size zero, all times now.
    pub fn directory(ino: u64, uid: u32, gid: u32) -> (a: Self)
        ensures
            a.ino == ino,
            a.size == 0,
            a.mode == S_IFDIR | 0o755,
            a.nlink == 2,
            a.uid == uid,
            a.gid == gid,
    {
        let now = system_now();
        InodeAttr { ino, size: 0, mode: S_IFDIR | 0o755, nlink: 2, uid, gid, atime: now, mtime: now, ctime: now }
    }

    /// Attributes of file `ino` of `size` bytes owned by `uid` and `gid`:
    /// mode 644, one link, all times now.
    pub fn file(ino: u64, size: u64, uid: u32, gid: u32) -> (a: Self)
        ensures
            a.ino == ino,
            a.size == size,
            a.mode == S_IFREG | 0o644,
            a.nlink == 1,
            a.uid == uid,
            a.gid == gid,
    {
        let now = system_now();
        InodeAttr { ino, size, mode: S_IFREG | 0o644, nlink: 1, uid, gid, atime: now, mtime: now, ctime: now }
    }
}

/// An inode: its attributes, its parent, its name and its children by name.
#[derive(Debug)]
pub struct Inode {
    pub attr: InodeAttr,
    pub parent: u64,
    pub name: String,
    pub children: StrMap<u64>,
}

/// What an inode holds, its times left out.
pub struct InodeView {
    pub ino: u64,
    pub size: u64,
    pub mode: u32,
    pub nlink: u32,
    pub uid: u32,
    pub gid: u32,
    pub parent: u64,
    pub name: Seq<char>,
    pub children: Map<Seq<char>, u64>,
}

impl View for Inode {
    type V = InodeView;

    open spec fn view(&self) -> InodeView {
        InodeView {
            ino: self.attr.ino,
            size: self.attr.size,
            mode: self.attr.mode,
            nlink: self.attr.nlink,
            uid: self.attr.uid,
            gid: self.attr.gid,
            parent: self.parent,
            name: self.name@,
            children: self.children.contents(),
        }
    }
}

/// The view of a new directory inode.
pub open spec fn directory_view(name: Seq<char>, parent: u64, ino: u64, uid: u32, gid: u32) -> InodeView {
    InodeView {
        ino,
        size: 0,
        mode: S_IFDIR | 0o755,
        nlink: 2,
        uid,
        gid,
        parent,
        name,
        children: Map::empty(),
    }
}

/// The view of a new file inode.
pub open spec fn file_view(name: Seq<char>, parent: u64, ino: u64, size: u64, uid: u32, gid: u32) -> InodeView {
    InodeView {
        ino,
        size,
        mode: S_IFREG | 0o644,
        nlink: 1,
        uid,
        gid,
        parent,
        name,
        children: Map::empty(),
    }
}

impl Inode {
    /// Directory `ino` named `name` under `parent`, owned by `uid` and
    /// `gid`, with no children.
    pub fn new(name: String, parent: u64, ino: u64, uid: u32, gid: u32) -> (i: Self)
        ensures
            i@ == directory_view(name@, parent, ino, uid, gid),
    {
        Inode { attr: InodeAttr::directory(ino, uid, gid), parent, name, children: StrMap::new() }
    }

    /// File `ino` of `size` bytes named `name` under `parent`, owned by
    /// `uid` and `gid`.
    pub fn file(name: String, parent: u64, ino: u64, size: u64, uid: u32, gid: u32) -> (i: Self)
        ensures
            i@ == file_view(name@, parent, ino, size, uid, gid),
    {
        Inode { attr: InodeAttr::file(ino, size, uid, gid), parent, name, children: StrMap::new() }
    }

    /// A copy of the inode.
    pub fn duplicate(&self) -> (i: Self)
        ensures
            i@ == self@,
            i.attr == self.attr,
    {
        Inode {
            attr: self.attr,
            parent: self.parent,
            name: self.name.clone(),
            children: self.children.copied(),
        }
    }
}

/// `prefix`, `n` in decimal, then `suffix`.
pub open spec fn numbered(prefix: &str, n: u64, suffix: &str) -> Seq<char> {
    prefix@ + decimal(n as nat) + suffix@
}

/// `prefix`, `name`, then `suffix`.
pub open spec fn named(prefix: &str, name: Seq<char>, suffix: &str) -> Seq<char> {
    prefix@ + name + suffix@
}

fn numbered_text(prefix: &str, n: u64, suffix: &str) -> (s: String)
    ensures
        s@ == numbered(prefix, n, suffix),
{
    let mut s = String::from_str(prefix);
    s.append(decimal_text(n).as_str());
    s.append(suffix);
    s
}

fn named_text(prefix: &str, name: &str, suffix: &str) -> (s: String)
    ensures
        s@ == named(prefix, name@, suffix),
{
    let mut s = String::from_str(prefix);
    s.append(name);
    s.append(suffix);
    s
}

/// The inode reached from `cur` by following the child names `names`.
pub open spec fn walk(table: Map<u64, InodeView>, cur: u64, names: Seq<Seq<char>>) -> Option<u64>
    decreases names.len(),
{
    if names.len() == 0 {
        Some(cur)
    } else if !table.contains_key(cur) || !table[cur].children.contains_key(names[0]) {
        None
    } else {
        walk(table, table[cur].children[names[0]], names.drop_first())
    }
}

/// An entry of a directory listing: its inode, its offset, its name and
/// its file type bits.
pub struct DirEntry {
    pub ino: u64,
    pub offset: i64,
    pub name: String,
    pub kind: u32,
}

/// The bytes from `off` of `d`, at most `size` of them; none where `off`
/// lies at or past the end.
pub open spec fn read_range(d: Seq<u8>, off: int, size: int) -> Seq<u8> {
    if off >= d.len() {
        Seq::empty()
    } else if off + size >= d.len() {
        d.skip(off)
    } else {
        d.subrange(off, off + size)
    }
}

/// `d` with `bytes` written at `off`, first grown with zero bytes to reach
/// the end of the write.
pub open spec fn written(d: Seq<u8>, off: int, bytes: Seq<u8>) -> Seq<u8> {
    let end = off + bytes.len();
    let base = if end > d.len() { d + Seq::new((end - d.len()) as nat, |i: int| 0u8) } else { d };
    base.take(off) + bytes + base.skip(end)
}

/// The inode table of a mounted store.
pub struct FuseFS {
    config: FuseConfig,
    inodes: HashMap<u64, Inode>,
    file_handles: HashMap<u64, FileHandle>,
    next_ino: u64,
    ttl: Duration,
    uid: u32,
    gid: u32,
}

impl FuseFS {
    /// The inodes, by number.
    pub closed spec fn table(&self) -> Map<u64, InodeView> {
        Map::new(|k: u64| self.inodes@.contains_key(k), |k: u64| self.inodes@[k]@)
    }

    /// The next inode number to hand out.
    pub closed spec fn next_spec(&self) -> u64 {
        self.next_ino
    }

    /// The owner of new inodes.
    pub closed spec fn owner(&self) -> (u32, u32) {
        (self.uid, self.gid)
    }

    /// The configuration.
    pub closed spec fn config_spec(&self) -> FuseConfig {
        self.config
    }

    proof fn lemma_table(&self)
        ensures
            self.table().dom() == self.inodes@.dom(),
            forall|k: u64| #[trigger] self.inodes@.contains_key(k) ==> self.table()[k] == self.inodes@[k]@,
            self.attrs().dom() == self.inodes@.dom(),
            forall|k: u64| #[trigger] self.inodes@.contains_key(k) ==> self.attrs()[k] == self.inodes@[k].attr,
    {
        assert(self.table().dom() =~= self.inodes@.dom());
        assert(self.attrs().dom() =~= self.inodes@.dom());
    }

    /// The attributes of each inode, times included.
    pub closed spec fn attrs(&self) -> Map<u64, InodeAttr> {
        Map::new(|k: u64| self.inodes@.contains_key(k), |k: u64| self.inodes@[k].attr)
    }

    /// The open files, by handle.
    pub closed spec fn handles(&self) -> Map<u64, FileHandle> {
        self.file_handles@
    }

    /// The names of the children of `ino` in the order they are listed.
    pub closed spec fn child_order(&self, ino: u64) -> Seq<Seq<char>> {
        self.inodes@[ino].children.key_seq()
    }

    /// The file type bits under which inode `c` is listed: a directory's
    /// where it is one, else a regular file's.
    pub open spec fn kind_of(&self, c: u64) -> u32 {
        if self.table().contains_key(c) && self.table()[c].mode & S_IFDIR != 0 {
            S_IFDIR
        } else {
            S_IFREG
        }
    }

    /// The entries listed for directory `ino` from `offset`: `.` where the
    /// offset is zero, `..` where it is at most one, then every child, the
    /// offsets counting up from `offset + 2`.
    pub open spec fn listing(&self, ino: u64, offset: i64) -> Seq<(u64, int, Seq<char>, u32)> {
        let node = self.table()[ino];
        let order = self.child_order(ino);
        let dot: Seq<(u64, int, Seq<char>, u32)> = if offset == 0 {
            seq![(ino, offset + 1, seq!['.'], S_IFDIR)]
        } else {
            Seq::empty()
        };
        let dotdot: Seq<(u64, int, Seq<char>, u32)> = if offset <= 1 {
            seq![(node.parent, offset + 2, seq!['.', '.'], S_IFDIR)]
        } else {
            Seq::empty()
        };
        dot + dotdot + Seq::new(
            order.len(),
            |j: int| (node.children[order[j]], offset + 2 + j, order[j], self.kind_of(node.children[order[j]])),
        )
    }

    /// A table holding only the root directory, inode 1 with parent 0 and
    /// an empty name, owned by `uid` and `gid`; the next inode is 2.
    pub fn new(config: FuseConfig, uid: u32, gid: u32) -> (fs: Self)
        ensures
            fs.table() == Map::<u64, InodeView>::empty().insert(1, directory_view(Seq::empty(), 0, 1, uid, gid)),
            fs.next_spec() == 2,
            fs.ttl_spec() == duration_of_millis(1000),
            fs.owner() == (uid, gid),
            fs.config_spec() == config,
    {
        let mut inodes: HashMap<u64, Inode> = HashMap::new();
        let root = Inode::new(String::new(), 0, 1, uid, gid);
        inodes.insert(1, root);
        let fs = FuseFS {
            config,
            inodes,
            file_handles: HashMap::new(),
            next_ino: 2,
            ttl: millis(1000),
            uid,
            gid,
        };
        proof {
            fs.lemma_table();
            assert(fs.table() =~= Map::<u64, InodeView>::empty().insert(1, directory_view(Seq::empty(), 0, 1, uid, gid)));
        }
        fs
    }

    /// How long the kernel may cache what it is told.
    pub closed spec fn ttl_spec(&self) -> Duration {
        self.ttl
    }

    /// How long the kernel may cache what it is told.
    pub fn ttl(&self) -> (d: Duration)
        ensures
            d == self.ttl_spec(),
    {
        self.ttl
    }

    /// The configuration.
    pub fn config(&self) -> (c: &FuseConfig)
        ensures
            *c == self.config_spec(),
    {
        &self.config
    }

    /// Hands out the next inode number.
    pub fn next_ino(&mut self) -> (n: u64)
        ensures
            n == old(self).next_spec(),
            final(self).next_spec() == old(self).next_spec().wrapping_add(1),
            final(self).table() == old(self).table(),
            final(self).attrs() == old(self).attrs(),
            final(self).handles() == old(self).handles(),
            final(self).owner() == old(self).owner(),
            final(self).config_spec() == old(self).config_spec(),
    {
        let n = self.next_ino;
        self.next_ino = self.next_ino.wrapping_add(1);
        n
    }

    /// A copy of inode `ino`, if there is one.
    pub fn get_inode(&self, ino: u64) -> (r: Option<Inode>)
        ensures
            r is Some <==> self.table().contains_key(ino),
            r matches Some(i) ==> i@ == self.table()[ino],
    {
        proof {
            self.lemma_table();
        }
        match self.inodes.get(&ino) {
            Some(i) => Some(i.duplicate()),
            None => None,
        }
    }

    /// The inode reached from the root by the child names `names` (the
    /// normal components of a path), if every step exists.
    pub fn get_inode_by_names(&self, names: &[String]) -> (r: Option<u64>)
        ensures
            r == walk(self.table(), 1, names@.map_values(|n: String| n@)),
    {
        proof {
            self.lemma_table();
        }
        let ghost all = names@.map_values(|n: String| n@);
        assert(all.skip(0) =~= all);
        let mut cur: u64 = 1;
        let mut i: usize = 0;
        while i < names.len()
            invariant
                i <= names@.len(),
                all == names@.map_values(|n: String| n@),
                self.table().dom() == self.inodes@.dom(),
                forall|k: u64| #[trigger] self.inodes@.contains_key(k) ==> self.table()[k] == self.inodes@[k]@,
                walk(self.table(), 1, all) == walk(self.table(), cur, all.skip(i as int)),
            decreases names@.len() - i,
        {
            assert(all.skip(i as int).drop_first() =~= all.skip(i + 1));
            match self.inodes.get(&cur) {
                Some(node) => match node.children.get(names[i].as_str()) {
                    Some(c) => {
                        cur = *c;
                    },
                    None => {
                        return None;
                    },
                },
                None => {
                    return None;
                },
            }
            i += 1;
        }
        assert(all.skip(i as int).len() == 0);
        Some(cur)
    }

    /// The attributes of child `name` of `parent`, where both exist.
    pub fn lookup(&self, parent: u64, name: &str) -> (r: Option<InodeAttr>)
        ensures
            r == (if self.table().contains_key(parent) && self.table()[parent].children.contains_key(name@)
                && self.attrs().contains_key(self.table()[parent].children[name@]) {
                Some(self.attrs()[self.table()[parent].children[name@]])
            } else {
                None::<InodeAttr>
            }),
    {
        proof {
            self.lemma_table();
        }
        match self.inodes.get(&parent) {
            Some(p) => match p.children.get(name) {
                Some(c) => match self.inodes.get(c) {
                    Some(child) => Some(child.attr),
                    None => None,
                },
                None => None,
            },
            None => None,
        }
    }

    /// The attributes of inode `ino`, where it exists.
    pub fn getattr(&self, ino: u64) -> (r: Option<InodeAttr>)
        ensures
            r == (if self.attrs().contains_key(ino) { Some(self.attrs()[ino]) } else { None::<InodeAttr> }),
    {
        proof {
            self.lemma_table();
        }
        match self.inodes.get(&ino) {
            Some(i) => Some(i.attr),
            None => None,
        }
    }

    /// Opens inode `ino` with `flags`: a new handle, numbered by the next
    /// inode number, for the inode's name. A missing inode gives `ENOENT`
    /// and a directory `EISDIR`, with nothing changed.
    pub fn open(&mut self, ino: u64, flags: i32) -> (r: Result<u64, i32>)
        ensures
            final(self).table() == old(self).table(),
            final(self).attrs() == old(self).attrs(),
            final(self).owner() == old(self).owner(),
            final(self).config_spec() == old(self).config_spec(),
            !old(self).table().contains_key(ino) ==> r == Err::<u64, i32>(ENOENT)
                && final(self).handles() == old(self).handles() && final(self).next_spec() == old(self).next_spec(),
            old(self).table().contains_key(ino) && old(self).table()[ino].mode & S_IFDIR != 0 ==> r == Err::<u64, i32>(EISDIR)
                && final(self).handles() == old(self).handles() && final(self).next_spec() == old(self).next_spec(),
            old(self).table().contains_key(ino) && old(self).table()[ino].mode & S_IFDIR == 0 ==> {
                let fh = old(self).next_spec();
                &&& r == Ok::<u64, i32>(fh)
                &&& final(self).next_spec() == fh.wrapping_add(1)
                &&& final(self).handles().dom() == old(self).handles().dom().insert(fh)
                &&& final(self).handles()[fh].is_fresh(old(self).table()[ino].name, flags)
                &&& forall|k: u64| k != fh && old(self).handles().contains_key(k) ==> final(self).handles()[k] == old(self).handles()[k]
            },
    {
        proof {
            self.lemma_table();
        }
        let name = match self.inodes.get(&ino) {
            Some(i) => {
                if i.attr.mode & S_IFDIR != 0 {
                    return Err(EISDIR);
                }
                i.name.clone()
            },
            None => {
                return Err(ENOENT);
            },
        };
        assert(name@ == old(self).table()[ino].name);
        let fh = self.next_ino();
        self.file_handles.insert(fh, FileHandle::new(name, flags));
        proof {
            assert(self.handles().dom() =~= old(self).handles().dom().insert(fh));
        }
        Ok(fh)
    }

    /// Closes handle `fh`.
    pub fn release(&mut self, fh: u64)
        ensures
            final(self).handles() == old(self).handles().remove(fh),
            final(self).table() == old(self).table(),
            final(self).attrs() == old(self).attrs(),
            final(self).next_spec() == old(self).next_spec(),
            final(self).owner() == old(self).owner(),
            final(self).config_spec() == old(self).config_spec(),
    {
        self.file_handles.remove(&fh);
    }

    /// Up to `size` bytes of the data of handle `fh` from `offset`; none
    /// where the offset lies at or past the end. A handle not open gives
    /// `EBADF`.
    pub fn read(&self, fh: u64, offset: i64, size: u32) -> (r: Result<Vec<u8>, i32>)
        ensures
            !self.handles().contains_key(fh) ==> r == Err::<Vec<u8>, i32>(EBADF),
            self.handles().contains_key(fh) ==> (r matches Ok(v) && v@ == read_range(
                self.handles()[fh].data_spec(),
                offset as usize as int,
                size as int,
            )),
    {
        match self.file_handles.get(&fh) {
            Some(h) => {
                let off = offset as usize;
                let len = h.data.len();
                let mut out: Vec<u8> = Vec::new();
                if off >= len {
                    return Ok(out);
                }
                let end: usize = if (size as usize) >= len - off { len } else { off + size as usize };
                let mut i: usize = off;
                while i < end
                    invariant
                        off <= i <= end <= len,
                        len == h.data@.len(),
                        out@ == h.data@.subrange(off as int, i as int),
                    decreases end - i,
                {
                    out.push(h.data[i]);
                    assert(h.data@.subrange(off as int, i + 1) =~= h.data@.subrange(off as int, i as int).push(h.data@[i as int]));
                    i += 1;
                }
                Ok(out)
            },
            None => Err(EBADF),
        }
    }

    /// Writes `data` at `offset` into handle `fh`: the data grows with zero
    /// bytes to reach the end of the write, the handle is marked unwritten,
    /// and inode `ino`, where it exists, takes the new data length as its
    /// size. Gives the number of bytes written; a handle not open gives
    /// `EBADF`, with nothing changed.
    pub fn write(&mut self, ino: u64, fh: u64, offset: i64, data: &[u8]) -> (r: Result<u32, i32>)
        requires
            old(self).handles().contains_key(fh) ==> offset as usize as int + data@.len() <= isize::MAX,
        ensures
            final(self).next_spec() == old(self).next_spec(),
            final(self).owner() == old(self).owner(),
            final(self).config_spec() == old(self).config_spec(),
            !old(self).handles().contains_key(fh) ==> r == Err::<u32, i32>(EBADF)
                && final(self).handles() == old(self).handles() && final(self).table() == old(self).table()
                && final(self).attrs() == old(self).attrs(),
            old(self).handles().contains_key(fh) ==> {
                let h = old(self).handles()[fh];
                let d = written(h.data_spec(), offset as usize as int, data@);
                &&& r == Ok::<u32, i32>(data@.len() as u32)
                &&& final(self).handles().dom() == old(self).handles().dom()
                &&& forall|k: u64| k != fh && old(self).handles().contains_key(k) ==> final(self).handles()[k] == old(self).handles()[k]
                &&& final(self).handles()[fh].data_spec() == d
                &&& final(self).handles()[fh].path_spec() == h.path_spec()
                &&& final(self).handles()[fh].flags_spec() == h.flags_spec()
                &&& final(self).handles()[fh].dirty_spec()
                &&& (old(self).table().contains_key(ino) ==> final(self).table() == old(self).table().insert(
                    ino,
                    InodeView { size: d.len() as u64, ..old(self).table()[ino] },
                ) && final(self).attrs() == old(self).attrs().insert(ino, InodeAttr { size: d.len() as u64, ..old(self).attrs()[ino] }))
                &&& (!old(self).table().contains_key(ino) ==> final(self).table() == old(self).table()
                    && final(self).attrs() == old(self).attrs())
            },
    {
        proof {
            self.lemma_table();
        }
        let mut h = match self.file_handles.remove(&fh) {
            Some(h) => h,
            None => {
                return Err(EBADF);
            },
        };
        let ghost d0 = h.data@;
        let ghost h0 = h;
        let off = offset as usize;
        let end = off + data.len();
        let ghost base = if end > d0.len() { d0 + Seq::new((end - d0.len()) as nat, |i: int| 0u8) } else { d0 };
        while h.data.len() < end
            invariant
                d0.len() <= end ==> h.data@ == d0 + Seq::new((h.data@.len() - d0.len()) as nat, |i: int| 0u8),
                d0.len() > end ==> h.data@ == d0,
                h.data@.len() >= d0.len(),
                d0.len() <= end ==> h.data@.len() <= end,
                end <= isize::MAX,
                h.path == h0.path,
                h.flags == h0.flags,
            decreases end - h.data@.len(),
        {
            let ghost before = h.data@;
            h.data.push(0u8);
            assert(h.data@ =~= d0 + Seq::new((h.data@.len() - d0.len()) as nat, |i: int| 0u8));
        }
        proof {
            if d0.len() < end {
                assert(h.data@ =~= base);
            } else if d0.len() == end {
                assert(h.data@ =~= d0);
            } else {
                assert(h.data@ == base);
            }
        }
        let mut i: usize = 0;
        while i < data.len()
            invariant
                i <= data@.len(),
                end == off + data@.len(),
                h.data@.len() == base.len(),
                base.len() >= end,
                h.data@ == base.take(off as int) + data@.take(i as int) + base.skip(off + i),
                h.path == h0.path,
                h.flags == h0.flags,
            decreases data@.len() - i,
        {
            h.data.set(off + i, data[i]);
            assert(h.data@ =~= base.take(off as int) + data@.take(i + 1) + base.skip(off + i + 1));
            i += 1;
        }
        proof {
            assert(data@.take(i as int) =~= data@);
            assert(h.data@ == written(d0, off as int, data@));
        }
        h.dirty = true;
        let new_len = h.data.len() as u64;
        self.file_handles.insert(fh, h);
        match self.inodes.remove(&ino) {
            Some(mut node) => {
                node.attr.size = new_len;
                self.inodes.insert(ino, node);
                proof {
                    self.lemma_table();
                    old(self).lemma_table();
                    assert(self.table() =~= old(self).table().insert(ino, InodeView { size: new_len, ..old(self).table()[ino] }));
                    assert(self.attrs() =~= old(self).attrs().insert(ino, InodeAttr { size: new_len, ..old(self).attrs()[ino] }));
                }
            },
            None => {
                proof {
                    self.lemma_table();
                    old(self).lemma_table();
                    assert(self.table() =~= old(self).table());
                    assert(self.attrs() =~= old(self).attrs());
                }
            },
        }
        proof {
            assert(self.handles().dom() =~= old(self).handles().dom());
        }
        Ok(data.len() as u32)
    }

    /// The entries of directory `ino` listed from `offset`, where it exists.
    pub fn readdir(&self, ino: u64, offset: i64) -> (r: Option<Vec<DirEntry>>)
        requires
            self.table().contains_key(ino) ==> offset + 2 + self.child_order(ino).len() <= i64::MAX,
        ensures
            r is Some <==> self.table().contains_key(ino),
            r matches Some(es) ==> es@.map_values(|e: DirEntry| (e.ino, e.offset as int, e.name@, e.kind))
                == self.listing(ino, offset),
    {
        proof {
            self.lemma_table();
        }
        let node = match self.inodes.get(&ino) {
            Some(n) => n,
            None => {
                return None;
            },
        };
        let ghost want = self.listing(ino, offset);
        let ghost order = self.child_order(ino);
        let mut es: Vec<DirEntry> = Vec::new();
        if offset == 0 {
            es.push(DirEntry { ino, offset: offset + 1, name: String::from_str("."), kind: S_IFDIR });
        }
        if offset <= 1 {
            es.push(DirEntry { ino: node.parent, offset: offset + 2, name: String::from_str(".."), kind: S_IFDIR });
        }
        proof {
            reveal_strlit(".");
            reveal_strlit("..");
        }
        let ghost head = es@.map_values(|e: DirEntry| (e.ino, e.offset as int, e.name@, e.kind));
        proof {
            let dot: Seq<(u64, int, Seq<char>, u32)> = if offset == 0 {
                seq![(ino, offset + 1, seq!['.'], S_IFDIR)]
            } else {
                Seq::empty()
            };
            let dotdot: Seq<(u64, int, Seq<char>, u32)> = if offset <= 1 {
                seq![(self.table()[ino].parent, offset + 2, seq!['.', '.'], S_IFDIR)]
            } else {
                Seq::empty()
            };
            assert(".."@ =~= seq!['.', '.']);
            assert("."@ =~= seq!['.']);
            assert(head =~= dot + dotdot);
            assert(want.take((dot + dotdot).len() as int) =~= dot + dotdot);
        }
        let names = node.children.keys();
        let mut current: i64 = offset + 2;
        let mut j: usize = 0;
        while j < names.len()
            invariant
                j <= names@.len(),
                names@.map_values(|k: String| k@) == order,
                order == self.child_order(ino),
                node.children.contents() == self.table()[ino].children,
                self.table().contains_key(ino),
                self.table()[ino] == node@,
                forall|k: int| 0 <= k < names@.len() ==> node.children.contents().dom().contains(#[trigger] names@[k]@),
                current == offset + 2 + j,
                offset + 2 + order.len() <= i64::MAX,
                want == self.listing(ino, offset),
                head.len() + order.len() == want.len(),
                es@.map_values(|e: DirEntry| (e.ino, e.offset as int, e.name@, e.kind)) == want.take(head.len() + j),
                self.table().dom() == self.inodes@.dom(),
                forall|k: u64| #[trigger] self.inodes@.contains_key(k) ==> self.table()[k] == self.inodes@[k]@,
            decreases names@.len() - j,
        {
            assert(names@[j as int]@ == order[j as int]);
            let name = names[j].as_str();
            let child = match node.children.get(name) {
                Some(c) => *c,
                None => {
                    assert(false);
                    0
                },
            };
            let kind = match self.inodes.get(&child) {
                Some(c) => if c.attr.mode & S_IFDIR != 0 { S_IFDIR } else { S_IFREG },
                None => S_IFREG,
            };
            let ghost before = es@.map_values(|e: DirEntry| (e.ino, e.offset as int, e.name@, e.kind));
            es.push(DirEntry { ino: child, offset: current, name: String::from_str(name), kind });
            assert(es@.map_values(|e: DirEntry| (e.ino, e.offset as int, e.name@, e.kind)) =~= before.push(want[head.len() + j]));
            assert(want.take(head.len() + j + 1) =~= want.take(head.len() + j).push(want[head.len() + j]));
            current = current + 1;
            j += 1;
        }
        assert(want.take(head.len() + j) =~= want);
        Some(es)
    }

    /// Sets the access and modification times of inode `ino`, where it
    /// exists, and gives its attributes.
    pub fn utimens(&mut self, ino: u64, atime: SystemTime, mtime: SystemTime) -> (r: Option<InodeAttr>)
        ensures
            final(self).table() == old(self).table(),
            final(self).handles() == old(self).handles(),
            final(self).next_spec() == old(self).next_spec(),
            final(self).owner() == old(self).owner(),
            final(self).config_spec() == old(self).config_spec(),
            !old(self).attrs().contains_key(ino) ==> r is None && final(self).attrs() == old(self).attrs(),
            old(self).attrs().contains_key(ino) ==> {
                let a = InodeAttr { atime, mtime, ..old(self).attrs()[ino] };
                r == Some(a) && final(self).attrs() == old(self).attrs().insert(ino, a)
            },
    {
        proof {
            self.lemma_table();
        }
        match self.inodes.remove(&ino) {
            Some(mut node) => {
                node.attr.atime = atime;
                node.attr.mtime = mtime;
                let a = node.attr;
                self.inodes.insert(ino, node);
                proof {
                    self.lemma_table();
                    old(self).lemma_table();
                    assert(self.table() =~= old(self).table());
                    assert(self.attrs() =~= old(self).attrs().insert(ino, a));
                }
                Some(a)
            },
            None => None,
        }
    }

    /// Creates the empty file `name` under `parent` and opens it with
    /// `flags`: its attributes and a new handle for `name`, numbered by the
    /// inode number after the file's.
    pub fn create(&mut self, parent: u64, name: &str, flags: i32) -> (r: FuseResult<(InodeAttr, u64)>)
        ensures
            final(self).owner() == old(self).owner(),
            final(self).config_spec() == old(self).config_spec(),
            !old(self).table().contains_key(parent) ==> (r matches Err(FuseError::NotFound(m))
                && m@ == numbered("Parent inode ", parent, " not found")) && final(self).table() == old(self).table()
                && final(self).handles() == old(self).handles(),
            old(self).table().contains_key(parent) && old(self).table()[parent].children.contains_key(name@)
                ==> (r matches Err(FuseError::AlreadyExists(m)) && m@ == name@) && final(self).table()
                == old(self).table() && final(self).handles() == old(self).handles(),
            old(self).table().contains_key(parent) && !old(self).table()[parent].children.contains_key(name@) ==> {
                let ino = old(self).next_spec();
                let fh = ino.wrapping_add(1);
                &&& (r matches Ok((a, h)) && h == fh && a == final(self).attrs()[ino])
                &&& final(self).table() == old(self).table().insert(parent, InodeView {
                    children: old(self).table()[parent].children.insert(name@, ino),
                    ..old(self).table()[parent]
                }).insert(ino, file_view(name@, parent, ino, 0, old(self).owner().0, old(self).owner().1))
                &&& final(self).next_spec() == fh.wrapping_add(1)
                &&& final(self).handles().dom() == old(self).handles().dom().insert(fh)
                &&& final(self).handles()[fh].is_fresh(name@, flags)
                &&& forall|k: u64| k != fh && old(self).handles().contains_key(k) ==> final(self).handles()[k] == old(self).handles()[k]
            },
    {
        let ino = self.create_internal(parent, name)?;
        proof {
            self.lemma_table();
        }
        let a = match self.inodes.get(&ino) {
            Some(i) => i.attr,
            None => {
                assert(false);
                return Err(FuseError::Io(IoErrorKind::Other));
            },
        };
        let fh = self.next_ino();
        let ghost mid = self.handles();
        self.file_handles.insert(fh, FileHandle::new(String::from_str(name), flags));
        proof {
            self.lemma_table();
            assert(self.handles().dom() =~= mid.dom().insert(fh));
        }
        Ok((a, fh))
    }

    /// Creates directory `name` under `parent_ino`.
    pub fn mkdir_internal(&mut self, parent_ino: u64, name: &str) -> (r: FuseResult<u64>)
        ensures
            final(self).handles() == old(self).handles(),
            final(self).owner() == old(self).owner(),
            final(self).config_spec() == old(self).config_spec(),
            !old(self).table().contains_key(parent_ino) ==> (r matches Err(FuseError::NotFound(m))
                && m@ == numbered("Parent inode ", parent_ino, " not found")) && final(self).table() == old(self).table()
                && final(self).next_spec() == old(self).next_spec(),
            old(self).table().contains_key(parent_ino) && old(self).table()[parent_ino].children.contains_key(name@)
                ==> (r matches Err(FuseError::AlreadyExists(m)) && m@ == name@) && final(self).table()
                == old(self).table() && final(self).next_spec() == old(self).next_spec(),
            old(self).table().contains_key(parent_ino) && !old(self).table()[parent_ino].children.contains_key(name@)
                ==> r == Ok::<u64, FuseError>(old(self).next_spec())
                && final(self).next_spec() == old(self).next_spec().wrapping_add(1)
                && final(self).table() == old(self).table().insert(parent_ino, InodeView {
                    children: old(self).table()[parent_ino].children.insert(name@, old(self).next_spec()),
                    ..old(self).table()[parent_ino]
                }).insert(old(self).next_spec(), directory_view(name@, parent_ino, old(self).next_spec(),
                    old(self).owner().0, old(self).owner().1)),
    {
        self.add_child(parent_ino, name, true)
    }

    /// Creates the empty file `name` under `parent_ino`.
    pub fn create_internal(&mut self, parent_ino: u64, name: &str) -> (r: FuseResult<u64>)
        ensures
            final(self).handles() == old(self).handles(),
            final(self).owner() == old(self).owner(),
            final(self).config_spec() == old(self).config_spec(),
            !old(self).table().contains_key(parent_ino) ==> (r matches Err(FuseError::NotFound(m))
                && m@ == numbered("Parent inode ", parent_ino, " not found")) && final(self).table() == old(self).table()
                && final(self).next_spec() == old(self).next_spec(),
            old(self).table().contains_key(parent_ino) && old(self).table()[parent_ino].children.contains_key(name@)
                ==> (r matches Err(FuseError::AlreadyExists(m)) && m@ == name@) && final(self).table()
                == old(self).table() && final(self).next_spec() == old(self).next_spec(),
            old(self).table().contains_key(parent_ino) && !old(self).table()[parent_ino].children.contains_key(name@)
                ==> r == Ok::<u64, FuseError>(old(self).next_spec())
                && final(self).next_spec() == old(self).next_spec().wrapping_add(1)
                && final(self).table() == old(self).table().insert(parent_ino, InodeView {
                    children: old(self).table()[parent_ino].children.insert(name@, old(self).next_spec()),
                    ..old(self).table()[parent_ino]
                }).insert(old(self).next_spec(), file_view(name@, parent_ino, old(self).next_spec(), 0,
                    old(self).owner().0, old(self).owner().1)),
    {
        self.add_child(parent_ino, name, false)
    }

    fn add_child(&mut self, parent_ino: u64, name: &str, directory: bool) -> (r: FuseResult<u64>)
        ensures
            final(self).handles() == old(self).handles(),
            final(self).owner() == old(self).owner(),
            final(self).config_spec() == old(self).config_spec(),
            !old(self).table().contains_key(parent_ino) ==> (r matches Err(FuseError::NotFound(m))
                && m@ == numbered("Parent inode ", parent_ino, " not found")) && final(self).table() == old(self).table()
                && final(self).next_spec() == old(self).next_spec(),
            old(self).table().contains_key(parent_ino) && old(self).table()[parent_ino].children.contains_key(name@)
                ==> (r matches Err(FuseError::AlreadyExists(m)) && m@ == name@) && final(self).table()
                == old(self).table() && final(self).next_spec() == old(self).next_spec(),
            old(self).table().contains_key(parent_ino) && !old(self).table()[parent_ino].children.contains_key(name@)
                ==> r == Ok::<u64, FuseError>(old(self).next_spec())
                && final(self).next_spec() == old(self).next_spec().wrapping_add(1)
                && final(self).table() == old(self).table().insert(parent_ino, InodeView {
                    children: old(self).table()[parent_ino].children.insert(name@, old(self).next_spec()),
                    ..old(self).table()[parent_ino]
                }).insert(old(self).next_spec(), if directory {
                    directory_view(name@, parent_ino, old(self).next_spec(), old(self).owner().0, old(self).owner().1)
                } else {
                    file_view(name@, parent_ino, old(self).next_spec(), 0, old(self).owner().0, old(self).owner().1)
                }),
    {
        proof {
            self.lemma_table();
        }
        let mut parent = match self.inodes.remove(&parent_ino) {
            Some(p) => p,
            None => {
                return Err(FuseError::NotFound(numbered_text("Parent inode ", parent_ino, " not found")));
            },
        };
        if parent.children.contains_key(name) {
            self.inodes.insert(parent_ino, parent);
            proof {
                self.lemma_table();
                assert(self.table() =~= old(self).table());
            }
            return Err(FuseError::AlreadyExists(String::from_str(name)));
        }
        let new_ino = self.next_ino;
        self.next_ino = self.next_ino.wrapping_add(1);
        let child = if directory {
            Inode::new(String::from_str(name), parent_ino, new_ino, self.uid, self.gid)
        } else {
            Inode::file(String::from_str(name), parent_ino, new_ino, 0, self.uid, self.gid)
        };
        let ghost child_view = child@;
        assert(child_view == if directory {
            directory_view(name@, parent_ino, old(self).next_spec(), old(self).owner().0, old(self).owner().1)
        } else {
            file_view(name@, parent_ino, old(self).next_spec(), 0, old(self).owner().0, old(self).owner().1)
        });
        parent.children.insert(String::from_str(name), new_ino);
        let ghost parent_view = parent@;
        assert(parent_view == InodeView {
            children: old(self).table()[parent_ino].children.insert(name@, old(self).next_spec()),
            ..old(self).table()[parent_ino]
        });
        self.inodes.insert(parent_ino, parent);
        self.inodes.insert(new_ino, child);
        proof {
            self.lemma_table();
            old(self).lemma_table();
            let expected = old(self).table().insert(parent_ino, InodeView {
                children: old(self).table()[parent_ino].children.insert(name@, old(self).next_spec()),
                ..old(self).table()[parent_ino]
            }).insert(old(self).next_spec(), if directory {
                directory_view(name@, parent_ino, old(self).next_spec(), old(self).owner().0, old(self).owner().1)
            } else {
                file_view(name@, parent_ino, old(self).next_spec(), 0, old(self).owner().0, old(self).owner().1)
            });
            assert forall|k: u64| #[trigger] expected.contains_key(k) implies self.table().contains_key(k)
                && self.table()[k] == expected[k] by {
                if k != new_ino && k != parent_ino {
                    assert(old(self).inodes@.contains_key(k));
                    assert(self.inodes@[k] == old(self).inodes@[k]);
                }
            }
            assert(self.table() =~= expected);
        }
        Ok(new_ino)
    }

    /// Deletes file `name` under `parent_ino`: the name leaves the parent
    /// and its inode leaves the table.
    pub fn unlink_internal(&mut self, parent_ino: u64, name: &str) -> (r: FuseResult<()>)
        ensures
            final(self).handles() == old(self).handles(),
            final(self).owner() == old(self).owner(),
            final(self).config_spec() == old(self).config_spec(),
            final(self).next_spec() == old(self).next_spec(),
            !old(self).table().contains_key(parent_ino) ==> (r matches Err(FuseError::NotFound(m))
                && m@ == numbered("Parent inode ", parent_ino, " not found")) && final(self).table() == old(self).table(),
            old(self).table().contains_key(parent_ino) && !old(self).table()[parent_ino].children.contains_key(name@)
                ==> (r matches Err(FuseError::NotFound(m)) && m@ == named("File ", name@, " not found"))
                && final(self).table() == old(self).table(),
            old(self).table().contains_key(parent_ino) && old(self).table()[parent_ino].children.contains_key(name@)
                ==> r is Ok && final(self).table() == old(self).table().insert(parent_ino, InodeView {
                    children: old(self).table()[parent_ino].children.remove(name@),
                    ..old(self).table()[parent_ino]
                }).remove(old(self).table()[parent_ino].children[name@]),
    {
        proof {
            self.lemma_table();
        }
        let mut parent = match self.inodes.remove(&parent_ino) {
            Some(p) => p,
            None => {
                return Err(FuseError::NotFound(numbered_text("Parent inode ", parent_ino, " not found")));
            },
        };
        let child = parent.children.remove(name);
        self.inodes.insert(parent_ino, parent);
        match child {
            Some(child_ino) => {
                self.inodes.remove(&child_ino);
                proof {
                    self.lemma_table();
                    old(self).lemma_table();
                    assert(self.table() =~= old(self).table().insert(parent_ino, InodeView {
                        children: old(self).table()[parent_ino].children.remove(name@),
                        ..old(self).table()[parent_ino]
                    }).remove(old(self).table()[parent_ino].children[name@]));
                }
                Ok(())
            },
            None => {
                proof {
                    self.lemma_table();
                    old(self).lemma_table();
                    assert(old(self).table()[parent_ino].children.remove(name@) =~= old(self).table()[parent_ino].children);
                    assert(self.table() =~= old(self).table());
                }
                Err(FuseError::NotFound(named_text("File ", name, " not found")))
            },
        }
    }

    /// Removes directory `name` under `parent_ino`. The name leaves the
    /// parent first; the directory's inode leaves the table only where it
    /// exists and has no children.
    pub fn rmdir_internal(&mut self, parent_ino: u64, name: &str) -> (r: FuseResult<()>)
        ensures
            final(self).handles() == old(self).handles(),
            final(self).owner() == old(self).owner(),
            final(self).config_spec() == old(self).config_spec(),
            final(self).next_spec() == old(self).next_spec(),
            !old(self).table().contains_key(parent_ino) ==> (r matches Err(FuseError::NotFound(m))
                && m@ == numbered("Parent inode ", parent_ino, " not found")) && final(self).table() == old(self).table(),
            old(self).table().contains_key(parent_ino) && !old(self).table()[parent_ino].children.contains_key(name@)
                ==> (r matches Err(FuseError::NotFound(m)) && m@ == named("Directory ", name@, " not found"))
                && final(self).table() == old(self).table(),
            old(self).table().contains_key(parent_ino) && old(self).table()[parent_ino].children.contains_key(name@)
                ==> {
                let child = old(self).table()[parent_ino].children[name@];
                let detached = old(self).table().insert(parent_ino, InodeView {
                    children: old(self).table()[parent_ino].children.remove(name@),
                    ..old(self).table()[parent_ino]
                });
                &&& (!detached.contains_key(child) ==> (r matches Err(FuseError::NotFound(m))
                    && m@ == named("Directory ", name@, " not found")) && final(self).table() == detached)
                &&& (detached.contains_key(child) && detached[child].children.len() > 0 ==> (r matches Err(
                    FuseError::DirectoryNotEmpty(m)) && m@ == name@) && final(self).table() == detached)
                &&& (detached.contains_key(child) && detached[child].children.len() == 0 ==> r is Ok
                    && final(self).table() == detached.remove(child))
            },
    {
        proof {
            self.lemma_table();
        }
        let mut parent = match self.inodes.remove(&parent_ino) {
            Some(p) => p,
            None => {
                return Err(FuseError::NotFound(numbered_text("Parent inode ", parent_ino, " not found")));
            },
        };
        let child = parent.children.remove(name);
        self.inodes.insert(parent_ino, parent);
        proof {
            self.lemma_table();
            old(self).lemma_table();
        }
        let child_ino = match child {
            Some(c) => c,
            None => {
                proof {
                    assert(old(self).table()[parent_ino].children.remove(name@) =~= old(self).table()[parent_ino].children);
                    assert(self.table() =~= old(self).table());
                }
                return Err(FuseError::NotFound(named_text("Directory ", name, " not found")));
            },
        };
        let ghost detached = old(self).table().insert(parent_ino, InodeView {
            children: old(self).table()[parent_ino].children.remove(name@),
            ..old(self).table()[parent_ino]
        });
        proof {
            assert(self.table() =~= detached);
        }
        let empty = match self.inodes.get(&child_ino) {
            Some(c) => c.children.is_empty(),
            None => {
                return Err(FuseError::NotFound(named_text("Directory ", name, " not found")));
            },
        };
        if !empty {
            return Err(FuseError::DirectoryNotEmpty(String::from_str(name)));
        }
        self.inodes.remove(&child_ino);
        proof {
            self.lemma_table();
            assert(self.table() =~= detached.remove(child_ino));
        }
        Ok(())
    }
}

} // verus!

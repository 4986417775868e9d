//! The virtual filesystem: a root directory with one file, the device.

use crate::block::device::BlockDevice;
use crate::iscsi::text::str_eq;
use vstd::prelude::*;

verus! {

/// The inode of the root directory.
pub const ROOT_INODE: u64 = 1;

/// The inode of the device file.
pub const DEVICE_INODE: u64 = 2;

/// How long the kernel may keep attributes and entries, in seconds.
pub const TTL_SECS: u64 = 1;

/// Errors as the kernel knows them.
#[derive(Debug, Clone, Copy, PartialEq, Eq, Structural)]
pub enum Errno {
    ENOENT,
    EROFS,
}

#[derive(Debug, Clone, Copy, PartialEq, Eq, Structural)]
pub enum FileType {
    Directory,
    RegularFile,
}

/// The attributes of a file, but for its times, which are those of the moment.
#[derive(Debug, Clone, Copy, PartialEq, Eq, Structural)]
pub struct FileAttr {
    pub ino: u64,
    pub size: u64,
    /// The size in units of 512 bytes.
    pub blocks: u64,
    pub kind: FileType,
    pub perm: u16,
    pub nlink: u32,
    pub uid: u32,
    pub gid: u32,
    pub rdev: u32,
    pub blksize: u32,
    pub flags: u32,
}

/// An opened file.
#[derive(Debug, Clone, Copy, PartialEq, Eq, Structural)]
pub struct Opened {
    pub fh: u64,
    /// Bypass the kernel page cache.
    pub direct_io: bool,
}

/// An entry of the root directory. A listing goes on after it at `cookie`.
#[derive(Debug, Clone)]
pub struct DirEntry {
    pub ino: u64,
    pub cookie: u64,
    pub kind: FileType,
    pub name: String,
}

/// The statistics of the filesystem.
#[derive(Debug, Clone, Copy, PartialEq, Eq, Structural)]
pub struct Statfs {
    pub blocks: u64,
    pub bfree: u64,
    pub bavail: u64,
    pub files: u64,
    pub ffree: u64,
    pub bsize: u32,
    pub namelen: u32,
    pub frsize: u32,
}

/// An option that the filesystem is mounted with.
#[derive(Debug, Clone)]
pub enum MountOption {
    FSName(String),
    Subtype(String),
    CUSTOM(String),
    DefaultPermissions,
    NoDev,
    NoSuid,
    RO,
    RW,
}

impl MountOption {
    /// The option, by the text that it holds.
    pub open spec fn says(self, other: MountOptionView) -> bool {
        match (self, other) {
            (MountOption::FSName(s), MountOptionView::FSName(t)) => s@ == t,
            (MountOption::Subtype(s), MountOptionView::Subtype(t)) => s@ == t,
            (MountOption::CUSTOM(s), MountOptionView::CUSTOM(t)) => s@ == t,
            (MountOption::DefaultPermissions, MountOptionView::DefaultPermissions) => true,
            (MountOption::NoDev, MountOptionView::NoDev) => true,
            (MountOption::NoSuid, MountOptionView::NoSuid) => true,
            (MountOption::RO, MountOptionView::RO) => true,
            (MountOption::RW, MountOptionView::RW) => true,
            _ => false,
        }
    }
}

/// A mount option as a value of specifications.
pub enum MountOptionView {
    FSName(Seq<char>),
    Subtype(Seq<char>),
    CUSTOM(Seq<char>),
    DefaultPermissions,
    NoDev,
    NoSuid,
    RO,
    RW,
}

/// The options that a volume is mounted with.
pub open spec fn mount_options_of(read_only: bool, volume_name: Seq<char>) -> Seq<MountOptionView> {
    seq![
        MountOptionView::FSName("iscsi-fuse"@),
        MountOptionView::Subtype("iscsi"@),
        MountOptionView::DefaultPermissions,
        MountOptionView::NoDev,
        MountOptionView::NoSuid,
        MountOptionView::CUSTOM("volname="@ + volume_name),
        MountOptionView::CUSTOM("local"@),
        if read_only {
            MountOptionView::RO
        } else {
            MountOptionView::RW
        },
    ]
}

/// How the filesystem is mounted.
pub struct Config {
    pub mount_options: Vec<MountOption>,
    pub n_threads: Option<usize>,
}

/// An entry of the root directory by its place: `.`, `..` and the device.
pub open spec fn is_entry(e: DirEntry, i: int, device_filename: Seq<char>) -> bool {
    &&& e.cookie == i + 1
    &&& if i == 0 {
        e.ino == ROOT_INODE && e.kind == FileType::Directory && e.name@ == "."@
    } else if i == 1 {
        e.ino == ROOT_INODE && e.kind == FileType::Directory && e.name@ == ".."@
    } else {
        e.ino == DEVICE_INODE && e.kind == FileType::RegularFile && e.name@ == device_filename
    }
}

pub struct IscsiFuseFs {
    pub block_device: BlockDevice,
    pub device_filename: String,
    pub read_only: bool,
    pub uid: u32,
    pub gid: u32,
}

impl IscsiFuseFs {
    pub fn new(
        block_device: BlockDevice,
        device_filename: String,
        read_only: bool,
        uid: u32,
        gid: u32,
    ) -> (r: Self)
        ensures
            r == (IscsiFuseFs { block_device, device_filename, read_only, uid, gid }),
    {
        Self { block_device, device_filename, read_only, uid, gid }
    }

    /// How the volume is mounted, with this many threads to serve it.
    pub fn fuse_config(read_only: bool, volume_name: &str, n_threads: usize) -> (r: Config)
        ensures
            ({
                let options = mount_options_of(read_only, volume_name@);
                &&& r.mount_options.len() == options.len()
                &&& forall|i: int|
                    0 <= i < options.len() ==> (#[trigger] r.mount_options[i]).says(options[i])
            }),
            r.n_threads == Some(n_threads),
    {
        let mut volname: String = "volname=".to_owned();
        volname.append(volume_name);
        let mut mount_options: Vec<MountOption> = Vec::new();
        mount_options.push(MountOption::FSName("iscsi-fuse".to_owned()));
        mount_options.push(MountOption::Subtype("iscsi".to_owned()));
        mount_options.push(MountOption::DefaultPermissions);
        mount_options.push(MountOption::NoDev);
        mount_options.push(MountOption::NoSuid);
        // macFUSE: set volume name for Finder sidebar
        mount_options.push(MountOption::CUSTOM(volname));
        // macFUSE: report as local volume so Finder shows disk icon
        mount_options.push(MountOption::CUSTOM("local".to_owned()));
        if read_only {
            mount_options.push(MountOption::RO);
        } else {
            mount_options.push(MountOption::RW);
        }
        Config { mount_options, n_threads: Some(n_threads) }
    }

    /// The attributes of the root directory.
    pub open spec fn root(self) -> FileAttr {
        FileAttr {
            ino: ROOT_INODE,
            size: 0,
            blocks: 0,
            kind: FileType::Directory,
            perm: 0o755,
            nlink: 2,
            uid: self.uid,
            gid: self.gid,
            rdev: 0,
            blksize: 512,
            flags: 0,
        }
    }

    pub fn root_attr(&self) -> (r: FileAttr)
        ensures
            r == self.root(),
    {
        FileAttr {
            ino: ROOT_INODE,
            size: 0,
            blocks: 0,
            kind: FileType::Directory,
            perm: 0o755,
            nlink: 2,
            uid: self.uid,
            gid: self.gid,
            rdev: 0,
            blksize: 512,
            flags: 0,
        }
    }

    /// The attributes of the device file.
    pub open spec fn device(self) -> FileAttr {
        FileAttr {
            ino: DEVICE_INODE,
            size: self.block_device.total_bytes,
            blocks: self.block_device.total_bytes / 512,
            kind: FileType::RegularFile,
            perm: if self.read_only {
                0o444
            } else {
                0o644
            },
            nlink: 1,
            uid: self.uid,
            gid: self.gid,
            rdev: 0,
            blksize: self.block_device.block_size,
            flags: 0,
        }
    }

    pub fn device_attr(&self) -> (r: FileAttr)
        ensures
            r == self.device(),
    {
        FileAttr {
            ino: DEVICE_INODE,
            size: self.block_device.total_bytes(),
            blocks: self.block_device.total_bytes() / 512,
            kind: FileType::RegularFile,
            perm: if self.read_only {
                0o444
            } else {
                0o644
            },
            nlink: 1,
            uid: self.uid,
            gid: self.gid,
            rdev: 0,
            blksize: self.block_device.block_size(),
            flags: 0,
        }
    }

    /// Look up a name in a directory; `None` is a name that is no text.
    pub fn lookup(&self, parent: u64, name: Option<&str>) -> (r: Result<FileAttr, Errno>)
        ensures
            r == (if parent == ROOT_INODE && name is Some && name->0@ == self.device_filename@ {
                Ok::<_, Errno>(self.device())
            } else {
                Err(Errno::ENOENT)
            }),
            r matches Ok(attr) ==> self.attr_of(attr.ino) == Ok::<_, Errno>(attr) && attr.kind
                == FileType::RegularFile,
    {
        match name {
            Some(name) => {
                if parent == ROOT_INODE && str_eq(name, self.device_filename.as_str()) {
                    Ok(self.device_attr())
                } else {
                    Err(Errno::ENOENT)
                }
            },
            None => Err(Errno::ENOENT),
        }
    }

    /// The attributes of a file by its inode.
    pub open spec fn attr_of(self, ino: u64) -> Result<FileAttr, Errno> {
        if ino == ROOT_INODE {
            Ok(self.root())
        } else if ino == DEVICE_INODE {
            Ok(self.device())
        } else {
            Err(Errno::ENOENT)
        }
    }

    pub fn getattr(&self, ino: u64) -> (r: Result<FileAttr, Errno>)
        ensures
            r == self.attr_of(ino),
    {
        if ino == ROOT_INODE {
            Ok(self.root_attr())
        } else if ino == DEVICE_INODE {
            Ok(self.device_attr())
        } else {
            Err(Errno::ENOENT)
        }
    }

    /// No attribute can be set: the answer is what they are.
    pub fn setattr(&self, ino: u64) -> (r: Result<FileAttr, Errno>)
        ensures
            r == self.attr_of(ino),
    {
        self.getattr(ino)
    }

    /// Only the device file can be opened.
    pub fn open(&self, ino: u64) -> (r: Result<Opened, Errno>)
        ensures
            r == (if ino == DEVICE_INODE {
                Ok::<_, Errno>((Opened { fh: 0, direct_io: true }))
            } else {
                Err(Errno::ENOENT)
            }),
    {
        if ino != DEVICE_INODE {
            return Err(Errno::ENOENT);
        }
        // Direct I/O prevents cache incoherence between the buffered and the
        // raw path to the device. The userspace cache replaces the kernel's.
        Ok(Opened { fh: 0, direct_io: true })
    }

    /// Whether a read may go on to the block device.
    pub fn read(&self, ino: u64) -> (r: Result<(), Errno>)
        ensures
            r == (if ino == DEVICE_INODE {
                Ok::<_, Errno>(())
            } else {
                Err(Errno::ENOENT)
            }),
            r is Ok <==> (self.attr_of(ino) matches Ok(attr) && attr.kind == FileType::RegularFile),
    {
        if ino != DEVICE_INODE {
            return Err(Errno::ENOENT);
        }
        Ok(())
    }

    /// Whether a write may go on to the block device.
    pub fn write(&self, ino: u64) -> (r: Result<(), Errno>)
        ensures
            r == (if ino != DEVICE_INODE {
                Err(Errno::ENOENT)
            } else if self.read_only {
                Err(Errno::EROFS)
            } else {
                Ok::<_, Errno>(())
            }),
            r is Ok <==> (self.attr_of(ino) matches Ok(attr) && attr.kind == FileType::RegularFile
                && (attr.perm / 0o200) % 2 == 1),
    {
        if ino != DEVICE_INODE {
            return Err(Errno::ENOENT);
        }
        if self.read_only {
            return Err(Errno::EROFS);
        }
        Ok(())
    }

    /// List a directory from `offset` on.
    pub fn readdir(&self, ino: u64, offset: u64) -> (r: Result<Vec<DirEntry>, Errno>)
        ensures
            match r {
                Ok(entries) => {
                    &&& ino == ROOT_INODE
                    &&& entries.len() == (if offset < 3 {
                        3 - offset
                    } else {
                        0
                    })
                    &&& forall|i: int|
                        0 <= i < entries.len() ==> is_entry(
                            #[trigger] entries[i],
                            offset + i,
                            self.device_filename@,
                        )
                },
                Err(e) => ino != ROOT_INODE && e == Errno::ENOENT,
            },
    {
        if ino != ROOT_INODE {
            return Err(Errno::ENOENT);
        }
        let mut entries: Vec<DirEntry> = Vec::new();
        if offset <= 0 {
            entries.push(
                DirEntry {
                    ino: ROOT_INODE,
                    cookie: 1,
                    kind: FileType::Directory,
                    name: ".".to_owned(),
                },
            );
        }
        if offset <= 1 {
            entries.push(
                DirEntry {
                    ino: ROOT_INODE,
                    cookie: 2,
                    kind: FileType::Directory,
                    name: "..".to_owned(),
                },
            );
        }
        if offset <= 2 {
            entries.push(
                DirEntry {
                    ino: DEVICE_INODE,
                    cookie: 3,
                    kind: FileType::RegularFile,
                    name: self.device_filename.clone(),
                },
            );
        }
        Ok(entries)
    }

    /// The statistics of the filesystem. When read-write, all space is reported
    /// as free, so that Finder shows usable capacity.
    pub fn statfs(&self) -> (r: Statfs)
        requires
            self.block_device.block_size > 0,
        ensures
            ({
                let bs = self.block_device.block_size;
                let blocks = self.block_device.total_bytes / bs as u64;
                let free = if self.read_only {
                    0
                } else {
                    blocks
                };
                r == (Statfs {
                    blocks,
                    bfree: free,
                    bavail: free,
                    files: 1,
                    ffree: 0,
                    bsize: bs,
                    namelen: 255,
                    frsize: bs,
                })
            }),
            r.blocks * r.frsize <= self.block_device.total_bytes < r.blocks * r.frsize + r.frsize,
            r.bavail == r.bfree <= r.blocks,
            self.read_only ==> r.bfree == 0,
            !self.read_only ==> r.bfree == r.blocks,
    {
        proof {
            vstd::arithmetic::div_mod::lemma_fundamental_div_mod(
                self.block_device.total_bytes as int,
                self.block_device.block_size as int,
            );
            let q = self.block_device.total_bytes as int / self.block_device.block_size as int;
            assert(self.block_device.block_size * q == q * self.block_device.block_size)
                by (nonlinear_arith);
        }
        let bs: u32 = self.block_device.block_size();
        let blocks: u64 = self.block_device.total_bytes() / bs as u64;
        let free: u64 = if self.read_only {
            0
        } else {
            blocks
        };
        Statfs {
            blocks,
            bfree: free,
            bavail: free,
            files: 1,
            ffree: 0,
            bsize: bs,
            namelen: 255,
            frsize: bs,
        }
    }

    /// Whether a flush has to go on to the block device.
    pub fn flush(&self, ino: u64) -> (r: bool)
        ensures
            r == (ino == DEVICE_INODE && !self.read_only),
    {
        ino == DEVICE_INODE && !self.read_only
    }

    /// Whether an fsync has to go on to the block device, as a flush.
    pub fn fsync(&self, ino: u64) -> (r: bool)
        ensures
            r == (ino == DEVICE_INODE && !self.read_only),
    {
        self.flush(ino)
    }
}

/// What a listing says of a file is what the file's attributes say.
pub proof fn listing_agrees_with_attributes(fs: IscsiFuseFs, e: DirEntry, i: int)
    requires
        0 <= i < 3,
        is_entry(e, i, fs.device_filename@),
    ensures
        fs.attr_of(e.ino) matches Ok(attr) && attr.ino == e.ino && attr.kind == e.kind,
{
}

/// The filesystem is a root directory and one file in it: these two inodes have
/// attributes, each its own, and no other has any.
pub proof fn two_inodes_exist(fs: IscsiFuseFs, ino: u64)
    ensures
        ROOT_INODE == 1,
        DEVICE_INODE != ROOT_INODE,
        fs.attr_of(ino) is Ok <==> ino == ROOT_INODE || ino == DEVICE_INODE,
        fs.attr_of(ino) matches Ok(attr) ==> attr.ino == ino && attr.uid == fs.uid && attr.gid
            == fs.gid && (attr.kind == FileType::Directory <==> ino == ROOT_INODE),
        fs.attr_of(ino) matches Err(e) ==> e == Errno::ENOENT,
{
}

/// The file is as long as the device, in as many units of 512 bytes as that
/// fills, and can be written just where the filesystem is not read-only; nobody
/// but its owner may ever write it, and nobody may execute it.
pub proof fn file_is_the_device(fs: IscsiFuseFs)
    ensures
        ({
            let attr = fs.device();
            let total = fs.block_device.total_bytes;
            &&& attr.size == total
            &&& attr.blocks * 512 <= total < attr.blocks * 512 + 512
            &&& attr.blksize == fs.block_device.block_size
            &&& attr.kind == FileType::RegularFile
            &&& attr.nlink == 1
            &&& (attr.perm / 0o200) % 2 == 1 <==> !fs.read_only
            &&& (attr.perm / 0o20) % 2 == 0 && (attr.perm / 0o2) % 2 == 0
            &&& (attr.perm / 0o400) % 2 == 1 && (attr.perm / 0o40) % 2 == 1 && (attr.perm / 0o4) % 2
                == 1
            &&& (attr.perm / 0o100) % 2 == 0 && (attr.perm / 0o10) % 2 == 0 && attr.perm % 2 == 0
        }),
{
}

/// A directory can be entered and listed by everyone.
pub proof fn root_is_an_open_directory(fs: IscsiFuseFs)
    ensures
        ({
            let attr = fs.root();
            &&& attr.kind == FileType::Directory
            &&& attr.size == 0 && attr.blocks == 0
            &&& attr.nlink == 2
            &&& attr.perm / 0o100 == 7
            &&& (attr.perm / 0o10) % 8 == 5
            &&& attr.perm % 8 == 5
        }),
{
}

/// A listing can be broken off and taken up again: the cookie of an entry is
/// the offset of the next one, the entries have different names and places, and
/// the third is the device.
pub proof fn listing_goes_on_at_its_cookie(
    fs: IscsiFuseFs,
    a: DirEntry,
    i: int,
    b: DirEntry,
    j: int,
)
    requires
        0 <= i < 3,
        0 <= j < 3,
        is_entry(a, i, fs.device_filename@),
        is_entry(b, j, fs.device_filename@),
    ensures
        a.cookie == b.cookie <==> i == j,
        i < j <==> a.cookie <= j,
        i == 2 <==> a.ino == DEVICE_INODE,
        i == 2 ==> a.name@ == fs.device_filename@ && a.kind == FileType::RegularFile,
        i == j ==> a.name@ == b.name@ && a.ino == b.ino && a.kind == b.kind,
{
}

/// A volume is mounted read-only just where it is asked to be, never both ways,
/// and carries its name.
pub proof fn mount_options_say_what_was_asked(read_only: bool, volume_name: Seq<char>)
    ensures
        ({
            let options = mount_options_of(read_only, volume_name);
            &&& options.contains(MountOptionView::RO) <==> read_only
            &&& options.contains(MountOptionView::RW) <==> !read_only
            &&& options.contains(MountOptionView::NoDev)
            &&& options.contains(MountOptionView::NoSuid)
            &&& options.contains(MountOptionView::DefaultPermissions)
            &&& options.contains(MountOptionView::CUSTOM("volname="@ + volume_name))
            &&& options.contains(MountOptionView::CUSTOM("local"@))
            &&& options.contains(MountOptionView::FSName("iscsi-fuse"@))
            &&& options.contains(MountOptionView::Subtype("iscsi"@))
        }),
{
    let options = mount_options_of(read_only, volume_name);
    assert(options[0] == MountOptionView::FSName("iscsi-fuse"@));
    assert(options[1] == MountOptionView::Subtype("iscsi"@));
    assert(options[2] == MountOptionView::DefaultPermissions);
    assert(options[3] == MountOptionView::NoDev);
    assert(options[4] == MountOptionView::NoSuid);
    assert(options[5] == MountOptionView::CUSTOM("volname="@ + volume_name));
    assert(options[6] == MountOptionView::CUSTOM("local"@));
    assert(options[7] == (if read_only {
        MountOptionView::RO
    } else {
        MountOptionView::RW
    }));
}

} // verus!

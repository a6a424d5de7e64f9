use vstd::prelude::*;

verus! {

/// A point in time: whole seconds since the Unix epoch (floored) and the
/// nanoseconds past that second.
#[derive(Clone, Copy, Debug, PartialEq, Eq, Structural)]
pub struct Timestamp {
    pub secs: i64,
    pub nanos: u32,
}

impl Timestamp {
    /// The Unix epoch, used for a directory with nothing inside it.
    pub fn epoch() -> (r: Timestamp)
        ensures
            r == epoch_spec(),
    {
        Timestamp { secs: 0, nanos: 0 }
    }

    /// Strictly earlier than `other`.
    pub fn is_before(&self, other: &Timestamp) -> (r: bool)
        ensures
            r == ts_lt(*self, *other),
    {
        self.secs < other.secs || (self.secs == other.secs && self.nanos < other.nanos)
    }
}

pub open spec fn epoch_spec() -> Timestamp {
    Timestamp { secs: 0, nanos: 0 }
}

pub open spec fn ts_lt(a: Timestamp, b: Timestamp) -> bool {
    a.secs < b.secs || (a.secs == b.secs && a.nanos < b.nanos)
}

pub open spec fn ts_le(a: Timestamp, b: Timestamp) -> bool {
    !ts_lt(b, a)
}

/// Unit base of the human readable sizes.
#[derive(Clone, Copy, Debug, PartialEq, Eq, Structural)]
pub enum ByteType {
    Binary,
    Decimal,
}

/// Kind of a node. Everything reached through a symbolic link is a `Symlink`.
#[derive(Clone, Copy, Debug, PartialEq, Eq, Structural)]
pub enum ItemType {
    File,
    Dir,
    Symlink,
}

/// One entry of the result tree.
#[derive(Debug)]
pub struct FileInfo {
    pub path: String,
    pub depth: u8,
    pub file_type: ItemType,
    pub size: u64,
    pub modified: Timestamp,
    pub children: Option<Vec<FileInfo>>,
    pub accessible: bool,
}

/// Options of one run.
#[derive(Debug)]
pub struct Cli {
    pub max_depth: Option<u8>,
    pub ascending: bool,
    pub humanize: bool,
    pub si: bool,
    pub time: bool,
    pub skip_symlinks: bool,
    pub file: String,
}

/// What a metadata lookup of the path itself (not following a link) says.
#[derive(Clone, Copy, Debug, PartialEq, Eq, Structural)]
pub struct LinkStat {
    pub is_file: bool,
    pub is_dir: bool,
    pub is_symlink: bool,
}

/// What the filesystem said about one path.
#[derive(Debug)]
pub struct Meta {
    /// The walk's own lookup (following links unless they are skipped).
    pub is_file: bool,
    pub is_dir: bool,
    pub len: u64,
    /// `None` where the platform gives no modification time.
    pub modified: Option<Timestamp>,
    pub link: LinkStat,
    /// The entries of a directory; `None` where its listing could not be read.
    pub listing: Option<Vec<Probe>>,
}

/// A path together with what its lookup gave; `meta` is `None` where the
/// lookup failed.
#[derive(Debug)]
pub struct Probe {
    pub path: String,
    pub meta: Option<Meta>,
}

/// A condition that ends the whole walk.
#[derive(Clone, Copy, Debug, PartialEq, Eq, Structural)]
pub enum WalkError {
    /// A file has no modification time.
    ModifiedUnavailable,
    /// An entry is neither file, directory nor symbolic link.
    UnknownKind,
    /// The tree is deeper than a depth counter can hold.
    TooDeep,
    /// A directory's total size does not fit in 64 bits.
    SizeOverflow,
}

/// Sum of the sizes in `s`.
pub open spec fn sum_sizes(s: Seq<FileInfo>) -> int
    decreases s.len(),
{
    if s.len() == 0 {
        0
    } else {
        sum_sizes(s.drop_last()) + s.last().size
    }
}

/// `t` is the latest of the epoch and the modification times in `s`.
pub open spec fn is_latest(t: Timestamp, s: Seq<FileInfo>) -> bool {
    &&& ts_le(epoch_spec(), t)
    &&& forall|i: int| 0 <= i < s.len() ==> ts_le(#[trigger] s[i].modified, t)
    &&& (t == epoch_spec() || exists|i: int| 0 <= i < s.len() && #[trigger] s[i].modified == t)
}

} // verus!

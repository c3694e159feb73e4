//! The layout of the files of the file system in memory on its disk: every
//! file has one run of blocks.

use vstd::prelude::*;
use super::mount::{Filesystem, InodeId, NodeKind};
use super::Error;

verus! {

/// The priority with which the file system reads and writes.
pub const PRIO: u8 = 0;

/// The run of blocks of one file: the number of the file, the block at
/// which the run starts, and its length.
#[derive(Debug, Clone, Copy, PartialEq, Eq, Structural)]
pub struct Extent {
    pub id: usize,
    pub ofs: usize,
    pub len: usize,
}

/// The runs `x1..y1` and `x2..y2` have no block in common.
pub open spec fn apart(x1: int, y1: int, x2: int, y2: int) -> bool {
    y1 <= x2 || y2 <= x1
}

/// Whether the runs `x1..y1` and `x2..y2` have no block in common.
pub fn check_insert(x1: usize, y1: usize, x2: usize, y2: usize) -> (free: bool)
    ensures
        free == apart(x1 as int, y1 as int, x2 as int, y2 as int),
{
    if y1 <= x2 || y2 <= x1 {
        true
    } else {
        false
    }
}

/// The runs of the files on the disk, in the order of the numbers of the
/// files.
pub struct DiskMap {
    pub extents: Vec<Extent>,
}

impl DiskMap {
    /// The numbers of the files rise strictly, and every run ends at a
    /// block that a number can name.
    pub open spec fn wf(&self) -> bool {
        &&& forall|i: int, j: int|
            #![trigger self.extents@[i], self.extents@[j]]
            0 <= i < j < self.extents@.len() ==> self.extents@[i].id < self.extents@[j].id
        &&& forall|i: int|
            0 <= i < self.extents@.len() ==> (#[trigger] self.extents@[i]).ofs
                + self.extents@[i].len <= usize::MAX
    }

    /// The run `ofs..ofs + len` has no block in common with any run of the
    /// map.
    pub open spec fn is_free(&self, ofs: int, len: int) -> bool {
        forall|i: int|
            0 <= i < self.extents@.len() ==> apart(
                ofs,
                ofs + len,
                (#[trigger] self.extents@[i]).ofs as int,
                self.extents@[i].ofs + self.extents@[i].len,
            )
    }

    /// The map with the run of the file at the block 0 that marks the start
    /// of the disk: the file 65535 with no block.
    pub fn new() -> (map: DiskMap)
        ensures
            map.wf(),
            map.extents@ == seq![Extent { id: 65535, ofs: 0, len: 0 }],
    {
        let mut extents: Vec<Extent> = Vec::new();
        extents.push(Extent { id: 65535, ofs: 0, len: 0 });
        DiskMap { extents }
    }

    /// The run of the file with the number `id`, if it has one.
    pub fn get(&self, id: usize) -> (extent: Option<Extent>)
        ensures
            match extent {
                Some(e) => e.id == id && exists|i: int|
                    0 <= i < self.extents@.len() && #[trigger] self.extents@[i] == e,
                None => forall|i: int|
                    0 <= i < self.extents@.len() ==> (#[trigger] self.extents@[i]).id != id,
            },
    {
        let mut i: usize = 0;
        while i < self.extents.len()
            invariant
                i <= self.extents@.len(),
                forall|k: int| 0 <= k < i ==> (#[trigger] self.extents@[k]).id != id,
            decreases self.extents@.len() - i,
        {
            if self.extents[i].id == id {
                return Some(self.extents[i]);
            }
            i += 1;
        }
        None
    }

    /// Takes the run of the file with the number `id` out of the map.
    fn remove(&mut self, id: usize)
        requires
            old(self).wf(),
        ensures
            final(self).wf(),
            forall|i: int| 0 <= i < final(self).extents@.len() ==> (#[trigger] final(self).extents@[i]).id != id,
            forall|e: Extent| e.id != id ==> final(self).extents@.contains(e) == old(self).extents@.contains(e),
            forall|i: int|
                0 <= i < final(self).extents@.len() ==> old(self).extents@.contains(
                    #[trigger] final(self).extents@[i],
                ),
            final(self).extents@.len() <= old(self).extents@.len(),
    {
        let mut i: usize = 0;
        while i < self.extents.len()
            invariant
                i <= self.extents@.len(),
                *self == *old(self),
                self.wf(),
                forall|k: int| 0 <= k < i ==> (#[trigger] self.extents@[k]).id != id,
            decreases self.extents@.len() - i,
        {
            if self.extents[i].id == id {
                let ghost before = self.extents@;
                self.extents.remove(i);
                proof {
                    let after = self.extents@;
                    assert forall|k: int| 0 <= k < after.len() implies (#[trigger] after[k]).id
                        != id by {
                        if k < i {
                            assert(after[k] == before[k]);
                        } else {
                            assert(after[k] == before[k + 1]);
                            assert(before[i as int].id < before[k + 1].id);
                        }
                    }
                    assert forall|a: int, b: int|
                        #![trigger after[a], after[b]]
                        0 <= a < b < after.len() implies after[a].id < after[b].id by {
                        let a0 = if a < i {
                            a
                        } else {
                            a + 1
                        };
                        let b0 = if b < i {
                            b
                        } else {
                            b + 1
                        };
                        assert(after[a] == before[a0] && after[b] == before[b0]);
                        assert(before[a0].id < before[b0].id);
                    }
                    assert forall|k: int| 0 <= k < after.len() implies (#[trigger] after[k]).ofs
                        + after[k].len <= usize::MAX by {
                        let k0 = if k < i {
                            k
                        } else {
                            k + 1
                        };
                        assert(after[k] == before[k0]);
                    }
                    assert forall|e: Extent| e.id != id implies after.contains(e) == before.contains(
                        e,
                    ) by {
                        if before.contains(e) {
                            let k = choose|k: int| 0 <= k < before.len() && before[k] == e;
                            if k < i {
                                assert(after[k] == e);
                            } else {
                                assert(after[k - 1] == e);
                            }
                        }
                        if after.contains(e) {
                            let k = choose|k: int| 0 <= k < after.len() && after[k] == e;
                            let k0 = if k < i {
                                k
                            } else {
                                k + 1
                            };
                            assert(before[k0] == e);
                        }
                    }
                    assert forall|k: int| 0 <= k < after.len() implies before.contains(
                        #[trigger] after[k],
                    ) by {
                        let k0 = if k < i {
                            k
                        } else {
                            k + 1
                        };
                        assert(before[k0] == after[k]);
                    }
                }
                return;
            }
            i += 1;
        }
    }

    /// Puts `extent` into the map at its place in the order of the numbers.
    fn insert(&mut self, extent: Extent)
        requires
            old(self).wf(),
            extent.ofs + extent.len <= usize::MAX,
            forall|i: int| 0 <= i < old(self).extents@.len() ==> (#[trigger] old(self).extents@[i]).id != extent.id,
        ensures
            final(self).wf(),
            final(self).extents@.contains(extent),
            forall|e: Extent| final(self).extents@.contains(e) == (e == extent || old(self).extents@.contains(e)),
    {
        let mut i: usize = 0;
        while i < self.extents.len() && self.extents[i].id < extent.id
            invariant
                i <= self.extents@.len(),
                *self == *old(self),
                forall|k: int| 0 <= k < i ==> (#[trigger] self.extents@[k]).id < extent.id,
            decreases self.extents@.len() - i,
        {
            i += 1;
        }
        let ghost before = self.extents@;
        self.extents.insert(i, extent);
        proof {
            let after = self.extents@;
            assert(after[i as int] == extent);
            assert forall|a: int, b: int|
                #![trigger after[a], after[b]]
                0 <= a < b < after.len() implies after[a].id < after[b].id by {
                if a < i && b > i {
                    assert(after[a] == before[a] && after[b] == before[b - 1]);
                    if a < b - 1 {
                        assert(before[a].id < before[b - 1].id);
                    }
                } else if a < i && b < i {
                    assert(after[a] == before[a] && after[b] == before[b]);
                } else if a > i {
                    assert(after[a] == before[a - 1] && after[b] == before[b - 1]);
                    assert(before[a - 1].id < before[b - 1].id);
                } else if a == i {
                    assert(after[b] == before[b - 1]);
                    if b - 1 > i {
                        assert(before[i as int].id < before[b - 1].id);
                    }
                    assert(before[i as int].id != extent.id);
                } else {
                    assert(after[a] == before[a]);
                }
            }
            assert forall|k: int| 0 <= k < after.len() implies (#[trigger] after[k]).ofs
                + after[k].len <= usize::MAX by {
                if k < i {
                    assert(after[k] == before[k]);
                } else if k > i {
                    assert(after[k] == before[k - 1]);
                }
            }
            assert forall|e: Extent| after.contains(e) == (e == extent || before.contains(e)) by {
                if before.contains(e) {
                    let k = choose|k: int| 0 <= k < before.len() && before[k] == e;
                    if k < i {
                        assert(after[k] == e);
                    } else {
                        assert(after[k + 1] == e);
                    }
                }
                if after.contains(e) && e != extent {
                    let k = choose|k: int| 0 <= k < after.len() && after[k] == e;
                    if k < i {
                        assert(before[k] == e);
                    } else {
                        assert(before[k - 1] == e);
                    }
                }
            }
        }
    }

    /// The runs `after` are the runs `before` once the file with the
    /// number `id` was given a run of `len` blocks at `placed`, or left
    /// without one where `placed` is `None`: the runs of the other files
    /// are the same; a new run has no block in common with them and starts
    /// where one of them ends.
    pub open spec fn allocated(
        before: Seq<Extent>,
        after: Seq<Extent>,
        id: usize,
        len: usize,
        placed: Option<usize>,
    ) -> bool {
        &&& forall|e: Extent| e.id != id ==> after.contains(e) == before.contains(e)
        &&& match placed {
            Some(ofs) => {
                &&& after.contains(Extent { id, ofs, len })
                &&& forall|e: Extent| #[trigger]
                    after.contains(e) && e.id != id ==> apart(ofs as int, ofs + len, e.ofs as int, e.ofs + e.len)
                &&& exists|e: Extent| #[trigger] before.contains(e) && e.id != id && ofs == e.ofs + e.len
            },
            None => forall|e: Extent| #[trigger] after.contains(e) ==> e.id != id,
        }
    }

    /// Gives the file with the number `id` a run of `len` blocks.
    ///
    /// The run that the file had is given up. The new run starts behind the
    /// first run of the map, in the order of the numbers of the files,
    /// behind which `len` blocks are free. Where there is no such run the
    /// file is left without one. The runs of the other files stay.
    pub fn allocate(&mut self, id: usize, len: usize) -> (placed: Option<usize>)
        requires
            old(self).wf(),
        ensures
            final(self).wf(),
            Self::allocated(old(self).extents@, final(self).extents@, id, len, placed),
    {
        self.remove(id);
        let ghost cleared = self.extents@;
        let mut i: usize = 0;
        while i < self.extents.len()
            invariant
                i <= self.extents@.len(),
                self.wf(),
                self.extents@ == cleared,
                forall|k: int| 0 <= k < cleared.len() ==> (#[trigger] cleared[k]).id != id,
                forall|e: Extent|
                    e.id != id ==> cleared.contains(e) == old(self).extents@.contains(e),
                forall|k: int|
                    0 <= k < cleared.len() ==> old(self).extents@.contains(#[trigger] cleared[k]),
            decreases self.extents@.len() - i,
        {
            let blk = self.extents[i];
            assert(blk == self.extents@[i as int]);
            let start = blk.ofs + blk.len;
            if len <= usize::MAX - start {
                let mut fits = true;
                let mut j: usize = 0;
                while j < self.extents.len()
                    invariant
                        j <= self.extents@.len(),
                        start + len <= usize::MAX,
                        self.wf(),
                        fits == forall|k: int|
                            0 <= k < j ==> apart(
                                start as int,
                                start + len,
                                (#[trigger] self.extents@[k]).ofs as int,
                                self.extents@[k].ofs + self.extents@[k].len,
                            ),
                    decreases self.extents@.len() - j,
                {
                    let blk2 = self.extents[j];
                    assert(blk2 == self.extents@[j as int]);
                    if !check_insert(start, start + len, blk2.ofs, blk2.ofs + blk2.len) {
                        fits = false;
                    }
                    j += 1;
                }
                if fits {
                    let extent = Extent { id, ofs: start, len };
                    self.insert(extent);
                    proof {
                        assert(cleared.contains(blk));
                        assert(old(self).extents@.contains(blk));
                        assert forall|e: Extent| #[trigger]
                            self.extents@.contains(e) && e.id != id implies apart(
                            start as int,
                            start + len,
                            e.ofs as int,
                            e.ofs + e.len,
                        ) by {
                            assert(cleared.contains(e));
                            let k = choose|k: int| 0 <= k < cleared.len() && cleared[k] == e;
                            assert(cleared[k] == e);
                        }
                    }
                    return Some(start);
                }
            }
            i += 1;
        }
        proof {
            assert forall|e: Extent| #[trigger] self.extents@.contains(e) implies e.id != id by {
                let k = choose|k: int| 0 <= k < cleared.len() && cleared[k] == e;
                assert(cleared[k].id != id);
            }
        }
        None
    }
}

/// A file: the run of blocks that holds what was written to it last.
#[derive(Debug, Clone, Copy, PartialEq, Eq, Structural)]
pub struct RamFileFile {
    pub ofs: usize,
    pub size: usize,
}

/// A directory: the names in it, each with the number of its node. No name
/// stands in it twice.
pub struct RamFileDir {
    pub ents: Vec<(Vec<u8>, usize)>,
}

/// A symbolic link: the path that it stands for.
pub struct RamFileSymlink {
    pub target: Vec<u8>,
}

/// A node of the file system.
pub enum RamFile {
    File(RamFileFile),
    Dir(RamFileDir),
    Symlink(RamFileSymlink),
}

/// What a node is made as: a file, a directory, or a symbolic link to a
/// path.
pub enum NodeType {
    File,
    Dir,
    Symlink(Vec<u8>),
}

/// The entries of a directory as values: names and numbers of nodes.
pub open spec fn entries_of(ents: Seq<(Vec<u8>, usize)>) -> Seq<(Seq<u8>, usize)> {
    Seq::new(ents.len(), |i: int| (ents[i].0@, ents[i].1))
}

/// The name stands in the entries.
pub open spec fn has_name(entries: Seq<(Seq<u8>, usize)>, name: Seq<u8>) -> bool {
    exists|i: int| 0 <= i < entries.len() && (#[trigger] entries[i]).0 == name
}

/// No name stands in the entries twice.
pub open spec fn names_differ(entries: Seq<(Seq<u8>, usize)>) -> bool {
    forall|i: int, j: int|
        #![trigger entries[i], entries[j]]
        0 <= i < j < entries.len() ==> entries[i].0 != entries[j].0
}

/// Whether two strings of bytes are the same.
pub fn same_bytes(a: &[u8], b: &[u8]) -> (same: bool)
    ensures
        same == (a@ == b@),
{
    if a.len() != b.len() {
        return false;
    }
    let mut i: usize = 0;
    while i < a.len()
        invariant
            i <= a@.len(),
            a@.len() == b@.len(),
            forall|k: int| 0 <= k < i ==> a@[k] == b@[k],
        decreases a@.len() - i,
    {
        if a[i] != b[i] {
            return false;
        }
        i += 1;
    }
    assert(a@ =~= b@);
    true
}

impl RamFile {
    /// The kind of the node.
    pub open spec fn kind(&self) -> NodeKind {
        match self {
            RamFile::File(_) => NodeKind::File,
            RamFile::Dir(_) => NodeKind::Dir,
            RamFile::Symlink(_) => NodeKind::Symlink,
        }
    }

    /// The entries of the node, where it is a directory; none else.
    pub open spec fn entries(&self) -> Seq<(Seq<u8>, usize)> {
        match self {
            RamFile::Dir(d) => entries_of(d.ents@),
            _ => Seq::empty(),
        }
    }

    /// The directory that the node is.
    pub fn dir(&self) -> (dir: &RamFileDir)
        requires
            self is Dir,
        ensures
            *self == RamFile::Dir(*dir),
    {
        match self {
            RamFile::Dir(e) => e,
            _ => unreached(),
        }
    }

    /// The symbolic link that the node is.
    pub fn symlink(&self) -> (link: &RamFileSymlink)
        requires
            self is Symlink,
        ensures
            *self == RamFile::Symlink(*link),
    {
        match self {
            RamFile::Symlink(e) => e,
            _ => unreached(),
        }
    }

    /// The file that the node is.
    pub fn file(&self) -> (file: &RamFileFile)
        requires
            self is File,
        ensures
            *self == RamFile::File(*file),
    {
        match self {
            RamFile::File(e) => e,
            _ => unreached(),
        }
    }
}

impl RamFileDir {
    /// The number of the node with the name `name`, or `NotFound` where the
    /// directory has no such name.
    pub fn lookup(&self, name: &[u8]) -> (result: Result<InodeId, Error>)
        ensures
            match result {
                Ok(inode) => exists|i: int|
                    0 <= i < self.ents@.len() && (#[trigger] entries_of(self.ents@)[i]).0 == name@
                        && entries_of(self.ents@)[i].1 == inode,
                Err(e) => e == Error::NotFound && !has_name(entries_of(self.ents@), name@),
            },
    {
        let mut i: usize = 0;
        while i < self.ents.len()
            invariant
                i <= self.ents@.len(),
                forall|k: int| 0 <= k < i ==> (#[trigger] entries_of(self.ents@)[k]).0 != name@,
            decreases self.ents@.len() - i,
        {
            if same_bytes(self.ents[i].0.as_slice(), name) {
                assert(entries_of(self.ents@)[i as int].0 == name@);
                return Ok(self.ents[i].1 as InodeId);
            }
            i += 1;
        }
        Err(Error::NotFound)
    }
}

/// The file system in memory: its nodes, each under its number.
pub struct RamFS {
    pub nodes: Vec<RamFile>,
}

impl RamFS {
    /// The names in every directory differ.
    pub open spec fn wf(&self) -> bool {
        forall|i: int| 0 <= i < self.nodes@.len() ==> names_differ((#[trigger] self.nodes@[i]).entries())
    }

    /// Mounts the file system: it starts with an empty directory, the
    /// root, under the number 0.
    pub fn mount() -> (fs: RamFS)
        ensures
            fs.wf(),
            fs.nodes@.len() == 1,
            fs.nodes@[0] is Dir,
            fs.nodes@[0].entries() == Seq::<(Seq<u8>, usize)>::empty(),
    {
        let mut nodes: Vec<RamFile> = Vec::new();
        nodes.push(RamFile::Dir(RamFileDir { ents: Vec::new() }));
        assert(nodes@[0].entries() =~= Seq::<(Seq<u8>, usize)>::empty());
        RamFS { nodes }
    }

    /// The kind of the node with the number `id`, if there is one.
    pub fn kind_of(&self, id: InodeId) -> (kind: Option<NodeKind>)
        ensures
            kind == if id < self.nodes@.len() {
                Some(self.nodes@[id as int].kind())
            } else {
                None
            },
    {
        if id >= self.nodes.len() as InodeId {
            None
        } else {
            match &self.nodes[id as usize] {
                RamFile::Dir(_) => Some(NodeKind::Dir),
                RamFile::Symlink(_) => Some(NodeKind::Symlink),
                RamFile::File(_) => Some(NodeKind::File),
            }
        }
    }

    /// The number of the node with the name `name` in the directory with
    /// the number `dir`, or `NotFound` where the directory has no such
    /// name.
    pub fn lookup(&self, dir: usize, name: &[u8]) -> (result: Result<InodeId, Error>)
        requires
            dir < self.nodes@.len(),
            self.nodes@[dir as int] is Dir,
        ensures
            match result {
                Ok(inode) => exists|i: int|
                    0 <= i < self.nodes@[dir as int].entries().len() && (
                    #[trigger] self.nodes@[dir as int].entries()[i]).0 == name@ && self.nodes@[dir as int].entries()[i].1
                        == inode,
                Err(e) => e == Error::NotFound && !has_name(self.nodes@[dir as int].entries(), name@),
            },
    {
        let directory = self.nodes[dir].dir();
        let result = directory.lookup(name);
        proof {
            assert(self.nodes@[dir as int].entries() == entries_of(directory.ents@));
        }
        result
    }

    /// Makes a node of the kind `nodetype` under the name `name` in the
    /// directory with the number `dir`, and hands back its number: the next
    /// free one.
    ///
    /// The call fails with `AlreadyExists`, and changes nothing, where the
    /// directory has the name already.
    pub fn create(&mut self, dir: usize, name: &[u8], nodetype: NodeType) -> (result: Result<InodeId, Error>)
        requires
            old(self).wf(),
            dir < old(self).nodes@.len(),
            old(self).nodes@[dir as int] is Dir,
        ensures
            final(self).wf(),
            has_name(old(self).nodes@[dir as int].entries(), name@) ==> result == Err::<InodeId, Error>(
                Error::AlreadyExists,
            ) && final(self).nodes@ == old(self).nodes@,
            !has_name(old(self).nodes@[dir as int].entries(), name@) ==> {
                let inode = old(self).nodes@.len();
                &&& result == Ok::<InodeId, Error>(inode as InodeId)
                &&& final(self).nodes@.len() == inode + 1
                &&& final(self).nodes@[dir as int] is Dir
                &&& final(self).nodes@[dir as int].entries() == old(self).nodes@[dir as int].entries().push(
                    (name@, inode as usize),
                )
                &&& forall|i: int|
                    0 <= i < inode && i != dir ==> #[trigger] final(self).nodes@[i] == old(self).nodes@[i]
                &&& final(self).nodes@[inode as int].entries() == Seq::<(Seq<u8>, usize)>::empty()
                &&& match nodetype {
                    NodeType::Dir => final(self).nodes@[inode as int] is Dir,
                    NodeType::File => final(self).nodes@[inode as int] == RamFile::File(
                        RamFileFile { ofs: 0, size: 0 },
                    ),
                    NodeType::Symlink(target) => final(self).nodes@[inode as int] matches RamFile::Symlink(
                        link,
                    ) && link.target@ == target@,
                }
            },
    {
        match self.nodes[dir].dir().lookup(name) {
            Ok(_) => {
                return Err(Error::AlreadyExists);
            },
            Err(_) => {},
        }
        let nn = match nodetype {
            NodeType::Dir => RamFile::Dir(RamFileDir { ents: Vec::new() }),
            NodeType::File => RamFile::File(RamFileFile { ofs: 0, size: 0 }),
            NodeType::Symlink(v) => RamFile::Symlink(RamFileSymlink { target: v }),
        };
        assert(nn.entries() =~= Seq::<(Seq<u8>, usize)>::empty());
        let inode = self.nodes.len();
        self.nodes.push(nn);
        let mut own: Vec<u8> = Vec::new();
        let mut k: usize = 0;
        while k < name.len()
            invariant
                k <= name@.len(),
                own@ == name@.take(k as int),
            decreases name@.len() - k,
        {
            own.push(name[k]);
            assert(own@ =~= name@.take(k + 1));
            k += 1;
        }
        assert(own@ =~= name@);
        let ghost before = self.nodes@[dir as int].entries();
        let mut removed = RamFile::File(RamFileFile { ofs: 0, size: 0 });
        core::mem::swap(&mut self.nodes[dir], &mut removed);
        let mut ents = match removed {
            RamFile::Dir(d) => d.ents,
            _ => Vec::new(),
        };
        ents.push((own, inode));
        proof {
            assert(entries_of(ents@) =~= before.push((name@, inode)));
            assert forall|i: int, j: int|
                #![trigger entries_of(ents@)[i], entries_of(ents@)[j]]
                0 <= i < j < ents@.len() implies entries_of(ents@)[i].0 != entries_of(ents@)[j].0 by {
                if j == ents@.len() - 1 {
                    assert(before[i].0 != name@);
                } else {
                    assert(before[i].0 != before[j].0);
                }
            }
        }
        self.nodes[dir] = RamFile::Dir(RamFileDir { ents });
        proof {
            assert forall|i: int| 0 <= i < self.nodes@.len() implies names_differ(
                (#[trigger] self.nodes@[i]).entries(),
            ) by {
                if i != dir && i != inode {
                    assert(self.nodes@[i] == old(self).nodes@[i]);
                }
            }
        }
        Ok(inode as InodeId)
    }
}

impl Filesystem for RamFS {
    fn root_inode(&self) -> (id: InodeId)
        ensures
            id == 0,
    {
        0
    }

    fn get_node_by_inode(&self, id: InodeId) -> (kind: Option<NodeKind>)
        ensures
            kind == if id < self.nodes@.len() {
                Some(self.nodes@[id as int].kind())
            } else {
                None
            },
    {
        self.kind_of(id)
    }
}

impl RamFileFile {
    /// Gives the file with the number `id` a run of `len` words on the
    /// disk, and takes the run as the place of this file where there is
    /// one. What is handed back goes to the disk: the block at which this
    /// file starts, and the number of sectors that `len` words fill.
    pub fn mut_write(&mut self, disk: &mut DiskMap, id: InodeId, len: usize) -> (transfer: (u64, usize))
        requires
            old(disk).wf(),
        ensures
            final(disk).wf(),
            transfer == (final(self).ofs as u64, len / crate::ata::io::SECTOR_SIZE),
            exists|placed: Option<usize>|
                {
                    &&& *final(self) == match placed {
                        Some(ofs) => RamFileFile { ofs, size: len },
                        None => *old(self),
                    }
                    &&& #[trigger] DiskMap::allocated(
                        old(disk).extents@,
                        final(disk).extents@,
                        id as usize,
                        len,
                        placed,
                    )
                },
    {
        let placed = disk.allocate(id as usize, len);
        match placed {
            Some(ofs) => {
                self.ofs = ofs;
                self.size = len;
            },
            None => (),
        }
        (self.ofs as u64, len / crate::ata::io::SECTOR_SIZE)
    }
}

} // verus!

//! Mountpoint management: which driver mounts a volume, and the handles
//! to mounted file systems.

use vstd::prelude::*;
use super::Error;
use crate::metadevs::storage::VolumeHandle;

verus! {

/// The number of a node within a file system.
pub type InodeId = u64;

/// The kinds of nodes of a file system.
#[derive(Debug, Clone, Copy, PartialEq, Eq, Structural)]
pub enum NodeKind {
    File,
    Dir,
    Symlink,
}

/// A handle to a mounted filesystem: 0 for the root, else the number of the
/// mounted volume plus one.
#[derive(Debug, Clone, Copy, PartialEq, Eq, Structural)]
pub struct Handle(pub usize);

/// Handle to a mounted filesystem held by the filesystem itself.
#[derive(Debug, Clone, Copy, PartialEq, Eq, Structural)]
pub struct SelfHandle(pub usize);

/// Filesystem instance trait.
pub trait Filesystem {
    /// The node from which the file system starts.
    fn root_inode(&self) -> InodeId;

    /// The kind of the node with the number `id`, if there is one.
    fn get_node_by_inode(&self, id: InodeId) -> Option<NodeKind>;
}

/// The file system that stands in for one that is being mounted: it has no
/// node.
pub struct NullFs;

impl Filesystem for NullFs {
    fn root_inode(&self) -> (id: InodeId)
        ensures
            id == 0,
    {
        0
    }

    fn get_node_by_inode(&self, _id: InodeId) -> (kind: Option<NodeKind>)
        ensures
            kind.is_none(),
    {
        None
    }
}

/// The registration of a driver, by its name.
#[derive(Debug, Clone, Copy, PartialEq, Eq)]
pub struct DriverRegistration(pub &'static str);

/// Why a volume could not be mounted.
#[derive(Debug, Clone, Copy, PartialEq, Eq, Structural)]
pub enum MountError {
    UnknownFilesystem,
    NoHandler,
    InvalidMountpoint,
    MountpointUsed,
    CallFailed,
}

impl MountError {
    /// What the error says.
    pub fn message(&self) -> (text: &'static str)
        ensures
            text == match self {
                MountError::UnknownFilesystem => "Filesystem driver not found",
                MountError::NoHandler => "No registered filesystem driver handles this volume",
                MountError::InvalidMountpoint => "The specified mountpoint was invalid",
                MountError::MountpointUsed => "The specified mountpoint was already used",
                MountError::CallFailed => "Driver's mount call failed",
            },
    {
        match self {
            MountError::UnknownFilesystem => "Filesystem driver not found",
            MountError::NoHandler => "No registered filesystem driver handles this volume",
            MountError::InvalidMountpoint => "The specified mountpoint was invalid",
            MountError::MountpointUsed => "The specified mountpoint was already used",
            MountError::CallFailed => "Driver's mount call failed",
        }
    }
}

impl Handle {
    /// The handle with the number `id`, which must be 0 or that of one of the
    /// `mounted` volumes.
    pub fn from_id(id: usize, mounted: usize) -> (handle: Handle)
        requires
            id == 0 || id - 1 < mounted,
        ensures
            handle.0 == id,
    {
        Handle(id)
    }

    /// The number of the handle.
    pub fn id(&self) -> (id: usize)
        ensures
            id == self.0,
    {
        self.0
    }

    /// Whether the handle is that of the root.
    pub fn is_root(&self) -> (root: bool)
        ensures
            root == (self.0 == 0),
    {
        self.0 == 0
    }

    /// The index, among the mounted volumes, of the volume of a handle that
    /// is not that of the root.
    pub fn volume_index(&self) -> (index: usize)
        requires
            self.0 > 0,
        ensures
            index == self.0 - 1,
    {
        self.0 - 1
    }

    /// The node from which the file system `fs` of the handle starts.
    pub fn root_inode<F: Filesystem>(&self, fs: &F) -> InodeId {
        self.with_fs(fs).root_inode()
    }

    /// The kind of the node with the number `id` of the file system `fs` of
    /// the handle.
    pub fn get_node<F: Filesystem>(&self, fs: &F, id: InodeId) -> Option<NodeKind> {
        self.with_fs(fs).get_node_by_inode(id)
    }

    fn with_fs<'a, F: Filesystem>(&self, fs: &'a F) -> (out: &'a F)
        ensures
            out == fs,
    {
        fs
    }
}

impl SelfHandle {
    /// The place of the node with the number `inode` in the cache of nodes:
    /// the number of the mounted volume, and the number of the node.
    pub fn get_node(&self, inode: InodeId) -> (place: (usize, InodeId))
        ensures
            place == (self.0, inode),
    {
        (self.0, inode)
    }
}

/// The driver that mounts a volume.
///
/// Where a file system is asked for by name, `named` is the index of the
/// driver with that name, or `None` where no driver has it. Where none is
/// asked for, the drivers are asked whether they know the volume:
/// `strengths` holds for every driver the strength with which it binds the
/// volume, or `None` where it could not tell. The strongest driver is
/// chosen, of several the last; a strength of 0 means that the driver does
/// not handle the volume.
pub fn choose_driver(by_name: bool, named: Option<usize>, strengths: &Vec<Option<usize>>) -> (result:
    Result<usize, MountError>)
    requires
        named matches Some(i) ==> i < strengths@.len(),
    ensures
        by_name ==> result == match named {
            Some(i) => Ok::<usize, MountError>(i),
            None => Err::<usize, MountError>(MountError::UnknownFilesystem),
        },
        !by_name ==> match result {
            Ok(i) => {
                &&& i < strengths@.len()
                &&& strengths@[i as int] matches Some(s) && s > 0 && (forall|k: int|
                    0 <= k < strengths@.len() ==> ((#[trigger] strengths@[k]) matches Some(t) ==> t
                        <= s)) && (forall|k: int|
                    i < k < strengths@.len() ==> ((#[trigger] strengths@[k]) matches Some(t) ==> t
                        < s))
            },
            Err(e) => e == MountError::NoHandler && forall|k: int|
                0 <= k < strengths@.len() ==> ((#[trigger] strengths@[k]) matches Some(t) ==> t == 0),
        },
{
    if by_name {
        return match named {
            Some(d) => Ok(d),
            None => Err(MountError::UnknownFilesystem),
        };
    }
    let mut best: Option<(usize, usize)> = None;
    let mut i: usize = 0;
    while i < strengths.len()
        invariant
            i <= strengths@.len(),
            match best {
                Some((index, strength)) => {
                    &&& index < i
                    &&& strengths@[index as int] == Some(strength)
                    &&& forall|k: int|
                        0 <= k < i ==> ((#[trigger] strengths@[k]) matches Some(t) ==> t <= strength)
                    &&& forall|k: int|
                        index < k < i ==> ((#[trigger] strengths@[k]) matches Some(t) ==> t
                            < strength)
                },
                None => forall|k: int| 0 <= k < i ==> (#[trigger] strengths@[k]).is_none(),
            },
        decreases strengths@.len() - i,
    {
        match strengths[i] {
            Some(strength) => {
                let better = match best {
                    Some((_, s)) => strength >= s,
                    None => true,
                };
                if better {
                    best = Some((i, strength));
                }
            },
            None => {},
        }
        i += 1;
    }
    match best {
        Some((index, strength)) => {
            if strength == 0 {
                Err(MountError::NoHandler)
            } else {
                Ok(index)
            }
        },
        None => Err(MountError::NoHandler),
    }
}

/// What mounting at a place other than the root comes to, once the driver
/// is chosen: the place must be a directory at which nothing is mounted.
pub fn check_mountpoint(found: bool, is_dir: bool, is_mountpoint: bool) -> (result: Result<
    (),
    MountError,
>)
    ensures
        result == if !found || !is_dir {
            Err::<(), MountError>(MountError::InvalidMountpoint)
        } else if is_mountpoint {
            Err::<(), MountError>(MountError::MountpointUsed)
        } else {
            Ok::<(), MountError>(())
        },
{
    if !found {
        return Err(MountError::InvalidMountpoint);
    }
    if !is_dir {
        return Err(MountError::InvalidMountpoint);
    }
    if is_mountpoint {
        return Err(MountError::MountpointUsed);
    }
    Ok(())
}

/// Filesystem driver trait.
pub trait Driver<F: Filesystem> {
    /// Returns an integer binding strength where 0 means "doesn't handle".
    ///
    /// Levels are left unspecified, but FAT uses 1, and extN uses 2/3
    /// (depending on if the system is fully supported).
    fn detect(&self, vol: &VolumeHandle) -> Result<usize, Error>;

    /// Mount the provided volume as this filesystem.
    fn mount(&self, vol: VolumeHandle, handle: SelfHandle) -> Result<F, Error>;
}

/// The node at which a volume is mounted, as the cache of nodes shows it.
pub trait Mountpoint {
    /// Whether the node is a directory.
    fn is_dir(&self) -> bool;

    /// Whether a volume is mounted at the node.
    fn is_mountpoint(&self) -> bool;

    /// Marks the node as the place at which the volume with the handle
    /// `id` is mounted, and says whether it did: it does not where a
    /// volume is mounted there already.
    fn mount(&mut self, id: usize) -> bool;
}

/// Where a volume is to be mounted: at the root, or at the node that was
/// found at a path, if one was.
pub enum Place<P> {
    Root,
    Node(Option<P>),
}

/// Internal representation of a mounted volume. While the volume is being
/// mounted it has no file system yet.
pub struct MountedVolume<F, P> {
    pub mountpoint_node: P,
    pub fs: Option<F>,
}

/// The string `a` comes before the string `b`: at the first place at which
/// they differ `a` has the lesser character, or `a` ends there.
pub open spec fn comes_before(a: Seq<char>, b: Seq<char>) -> bool
    decreases a.len(),
{
    if b.len() == 0 {
        false
    } else if a.len() == 0 {
        true
    } else if a[0] != b[0] {
        (a[0] as u32) < (b[0] as u32)
    } else {
        comes_before(a.drop_first(), b.drop_first())
    }
}

/// Compares two strings with `<`, std's order of `str`.
///
/// The contract claims what the documentation of `str` says of its order:
/// strings are ordered by their bytes, one after the other, which orders
/// them by the code points of their characters.
#[verifier::external_body]
fn name_before(a: &str, b: &str) -> (before: bool)
    ensures
        before == comes_before(a@, b@),
{
    a < b
}

/// Whether two names are the same.
fn same_name(a: &str, b: &str) -> (same: bool)
    ensures
        same == (a@ == b@),
{
    a.to_owned() == b.to_owned()
}

/// The names of the drivers.
pub open spec fn names_of<D>(drivers: Seq<(&'static str, D)>) -> Seq<Seq<char>> {
    Seq::new(drivers.len(), |i: int| drivers[i].0@)
}

/// The number of names that come before `name`.
pub open spec fn place_of(names: Seq<Seq<char>>, name: Seq<char>) -> int
    decreases names.len(),
{
    if names.len() == 0 {
        0
    } else if comes_before(names[0], name) {
        1 + place_of(names.drop_first(), name)
    } else {
        0
    }
}

/// The known drivers, in the order of their names; the mounted volumes;
/// and the file system that is mounted at the root.
pub struct Mounts<F: Filesystem, D: Driver<F>, P: Mountpoint> {
    pub drivers: Vec<(&'static str, D)>,
    pub volumes: Vec<MountedVolume<F, P>>,
    pub root: Option<F>,
}

impl DriverRegistration {
    /// Registers the driver `fs` under the name `name`, unless a driver has
    /// the name already: the driver is put in front of the first driver
    /// whose name does not come before its own.
    pub fn new<F: Filesystem, D: Driver<F>, P: Mountpoint>(
        mounts: &mut Mounts<F, D, P>,
        name: &'static str,
        fs: D,
    ) -> (registration: Option<DriverRegistration>)
        ensures
            final(mounts).volumes == old(mounts).volumes,
            final(mounts).root == old(mounts).root,
            names_of(old(mounts).drivers@).contains(name@) ==> registration.is_none() && final(mounts).drivers
                == old(mounts).drivers,
            !names_of(old(mounts).drivers@).contains(name@) ==> registration == Some(DriverRegistration(name))
                && final(mounts).drivers@ == old(mounts).drivers@.insert(
                place_of(names_of(old(mounts).drivers@), name@),
                (name, fs),
            ),
    {
        match mounts.find_driver(name) {
            Some(_) => {
                return None;
            },
            None => {},
        }
        let ghost names = names_of(mounts.drivers@);
        let mut k: usize = 0;
        assert(names.subrange(0, names.len() as int) =~= names);
        while k < mounts.drivers.len() && name_before(mounts.drivers[k].0, name)
            invariant
                *mounts == *old(mounts),
                names == names_of(mounts.drivers@),
                k <= mounts.drivers@.len(),
                place_of(names, name@) == k + place_of(names.subrange(k as int, names.len() as int), name@),
            decreases mounts.drivers@.len() - k,
        {
            let ghost left = names.subrange(k as int, names.len() as int);
            assert(left[0] == names[k as int]);
            assert(left.drop_first() =~= names.subrange(k + 1, names.len() as int));
            k += 1;
        }
        proof {
            let left = names.subrange(k as int, names.len() as int);
            if k < names.len() {
                assert(left[0] == names[k as int]);
            }
            assert(place_of(left, name@) == 0);
        }
        mounts.drivers.insert(k, (name, fs));
        Some(DriverRegistration(name))
    }
}

impl<F: Filesystem, D: Driver<F>, P: Mountpoint> Mounts<F, D, P> {
    /// No driver and nothing mounted.
    pub fn new() -> (mounts: Self)
        ensures
            mounts.drivers@.len() == 0,
            mounts.volumes@.len() == 0,
            mounts.root.is_none(),
    {
        Mounts { drivers: Vec::new(), volumes: Vec::new(), root: None }
    }

    /// The place of the driver with the name `name`, if there is one.
    pub fn find_driver(&self, name: &str) -> (place: Option<usize>)
        ensures
            match place {
                Some(i) => i < self.drivers@.len() && names_of(self.drivers@)[i as int] == name@,
                None => !names_of(self.drivers@).contains(name@),
            },
    {
        let mut i: usize = 0;
        while i < self.drivers.len()
            invariant
                i <= self.drivers@.len(),
                forall|k: int| 0 <= k < i ==> names_of(self.drivers@)[k] != name@,
            decreases self.drivers@.len() - i,
        {
            if same_name(self.drivers[i].0, name) {
                return Some(i);
            }
            i += 1;
        }
        None
    }

    /// The file system of the handle `handle`: the one at the root for the
    /// handle 0, else that of the mounted volume whose number is one less
    /// than the handle.
    pub fn fs_of(&self, handle: &Handle) -> (fs: &F)
        requires
            handle.0 == 0 ==> self.root.is_some(),
            handle.0 > 0 ==> handle.0 - 1 < self.volumes@.len() && self.volumes@[handle.0 - 1].fs.is_some(),
        ensures
            handle.0 == 0 ==> Some(*fs) == self.root,
            handle.0 > 0 ==> Some(*fs) == self.volumes@[handle.0 - 1].fs,
    {
        if handle.0 == 0 {
            self.root.as_ref().unwrap()
        } else {
            self.volumes[handle.0 - 1].fs.as_ref().unwrap()
        }
    }

    /// Mount the volume `vol` at `place` with the driver named `fs`, or,
    /// where `fs` is empty, with the driver that binds the volume with the
    /// highest strength.
    ///
    /// The call fails with `UnknownFilesystem` where no driver has the
    /// name, with `NoHandler` where no driver binds the volume, with
    /// `CallFailed` where the driver fails to mount, with
    /// `InvalidMountpoint` where no directory is found at the place, and
    /// with `MountpointUsed` where something is mounted at the place
    /// already. Only a driver that fails to mount at a node leaves a trace:
    /// the volume that was put in for the file system to come stays.
    pub fn mount(&mut self, place: Place<P>, vol: VolumeHandle, fs: &str) -> (result: Result<(), MountError>)
        ensures
            final(self).drivers == old(self).drivers,
            fs@.len() > 0 && !names_of(old(self).drivers@).contains(fs@) ==> result == Err::<(), MountError>(
                MountError::UnknownFilesystem,
            ),
            place matches Place::Node(None) ==> result is Err && !(result matches Err(MountError::MountpointUsed))
                && !(result matches Err(MountError::CallFailed)),
            match result {
                Ok(()) => match place {
                    Place::Root => old(self).root.is_none() && final(self).root.is_some() && final(self).volumes
                        == old(self).volumes,
                    Place::Node(node) => {
                        &&& node.is_some()
                        &&& final(self).root == old(self).root
                        &&& final(self).volumes@.len() == old(self).volumes@.len() + 1
                        &&& final(self).volumes@.last().fs.is_some()
                        &&& final(self).volumes@.drop_last() == old(self).volumes@
                    },
                },
                Err(MountError::CallFailed) => match place {
                    Place::Root => final(self).root == old(self).root && final(self).volumes == old(self).volumes,
                    Place::Node(node) => {
                        &&& final(self).root == old(self).root
                        &&& final(self).volumes@.len() == old(self).volumes@.len() + 1
                        &&& final(self).volumes@.last().fs.is_none()
                        &&& final(self).volumes@.drop_last() == old(self).volumes@
                    },
                },
                Err(MountError::MountpointUsed) => final(self).root == old(self).root && final(self).volumes@
                    == old(self).volumes@ && (place is Root ==> old(self).root.is_some()),
                Err(_) => final(self).root == old(self).root && final(self).volumes == old(self).volumes,
            },
    {
        // 1. (maybe) detect filesystem
        let chosen = if fs.is_empty() {
            let mut strengths: Vec<Option<usize>> = Vec::new();
            let mut i: usize = 0;
            while i < self.drivers.len()
                invariant
                    *self == *old(self),
                    i <= self.drivers@.len(),
                    strengths@.len() == i,
                decreases self.drivers@.len() - i,
            {
                strengths.push(
                    match self.drivers[i].1.detect(&vol) {
                        Ok(strength) => Some(strength),
                        Err(_) => None,
                    },
                );
                i += 1;
            }
            choose_driver(false, None, &strengths)
        } else {
            match self.find_driver(fs) {
                Some(d) => Ok(d),
                None => Err(MountError::UnknownFilesystem),
            }
        };
        let driver = match chosen {
            Ok(driver) => driver,
            Err(e) => {
                return Err(e);
            },
        };
        match place {
            Place::Root => {
                let fs = match self.drivers[driver].1.mount(vol, SelfHandle(0)) {
                    Ok(v) => v,
                    Err(_) => {
                        return Err(MountError::CallFailed);
                    },
                };
                if self.root.is_some() {
                    return Err(MountError::MountpointUsed);
                }
                self.root = Some(fs);
            },
            Place::Node(node) => {
                // 2. Acquire mountpoint
                let nh = match node {
                    Some(nh) => nh,
                    None => {
                        return Err(MountError::InvalidMountpoint);
                    },
                };
                match check_mountpoint(true, nh.is_dir(), nh.is_mountpoint()) {
                    Ok(()) => {},
                    Err(e) => {
                        return Err(e);
                    },
                }
                // 3. Reserve the mountpoint ID (using a placeholder instance)
                // NOTE: Nothing should know of this index until after
                // mount is completed
                self.volumes.push(MountedVolume { mountpoint_node: nh, fs: None });
                let vidx = self.volumes.len() - 1;
                assert(self.volumes@.drop_last() =~= old(self).volumes@);
                // 4. Mount and register volume
                let fs = match self.drivers[driver].1.mount(vol, SelfHandle(vidx)) {
                    Ok(v) => v,
                    Err(_) => {
                        return Err(MountError::CallFailed);
                    },
                };
                // 5. Store and bind to mountpoint
                let mut volume = match self.volumes.pop() {
                    Some(volume) => volume,
                    None => {
                        return Err(MountError::CallFailed);
                    },
                };
                assert(self.volumes@ =~= old(self).volumes@);
                volume.fs = Some(fs);
                if !volume.mountpoint_node.mount(vidx + 1) {
                    return Err(MountError::MountpointUsed);
                }
                self.volumes.push(volume);
                assert(self.volumes@.drop_last() =~= old(self).volumes@);
            },
        }
        Ok(())
    }
}

} // verus!

use rucore::metadevs::storage::VolumeHandle;
use rucore::vfs::mount::{
    Driver, DriverRegistration, Filesystem, Handle, InodeId, MountError, Mountpoint, Mounts, NodeKind, Place,
    SelfHandle,
};
use rucore::vfs::Error;

/// A file system that knows which driver mounted it, and under which
/// handle.
#[derive(Debug, PartialEq)]
struct Tagged(&'static str, usize);

impl Filesystem for Tagged {
    fn root_inode(&self) -> InodeId {
        0
    }

    fn get_node_by_inode(&self, _id: InodeId) -> Option<NodeKind> {
        None
    }
}

/// A driver that binds every volume with the same strength.
struct Fixed {
    tag: &'static str,
    strength: Result<usize, Error>,
    mounts: bool,
}

impl Driver<Tagged> for Fixed {
    fn detect(&self, _vol: &VolumeHandle) -> Result<usize, Error> {
        self.strength
    }

    fn mount(&self, _vol: VolumeHandle, handle: SelfHandle) -> Result<Tagged, Error> {
        if self.mounts {
            Ok(Tagged(self.tag, handle.0))
        } else {
            Err(Error::InconsistentFilesystem)
        }
    }
}

/// A node of the cache.
struct Node {
    dir: bool,
    mounted: Option<usize>,
    takes_mounts: bool,
}

impl Mountpoint for Node {
    fn is_dir(&self) -> bool {
        self.dir
    }

    fn is_mountpoint(&self) -> bool {
        self.mounted.is_some()
    }

    fn mount(&mut self, id: usize) -> bool {
        if self.takes_mounts && self.mounted.is_none() {
            self.mounted = Some(id);
            true
        } else {
            false
        }
    }
}

fn driver(tag: &'static str, strength: usize) -> Fixed {
    Fixed { tag, strength: Ok(strength), mounts: true }
}

fn directory() -> Place<Node> {
    Place::Node(Some(Node { dir: true, mounted: None, takes_mounts: true }))
}

fn volume() -> VolumeHandle {
    VolumeHandle::new_ramdisk(0)
}

fn mounts(drivers: Vec<Fixed>) -> Mounts<Tagged, Fixed, Node> {
    let mut mounts = Mounts::new();
    for driver in drivers {
        assert!(DriverRegistration::new(&mut mounts, driver.tag, driver).is_some());
    }
    mounts
}

fn names(mounts: &Mounts<Tagged, Fixed, Node>) -> Vec<&'static str> {
    mounts.drivers.iter().map(|driver| driver.0).collect()
}

#[test]
fn drivers_are_kept_in_the_order_of_their_names() {
    let mut mounts = mounts(vec![driver("ramfs", 1), driver("fat", 1), driver("ext", 2), driver("fat32", 1)]);
    assert_eq!(names(&mounts), vec!["ext", "fat", "fat32", "ramfs"]);
    assert_eq!(DriverRegistration::new(&mut mounts, "zfs", driver("zfs", 1)), Some(DriverRegistration("zfs")));
    assert_eq!(DriverRegistration::new(&mut mounts, "", driver("", 1)), Some(DriverRegistration("")));
    assert_eq!(names(&mounts), vec!["", "ext", "fat", "fat32", "ramfs", "zfs"]);
    // a name is taken once
    assert_eq!(DriverRegistration::new(&mut mounts, "fat", driver("other", 9)), None);
    assert_eq!(names(&mounts), vec!["", "ext", "fat", "fat32", "ramfs", "zfs"]);
    assert_eq!(mounts.drivers[2].1.tag, "fat");
    assert_eq!(mounts.find_driver("fat32"), Some(3));
    assert_eq!(mounts.find_driver("fat3"), None);
}

#[test]
fn root_is_mounted_once() {
    let mut mounts = mounts(vec![driver("ramfs", 1), driver("fat", 1)]);
    assert_eq!(mounts.mount(Place::Root, volume(), "ntfs"), Err(MountError::UnknownFilesystem));
    assert!(mounts.root.is_none());
    assert_eq!(mounts.mount(Place::Root, volume(), "ramfs"), Ok(()));
    assert_eq!(mounts.root, Some(Tagged("ramfs", 0)));
    assert_eq!(mounts.mount(Place::Root, volume(), "fat"), Err(MountError::MountpointUsed));
    assert_eq!(mounts.root, Some(Tagged("ramfs", 0)));
    assert!(mounts.volumes.is_empty());
}

#[test]
fn strongest_driver_mounts_a_volume_without_a_name() {
    // of the two strongest the one whose name comes last
    let mut mounts = mounts(vec![driver("fat", 2), driver("ext", 2), driver("ramfs", 1)]);
    assert_eq!(mounts.mount(Place::Root, volume(), ""), Ok(()));
    assert_eq!(mounts.root, Some(Tagged("fat", 0)));

    let mut nobody = self::mounts(vec![
        driver("ramfs", 0),
        Fixed { tag: "fat", strength: Err(Error::Unknown("no answer")), mounts: true },
    ]);
    assert_eq!(nobody.mount(Place::Root, volume(), ""), Err(MountError::NoHandler));
    assert_eq!(nobody.mount(directory(), volume(), ""), Err(MountError::NoHandler));
    assert!(nobody.root.is_none() && nobody.volumes.is_empty());
    let mut empty = self::mounts(vec![]);
    assert_eq!(empty.mount(Place::Root, volume(), ""), Err(MountError::NoHandler));
}

#[test]
fn volumes_are_mounted_at_directories() {
    let mut mounts = mounts(vec![driver("ramfs", 1)]);
    assert_eq!(mounts.mount(Place::Node(None), volume(), "ramfs"), Err(MountError::InvalidMountpoint));
    let file = Place::Node(Some(Node { dir: false, mounted: None, takes_mounts: true }));
    assert_eq!(mounts.mount(file, volume(), "ramfs"), Err(MountError::InvalidMountpoint));
    let taken = Place::Node(Some(Node { dir: true, mounted: Some(3), takes_mounts: true }));
    assert_eq!(mounts.mount(taken, volume(), "ramfs"), Err(MountError::MountpointUsed));
    assert!(mounts.volumes.is_empty());

    assert_eq!(mounts.mount(directory(), volume(), "ramfs"), Ok(()));
    assert_eq!(mounts.mount(directory(), volume(), ""), Ok(()));
    assert_eq!(mounts.volumes.len(), 2);
    // the file system knows the number of its volume, the node the handle
    assert_eq!(mounts.volumes[0].fs, Some(Tagged("ramfs", 0)));
    assert_eq!(mounts.volumes[0].mountpoint_node.mounted, Some(1));
    assert_eq!(mounts.volumes[1].fs, Some(Tagged("ramfs", 1)));
    assert_eq!(mounts.volumes[1].mountpoint_node.mounted, Some(2));
    assert!(mounts.root.is_none());
    assert_eq!(mounts.fs_of(&Handle::from_id(2, mounts.volumes.len())), &Tagged("ramfs", 1));
    assert_eq!(mounts.mount(Place::Root, volume(), "ramfs"), Ok(()));
    assert_eq!(mounts.fs_of(&Handle::from_id(0, mounts.volumes.len())), &Tagged("ramfs", 0));
    assert_eq!(Handle(1).root_inode(mounts.fs_of(&Handle(1))), 0);

    // a node that turns the volume down in the end
    let racing = Place::Node(Some(Node { dir: true, mounted: None, takes_mounts: false }));
    assert_eq!(mounts.mount(racing, volume(), "ramfs"), Err(MountError::MountpointUsed));
    assert_eq!(mounts.volumes.len(), 2);
}

#[test]
fn failing_driver_leaves_its_place_behind() {
    let mut mounts = mounts(vec![Fixed { tag: "bad", strength: Ok(1), mounts: false }]);
    assert_eq!(mounts.mount(Place::Root, volume(), "bad"), Err(MountError::CallFailed));
    assert!(mounts.root.is_none() && mounts.volumes.is_empty());
    assert_eq!(mounts.mount(directory(), volume(), "bad"), Err(MountError::CallFailed));
    assert_eq!(mounts.volumes.len(), 1);
    assert_eq!(mounts.volumes[0].fs, None);
    assert_eq!(mounts.volumes[0].mountpoint_node.mounted, None);
    assert_eq!(MountError::CallFailed.message(), "Driver's mount call failed");
}

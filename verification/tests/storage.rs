use rucore::ata::AtaVolume;
use rucore::metadevs::storage::{IoError, PhysicalRegion, VolOpenError};
use rucore::vfs::mount::{Filesystem, NodeKind};
use rucore::vfs::ramfs::{same_bytes, DiskMap, Extent, NodeType, RamFS, RamFileFile};
use rucore::vfs::Error;
use rucore::metadevs::volumes::{takes_over, FallbackMapper, FoundVolume, Mapper, PhysicalVolume, Volumes};

/// A disk with a name, blocks of 512 bytes and, where a medium is in it,
/// a capacity.
struct Disk {
    name: &'static str,
    capacity: Option<u64>,
}

impl PhysicalVolume for Disk {
    fn name(&self) -> &str {
        self.name
    }

    fn blocksize(&self) -> usize {
        512
    }

    fn capacity(&self) -> Option<u64> {
        self.capacity
    }
}

/// A mapper that handles the disks whose names start with `prefix`, with
/// the level `level`, and finds the same partitions on each.
struct Partitions {
    prefix: &'static str,
    level: Result<usize, IoError>,
    parts: Vec<(&'static str, u64, u64)>,
}

impl Mapper<Disk> for Partitions {
    fn name(&self) -> &str {
        self.prefix
    }

    fn handles_pv(&self, pv: &Disk) -> Result<usize, IoError> {
        if pv.name.starts_with(self.prefix) {
            self.level
        } else {
            Ok(0)
        }
    }

    fn enum_volumes(&self, _pv: &Disk) -> (Vec<FoundVolume>, Result<(), IoError>) {
        let found =
            self.parts.iter().map(|&(name, base, len)| FoundVolume { name: name.to_string(), base, len }).collect();
        (found, Ok(()))
    }
}

fn partitions(prefix: &'static str, level: usize, parts: &[(&'static str, u64, u64)]) -> Partitions {
    Partitions { prefix, level: Ok(level), parts: parts.to_vec() }
}

fn names(list: Vec<(usize, String)>) -> Vec<(usize, String)> {
    list
}

fn lv(index: usize, name: &str) -> (usize, String) {
    (index, name.to_string())
}

#[test]
fn whole_disk_is_one_volume_without_a_mapper() {
    let mut volumes: Volumes<AtaVolume, Partitions2> = Volumes::new();
    let registration = volumes.register_pv(AtaVolume::new("sata".to_string(), 0, 2048));
    assert_eq!(registration.idx, 0);
    assert_eq!(volumes.next_pv_idx, 1);
    assert_eq!(names(volumes.enum_pvs()), vec![lv(0, "sata")]);
    assert_eq!(names(volumes.enum_lvs()), vec![lv(0, "sataw")]);
    assert_eq!(volumes.physical_volumes[0].mapper, Some((0, None)));
    let volume = &volumes.logical_volumes[0];
    assert_eq!(volume.block_size, 128);
    assert_eq!(volume.chunk_size, None);
    assert!(!volume.is_opened);
    assert_eq!(volume.regions, vec![PhysicalRegion { volume: 0, block_count: 2048, first_block: 0 }]);
}

/// A mapper of ATA disks that handles none.
struct Partitions2;

impl Mapper<AtaVolume> for Partitions2 {
    fn name(&self) -> &str {
        "none"
    }

    fn handles_pv(&self, _pv: &AtaVolume) -> Result<usize, IoError> {
        Ok(0)
    }

    fn enum_volumes(&self, _pv: &AtaVolume) -> (Vec<FoundVolume>, Result<(), IoError>) {
        (Vec::new(), Ok(()))
    }
}

#[test]
fn fallback_mapper_handles_nothing_and_shows_the_whole_volume() {
    let disk = Disk { name: "hda", capacity: Some(100) };
    assert_eq!(FallbackMapper.handles_pv(&disk), Ok(0));
    let (found, result) = FallbackMapper.enum_volumes(&disk);
    assert_eq!(result, Ok(()));
    assert_eq!(found.len(), 1);
    assert_eq!((found[0].name.as_str(), found[0].base, found[0].len), ("hdaw", 0, 100));
    let empty = Disk { name: "cd", capacity: None };
    assert!(FallbackMapper.enum_volumes(&empty).0.is_empty());
    assert!(FallbackMapper::whole("cd", None).is_empty());
    assert_eq!(FallbackMapper::whole("sr", Some(7))[0].name, "srw");
    assert_eq!(Mapper::<Disk>::name(&FallbackMapper), "fallback");
}

#[test]
fn disk_without_medium_has_no_volume() {
    let mut volumes: Volumes<Disk, Partitions> = Volumes::new();
    volumes.register_mapper(partitions("cd", 2, &[("track", 0, 10)]));
    let registration = volumes.register_pv(Disk { name: "cd0", capacity: None });
    assert_eq!(registration.idx, 0);
    // no mapper is asked, so the fallback mapper binds the disk
    assert_eq!(volumes.physical_volumes[0].mapper, Some((0, None)));
    assert!(volumes.enum_lvs().is_empty());
}

#[test]
fn best_mapper_binds_a_new_disk() {
    let mut volumes: Volumes<Disk, Partitions> = Volumes::new();
    volumes.register_mapper(partitions("hd", 1, &[("weak", 0, 50)]));
    volumes.register_mapper(partitions("hd", 2, &[("a", 0, 50), ("b", 50, 30)]));
    volumes.register_mapper(partitions("hd", 2, &[("late", 0, 80)]));
    volumes.register_mapper(Partitions { prefix: "hd", level: Err(IoError::Timeout), parts: Vec::new() });
    volumes.register_mapper(partitions("sd", 3, &[("other", 0, 80)]));
    let registration = volumes.register_pv(Disk { name: "hda", capacity: Some(80) });
    assert_eq!(registration.idx, 0);
    // the first of the two mappers with the highest level
    assert_eq!(volumes.physical_volumes[0].mapper, Some((2, Some(1))));
    assert_eq!(names(volumes.enum_lvs()), vec![lv(0, "a"), lv(1, "b")]);
    assert_eq!(
        volumes.logical_volumes[1].regions,
        vec![PhysicalRegion { volume: 0, block_count: 30, first_block: 50 }]
    );
    assert_eq!(volumes.logical_volumes[1].block_size, 512);
    assert_eq!(volumes.next_lv_idx, 2);
}

#[test]
fn stronger_mapper_takes_a_disk_over() {
    let mut volumes: Volumes<Disk, Partitions> = Volumes::new();
    volumes.register_pv(Disk { name: "hda", capacity: Some(80) });
    volumes.register_pv(Disk { name: "sda", capacity: Some(40) });
    assert_eq!(names(volumes.enum_pvs()), vec![lv(0, "hda"), lv(1, "sda")]);
    assert_eq!(names(volumes.enum_lvs()), vec![lv(0, "hdaw"), lv(1, "sdaw")]);

    // A mapper that handles the first disk replaces the fallback mapper
    // there: the volume of the whole disk goes, the partitions come.
    volumes.register_mapper(partitions("hd", 1, &[("a", 0, 50), ("b", 50, 30)]));
    assert_eq!(volumes.physical_volumes[0].mapper, Some((1, Some(0))));
    assert_eq!(volumes.physical_volumes[1].mapper, Some((0, None)));
    assert_eq!(names(volumes.enum_lvs()), vec![lv(1, "sdaw"), lv(2, "a"), lv(3, "b")]);

    // A mapper with the same level changes nothing, nor does a weaker one.
    volumes.register_mapper(partitions("hd", 1, &[("same", 0, 80)]));
    assert_eq!(volumes.physical_volumes[0].mapper, Some((1, Some(0))));
    assert_eq!(names(volumes.enum_lvs()), vec![lv(1, "sdaw"), lv(2, "a"), lv(3, "b")]);

    // A stronger one takes over.
    volumes.register_mapper(partitions("hd", 5, &[("all", 0, 80)]));
    assert_eq!(volumes.physical_volumes[0].mapper, Some((5, Some(2))));
    assert_eq!(names(volumes.enum_lvs()), vec![lv(1, "sdaw"), lv(4, "all")]);
    assert_eq!(volumes.next_lv_idx, 5);
}

#[test]
fn opened_volumes_keep_their_mapping() {
    let mut volumes: Volumes<Disk, Partitions> = Volumes::new();
    volumes.register_pv(Disk { name: "hda", capacity: Some(80) });
    volumes.register_mapper(partitions("hd", 1, &[("a", 0, 80)]));
    assert_eq!(names(volumes.enum_lvs()), vec![lv(1, "a")]);
    volumes.logical_volumes[0].is_opened = true;
    volumes.register_mapper(partitions("hd", 2, &[("b", 0, 80)]));
    assert_eq!(volumes.physical_volumes[0].mapper, Some((1, Some(0))));
    assert_eq!(names(volumes.enum_lvs()), vec![lv(1, "a")]);
    // applying by hand goes the same way
    volumes.apply_mapper_to_pv(None, 0, 0);
    assert_eq!(volumes.physical_volumes[0].mapper, Some((1, Some(0))));
    assert!(!volumes.unbind(0));
    volumes.logical_volumes[0].is_opened = false;
    volumes.apply_mapper_to_pv(None, 0, 0);
    assert_eq!(volumes.physical_volumes[0].mapper, Some((0, None)));
    assert_eq!(names(volumes.enum_lvs()), vec![lv(2, "hdaw")]);
    // freeing and binding, step by step
    assert!(volumes.unbind(0));
    assert_eq!(volumes.physical_volumes[0].mapper, None);
    assert!(volumes.enum_lvs().is_empty());
    let found = vec![
        FoundVolume { name: "x".to_string(), base: 8, len: 16 },
        FoundVolume { name: "y".to_string(), base: 24, len: 1 },
    ];
    volumes.bind(Some(1), 9, 0, &found, 4096);
    assert_eq!(volumes.physical_volumes[0].mapper, Some((9, Some(1))));
    assert_eq!(names(volumes.enum_lvs()), vec![lv(3, "x"), lv(4, "y")]);
    assert_eq!(volumes.logical_volumes[0].block_size, 4096);
    assert_eq!(
        volumes.logical_volumes[0].regions,
        vec![PhysicalRegion { volume: 0, block_count: 16, first_block: 8 }]
    );
}

#[test]
fn mappers_take_over_with_a_higher_level_only() {
    assert_eq!(takes_over(None, true, Ok(1)), Some(1));
    assert_eq!(takes_over(None, true, Ok(0)), None);
    assert_eq!(takes_over(None, false, Ok(3)), None);
    assert_eq!(takes_over(None, true, Err(IoError::NoMedium)), None);
    assert_eq!(takes_over(Some((2, Some(0))), true, Ok(2)), None);
    assert_eq!(takes_over(Some((2, Some(0))), true, Ok(1)), None);
    assert_eq!(takes_over(Some((2, Some(0))), true, Ok(3)), Some(3));
    assert_eq!(takes_over(Some((0, None)), true, Ok(1)), Some(1));
}

#[test]
fn volumes_are_opened_by_name_once() {
    let mut volumes: Volumes<Disk, Partitions> = Volumes::new();
    volumes.register_mapper(partitions("hd", 1, &[("a", 0, 50), ("b", 50, 30)]));
    volumes.register_pv(Disk { name: "hda", capacity: Some(80) });
    assert_eq!(volumes.open_named("c").err(), Some(VolOpenError::NotFound));
    assert_eq!(volumes.open_idx(7).err(), Some(VolOpenError::NotFound));
    let handle = volumes.open_named("b").ok().unwrap();
    assert_eq!((handle.idx(), handle.name(), handle.block_size()), (1, "b", 512));
    assert_eq!(handle.handle.regions, vec![PhysicalRegion { volume: 0, block_count: 30, first_block: 50 }]);
    assert!(volumes.holds(1));
    assert!(!volumes.holds(0));
    assert_eq!(volumes.open_named("b").err(), Some(VolOpenError::Locked));
    assert!(volumes.open_named("a").is_ok());
    volumes.close(handle);
    assert!(!volumes.holds(1));
    assert!(volumes.open_named("b").is_ok());
}

#[test]
fn new_volumes_take_the_next_number() {
    let mut volumes: Volumes<Disk, Partitions> = Volumes::new();
    volumes.new_simple_lv("first".to_string(), 3, 512, 10, 20);
    volumes.next_lv_idx = usize::MAX;
    volumes.new_simple_lv("last".to_string(), 3, 512, 30, 5);
    assert_eq!(names(volumes.enum_lvs()), vec![lv(0, "first"), lv(usize::MAX, "last")]);
    // the numbers start over behind the largest
    assert_eq!(volumes.next_lv_idx, 0);
}

#[test]
fn file_system_starts_with_its_root() {
    let fs = RamFS::mount();
    assert_eq!(fs.root_inode(), 0);
    assert_eq!(fs.get_node_by_inode(0), Some(NodeKind::Dir));
    assert_eq!(fs.get_node_by_inode(1), None);
    assert_eq!(fs.lookup(0, b"etc"), Err(Error::NotFound));
    assert!(fs.nodes[0].dir().ents.is_empty());
}

#[test]
fn nodes_are_made_under_names() {
    let mut fs = RamFS::mount();
    assert_eq!(fs.create(0, b"etc", NodeType::Dir), Ok(1));
    assert_eq!(fs.create(0, b"boot.cfg", NodeType::File), Ok(2));
    assert_eq!(fs.create(1, b"motd", NodeType::Symlink(b"/boot.cfg".to_vec())), Ok(3));
    // a name is taken once in a directory, and free in another
    assert_eq!(fs.create(0, b"etc", NodeType::File), Err(Error::AlreadyExists));
    assert_eq!(fs.nodes.len(), 4);
    assert_eq!(fs.create(1, b"etc", NodeType::File), Ok(4));

    assert_eq!(fs.lookup(0, b"etc"), Ok(1));
    assert_eq!(fs.lookup(0, b"boot.cfg"), Ok(2));
    assert_eq!(fs.lookup(0, b"boot"), Err(Error::NotFound));
    assert_eq!(fs.lookup(0, b"motd"), Err(Error::NotFound));
    assert_eq!(fs.lookup(1, b"motd"), Ok(3));
    assert_eq!(fs.lookup(1, b"etc"), Ok(4));

    assert_eq!(fs.kind_of(1), Some(NodeKind::Dir));
    assert_eq!(fs.kind_of(2), Some(NodeKind::File));
    assert_eq!(fs.kind_of(3), Some(NodeKind::Symlink));
    assert_eq!(fs.kind_of(5), None);
    assert_eq!(*fs.nodes[2].file(), RamFileFile { ofs: 0, size: 0 });
    assert_eq!(fs.nodes[3].symlink().target, b"/boot.cfg".to_vec());
    assert_eq!(fs.nodes[1].dir().lookup(b"motd"), Ok(3));
    assert!(same_bytes(b"abc", b"abc"));
    assert!(!same_bytes(b"abc", b"abd"));
    assert!(!same_bytes(b"abc", b"ab"));
}

#[test]
fn written_files_get_their_run_on_the_disk() {
    let mut disk = DiskMap::new();
    let mut first = RamFileFile { ofs: 0, size: 0 };
    let mut second = RamFileFile { ofs: 0, size: 0 };
    // 300 words fill two sectors of 128 words, and a part of a third
    assert_eq!(first.mut_write(&mut disk, 1, 300), (0, 2));
    assert_eq!(first, RamFileFile { ofs: 0, size: 300 });
    assert_eq!(second.mut_write(&mut disk, 2, 128), (300, 1));
    assert_eq!(second, RamFileFile { ofs: 300, size: 128 });
    // Written again, the file gives its run up and gets a new one: behind
    // the run of the file with the lowest number behind which it fits.
    assert_eq!(first.mut_write(&mut disk, 1, 10), (428, 0));
    assert_eq!(first, RamFileFile { ofs: 428, size: 10 });
    assert_eq!(disk.get(1), Some(Extent { id: 1, ofs: 428, len: 10 }));
    assert_eq!(disk.get(2), Some(Extent { id: 2, ofs: 300, len: 128 }));
}

//! The volumes that the storage subsystem knows of: the physical volumes
//! that were registered, the mappers that find logical volumes on them,
//! and the logical volumes that were found.

use vstd::prelude::*;
use super::storage::{
    best_mapper, IoError, LogicalVolume, PhysicalRegion, PhysicalVolumeReg, VolOpenError,
    VolumeHandle,
};

verus! {

/// A storage device, as far as the bookkeeping of volumes asks.
pub trait PhysicalVolume {
    /// Returns the volume name (must be unique to the system).
    fn name(&self) -> &str;

    /// Returns the size of a filesystem block, must be a power of two >512.
    fn blocksize(&self) -> usize;

    /// Returns the number of blocks in this volume, `None` where there is
    /// no medium in the drive.
    fn capacity(&self) -> Option<u64>;
}

/// A logical volume that a mapper found on a physical volume: its name,
/// its first block and its number of blocks.
pub struct FoundVolume {
    pub name: String,
    pub base: u64,
    pub len: u64,
}

/// What a mapper found on a physical volume, as values.
pub open spec fn found_views(found: Seq<FoundVolume>) -> Seq<(Seq<char>, u64, u64)> {
    Seq::new(found.len(), |i: int| (found[i].name@, found[i].base, found[i].len))
}

/// Something that finds logical volumes on physical volumes: a reader of
/// partition tables, say.
pub trait Mapper<V: PhysicalVolume> {
    /// Returns the name of the mapper.
    fn name(&self) -> &str;

    /// Returns the binding strength of this mapper.
    ///
    /// Levels are: 0 = doesn't handle, 1 = weak binding, 2 = strong
    /// binding. A higher level wins.
    fn handles_pv(&self, pv: &V) -> Result<usize, IoError>;

    /// Lists the volumes on `pv`. The second result says whether the
    /// listing came to its end; the volumes found before an error count.
    fn enum_volumes(&self, pv: &V) -> (Vec<FoundVolume>, Result<(), IoError>);
}

/// The mapper that is used where no other handles a volume: it shows the
/// whole volume as one logical volume, named like the physical one with a
/// `w` added.
pub struct FallbackMapper;

/// What the fallback mapper finds on a volume with the given name and
/// capacity.
pub open spec fn whole_volume(name: Seq<char>, capacity: Option<u64>) -> Seq<(Seq<char>, u64, u64)> {
    match capacity {
        Some(cap) => seq![(name.push('w'), 0u64, cap)],
        None => Seq::empty(),
    }
}

/// Calls std's `format!` with a template of two places and the two strings.
///
/// The contract claims what the documentation of `format!` says of such a
/// template: the result holds the characters of the first string and then
/// those of the second, and nothing else.
#[verifier::external_body]
fn joined(first: &str, second: &str) -> (result: String)
    ensures
        result@ == first@ + second@,
{
    format!("{}{}", first, second)
}

impl FallbackMapper {
    /// The volumes that the fallback mapper shows of a volume with the
    /// given name and capacity: all of it as one, or nothing where no medium
    /// is there.
    pub fn whole(name: &str, capacity: Option<u64>) -> (found: Vec<FoundVolume>)
        ensures
            found_views(found@) == whole_volume(name@, capacity),
    {
        let mut found: Vec<FoundVolume> = Vec::new();
        match capacity {
            Some(cap) => {
                proof {
                    reveal_strlit("w");
                    assert(name@ + "w"@ =~= name@.push('w'));
                }
                found.push(FoundVolume { name: joined(name, "w"), base: 0, len: cap });
            },
            None => {},
        }
        assert(found_views(found@) =~= whole_volume(name@, capacity));
        found
    }
}

impl<V: PhysicalVolume> Mapper<V> for FallbackMapper {
    /// The fallback mapper is called `fallback`.
    fn name(&self) -> (name: &str)
        returns
            "fallback",
    {
        "fallback"
    }

    /// The fallback mapper never explicitly handles.
    fn handles_pv(&self, pv: &V) -> (level: Result<usize, IoError>)
        ensures
            level == Ok::<usize, IoError>(0),
    {
        Ok(0)
    }

    /// Asks the volume for its name and its capacity and shows all of it
    /// as one volume, as `whole` does with what the volume answers. The
    /// listing always comes to its end.
    fn enum_volumes(&self, pv: &V) -> (found: (Vec<FoundVolume>, Result<(), IoError>))
        ensures
            found.1 == Ok::<(), IoError>(()),
            exists|name: Seq<char>, capacity: Option<u64>|
                found_views(found.0@) == #[trigger] whole_volume(name, capacity),
    {
        let name = pv.name();
        let capacity = pv.capacity();
        let found = FallbackMapper::whole(name, capacity);
        assert(found_views(found@) == whole_volume(name@, capacity));
        (found, Ok(()))
    }
}

/// A logical volume as a value.
pub struct VolumeView {
    pub index: usize,
    pub name: Seq<char>,
    pub is_opened: bool,
    pub block_size: usize,
    pub chunk_size: Option<usize>,
    pub regions: Seq<PhysicalRegion>,
}

/// The logical volume `lv` as a value.
pub open spec fn view_of(lv: LogicalVolume) -> VolumeView {
    VolumeView {
        index: lv.index,
        name: lv.name@,
        is_opened: lv.is_opened,
        block_size: lv.block_size,
        chunk_size: lv.chunk_size,
        regions: lv.regions@,
    }
}

/// The logical volumes `lvs` as values.
pub open spec fn views_of(lvs: Seq<LogicalVolume>) -> Seq<VolumeView> {
    Seq::new(lvs.len(), |i: int| view_of(lvs[i]))
}

/// The logical volume that takes `size` blocks from the block `base` on of
/// the physical volume `pv_id`.
pub open spec fn simple_lv(index: usize, name: Seq<char>, pv_id: usize, block_size: usize, base: u64, size: u64) -> VolumeView {
    VolumeView {
        index,
        name,
        is_opened: false,
        block_size,
        chunk_size: None,
        regions: seq![PhysicalRegion { volume: pv_id, block_count: size as usize, first_block: base }],
    }
}

/// The logical volume lies, with one of its regions, on the physical
/// volume `pv_id`.
pub open spec fn lies_on(lv: VolumeView, pv_id: usize) -> bool {
    exists|r: int| 0 <= r < lv.regions.len() && (#[trigger] lv.regions[r]).volume == pv_id
}

/// One of the logical volumes on the physical volume `pv_id` is opened.
pub open spec fn any_opened(lvs: Seq<VolumeView>, pv_id: usize) -> bool {
    exists|i: int| 0 <= i < lvs.len() && lies_on(#[trigger] lvs[i], pv_id) && lvs[i].is_opened
}

/// The logical volumes without those on the physical volume `pv_id`, in
/// their order.
pub open spec fn without(lvs: Seq<VolumeView>, pv_id: usize) -> Seq<VolumeView>
    decreases lvs.len(),
{
    if lvs.len() == 0 {
        lvs
    } else if lies_on(lvs[0], pv_id) {
        without(lvs.drop_first(), pv_id)
    } else {
        seq![lvs[0]] + without(lvs.drop_first(), pv_id)
    }
}

/// The logical volumes, and the next free number, after those that a
/// mapper found on the physical volume `pv_id` were added in the order in
/// which they were found, each under the next free number. A volume whose
/// blocks the machine cannot count is left out.
pub open spec fn with_found(
    lvs: Seq<VolumeView>,
    next: usize,
    found: Seq<(Seq<char>, u64, u64)>,
    pv_id: usize,
    block_size: usize,
) -> (Seq<VolumeView>, usize)
    decreases found.len(),
{
    if found.len() == 0 {
        (lvs, next)
    } else if found[0].2 <= usize::MAX {
        with_found(
            lvs.push(simple_lv(next, found[0].0, pv_id, block_size, found[0].1, found[0].2)),
            wrapping_next(next),
            found.drop_first(),
            pv_id,
            block_size,
        )
    } else {
        with_found(lvs, next, found.drop_first(), pv_id, block_size)
    }
}

/// Whether the logical volume lies, with one of its regions, on the
/// physical volume `pv_id`.
pub fn is_on(lv: &LogicalVolume, pv_id: usize) -> (on: bool)
    ensures
        on == lies_on(view_of(*lv), pv_id),
{
    let mut r: usize = 0;
    while r < lv.regions.len()
        invariant
            r <= lv.regions@.len(),
            forall|k: int| 0 <= k < r ==> (#[trigger] lv.regions@[k]).volume != pv_id,
        decreases lv.regions@.len() - r,
    {
        if lv.regions[r].volume == pv_id {
            assert(view_of(*lv).regions[r as int].volume == pv_id);
            return true;
        }
        r += 1;
    }
    false
}

/// A single physical volume: its number, the device, and the mapper that
/// binds it, as the level with which it does and its place among the
/// mappers. The fallback mapper has no place there.
pub struct BoundVolume<V> {
    pub id: usize,
    pub dev: V,
    pub mapper: Option<(usize, Option<usize>)>,
}

/// The volumes and mappers of the storage subsystem.
pub struct Volumes<V: PhysicalVolume, M: Mapper<V>> {
    pub next_pv_idx: usize,
    pub physical_volumes: Vec<BoundVolume<V>>,
    pub next_lv_idx: usize,
    pub logical_volumes: Vec<LogicalVolume>,
    pub mappers: Vec<M>,
    /// The numbers of the logical volumes to which a handle is out.
    pub handed_out: Vec<usize>,
}

/// The volumes and mappers of the storage subsystem as values.
pub struct StorageView<V, M> {
    pub next_pv_idx: usize,
    pub pvs: Seq<BoundVolume<V>>,
    pub next_lv_idx: usize,
    pub lvs: Seq<VolumeView>,
    pub mappers: Seq<M>,
    pub handed_out: Seq<usize>,
}

/// The state after the physical volume at the place `p` was freed of its
/// mapper, or `None` where it cannot be freed: where a mapper binds the
/// volume and one of the logical volumes on it is opened. Else the logical
/// volumes on it go with the mapper.
pub open spec fn unbound<V, M>(s: StorageView<V, M>, p: int) -> Option<StorageView<V, M>> {
    let pv = s.pvs[p];
    if pv.mapper.is_none() {
        Some(s)
    } else if any_opened(s.lvs, pv.id) {
        None
    } else {
        Some(
            StorageView {
                pvs: s.pvs.update(p, BoundVolume { mapper: None, ..pv }),
                lvs: without(s.lvs, pv.id),
                ..s
            },
        )
    }
}

/// The state after a mapper was bound, with the level `level`, to the
/// physical volume at the place `p`, on which it found the volumes `found`
/// with blocks of `block_size` bytes: they are added to the logical
/// volumes.
pub open spec fn bound<V, M>(
    s: StorageView<V, M>,
    mapper: Option<usize>,
    level: usize,
    p: int,
    found: Seq<(Seq<char>, u64, u64)>,
    block_size: usize,
) -> StorageView<V, M> {
    let pv = s.pvs[p];
    let added = with_found(s.lvs, s.next_lv_idx, found, pv.id, block_size);
    StorageView {
        pvs: s.pvs.update(p, BoundVolume { mapper: Some((level, mapper)), ..pv }),
        lvs: added.0,
        next_lv_idx: added.1,
        ..s
    }
}

/// The state after the device `dev` was put behind the other physical
/// volumes, under the next free number and bound by no mapper.
pub open spec fn inserted<V, M>(s: StorageView<V, M>, dev: V) -> StorageView<V, M> {
    StorageView {
        next_pv_idx: wrapping_next(s.next_pv_idx),
        pvs: s.pvs.push(BoundVolume { id: s.next_pv_idx, dev, mapper: None }),
        ..s
    }
}

/// The level with which a mapper that was registered takes over a physical
/// volume, where it does: the volume has a medium, the mapper handles it,
/// and no mapper binds it with the same level or a higher one.
pub open spec fn taking_over(
    binding: Option<(usize, Option<usize>)>,
    has_medium: bool,
    level: Result<usize, IoError>,
) -> Option<usize> {
    match level {
        Ok(l) => if has_medium && l > 0 && (binding matches Some((b, _)) ==> b < l) {
            Some(l)
        } else {
            None
        },
        Err(_) => None,
    }
}

/// The binding `after` is that of the mapper at the place `m`, with a
/// level that is higher than that of the binding `before`.
pub open spec fn taken_over(
    before: Option<(usize, Option<usize>)>,
    after: Option<(usize, Option<usize>)>,
    m: usize,
) -> bool {
    after matches Some((level, who)) && who == Some(m) && level > 0 && (before matches Some((b, _)) ==> b
        < level)
}

/// Whether, and with which level, a mapper that was registered takes over
/// a physical volume with the binding `binding`, of which it says `level`.
pub fn takes_over(binding: Option<(usize, Option<usize>)>, has_medium: bool, level: Result<usize, IoError>) -> (result:
    Option<usize>)
    ensures
        result == taking_over(binding, has_medium, level),
{
    if !has_medium {
        // No media, skip
        return None;
    }
    match level {
        Err(_) => None,
        // Ignore
        Ok(0) => None,
        Ok(level) => match binding {
            Some((lvl, _)) => {
                if lvl >= level {
                    // fight, or already better
                    None
                } else {
                    // Replace
                    Some(level)
                }
            },
            None => Some(level),
        },
    }
}

/// The place of the first logical volume with the name `name`.
pub open spec fn first_named(lvs: Seq<VolumeView>, name: Seq<char>) -> Option<int> {
    if exists|i: int| 0 <= i < lvs.len() && (#[trigger] lvs[i]).name == name {
        let i = choose|i: int|
            0 <= i < lvs.len() && (#[trigger] lvs[i]).name == name && forall|k: int|
                0 <= k < i ==> (#[trigger] lvs[k]).name != name;
        Some(i)
    } else {
        None
    }
}

/// The number that follows `n`, starting over behind the largest.
pub open spec fn wrapping_next(n: usize) -> usize {
    if n == usize::MAX {
        0
    } else {
        (n + 1) as usize
    }
}

impl<V: PhysicalVolume, M: Mapper<V>> Volumes<V, M> {
    /// The logical volumes as values.
    pub open spec fn lvs(&self) -> Seq<VolumeView> {
        views_of(self.logical_volumes@)
    }

    /// The volumes and mappers as values.
    pub open spec fn view(&self) -> StorageView<V, M> {
        StorageView {
            next_pv_idx: self.next_pv_idx,
            pvs: self.physical_volumes@,
            next_lv_idx: self.next_lv_idx,
            lvs: self.lvs(),
            mappers: self.mappers@,
            handed_out: self.handed_out@,
        }
    }

    /// Every physical volume is bound by the fallback mapper or by a
    /// mapper that is there.
    pub open spec fn wf(&self) -> bool {
        forall|i: int|
            0 <= i < self.physical_volumes@.len() ==> (
            #[trigger] self.physical_volumes@[i].mapper matches Some((_, Some(m))) ==> m
                < self.mappers@.len())
    }

    /// No volume and no mapper.
    pub fn new() -> (volumes: Self)
        ensures
            volumes.wf(),
            volumes.next_pv_idx == 0,
            volumes.next_lv_idx == 0,
            volumes.physical_volumes@.len() == 0,
            volumes.logical_volumes@.len() == 0,
            volumes.mappers@.len() == 0,
            volumes.handed_out@.len() == 0,
    {
        Volumes {
            next_pv_idx: 0,
            physical_volumes: Vec::new(),
            next_lv_idx: 0,
            logical_volumes: Vec::new(),
            mappers: Vec::new(),
            handed_out: Vec::new(),
        }
    }

    /// Adds the logical volume that takes `size` blocks from the block
    /// `base` on of the physical volume `pv_id`, under the next free
    /// number.
    pub fn new_simple_lv(&mut self, name: String, pv_id: usize, block_size: usize, base: u64, size: u64)
        requires
            size <= usize::MAX,
        ensures
            final(self).lvs() == old(self).lvs().push(
                simple_lv(old(self).next_lv_idx, name@, pv_id, block_size, base, size),
            ),
            final(self).next_lv_idx == wrapping_next(old(self).next_lv_idx),
            final(self).next_pv_idx == old(self).next_pv_idx,
            final(self).physical_volumes == old(self).physical_volumes,
            final(self).mappers == old(self).mappers,
            final(self).handed_out == old(self).handed_out,
    {
        let lvidx = self.next_lv_idx;
        self.next_lv_idx = if lvidx == usize::MAX {
            0
        } else {
            lvidx + 1
        };
        let mut regions: Vec<PhysicalRegion> = Vec::new();
        regions.push(PhysicalRegion { volume: pv_id, block_count: size as usize, first_block: base });
        let lv = LogicalVolume {
            index: lvidx,
            name: name,
            is_opened: false,
            block_size: block_size,
            chunk_size: None,
            regions,
        };
        assert(view_of(lv).regions =~= simple_lv(lvidx, name@, pv_id, block_size, base, size).regions);
        // Add to the list
        self.logical_volumes.push(lv);
        assert(self.lvs() =~= old(self).lvs().push(
            simple_lv(old(self).next_lv_idx, name@, pv_id, block_size, base, size),
        ));
    }

    /// Whether one of the logical volumes on the physical volume `pv_id`
    /// is opened.
    fn any_opened_on(&self, pv_id: usize) -> (opened: bool)
        ensures
            opened == any_opened(self.lvs(), pv_id),
    {
        let mut i: usize = 0;
        while i < self.logical_volumes.len()
            invariant
                i <= self.logical_volumes@.len(),
                forall|k: int|
                    0 <= k < i ==> !(lies_on(#[trigger] self.lvs()[k], pv_id) && self.lvs()[k].is_opened),
            decreases self.logical_volumes@.len() - i,
        {
            if is_on(&self.logical_volumes[i], pv_id) && self.logical_volumes[i].is_opened {
                assert(lies_on(self.lvs()[i as int], pv_id) && self.lvs()[i as int].is_opened);
                return true;
            }
            i += 1;
        }
        false
    }

    /// Drops the logical volumes on the physical volume `pv_id`.
    fn remove_lvs_on(&mut self, pv_id: usize)
        ensures
            final(self).lvs() == without(old(self).lvs(), pv_id),
            final(self).next_lv_idx == old(self).next_lv_idx,
            final(self).next_pv_idx == old(self).next_pv_idx,
            final(self).physical_volumes == old(self).physical_volumes,
            final(self).mappers == old(self).mappers,
            final(self).handed_out == old(self).handed_out,
    {
        let mut rest: Vec<LogicalVolume> = Vec::new();
        core::mem::swap(&mut self.logical_volumes, &mut rest);
        let ghost all = views_of(rest@);
        assert(self.lvs() =~= Seq::<VolumeView>::empty());
        assert(without(all, pv_id) =~= self.lvs() + without(views_of(rest@), pv_id));
        while rest.len() > 0
            invariant
                without(all, pv_id) == self.lvs() + without(views_of(rest@), pv_id),
                self.next_lv_idx == old(self).next_lv_idx,
                self.next_pv_idx == old(self).next_pv_idx,
                self.physical_volumes == old(self).physical_volumes,
                self.mappers == old(self).mappers,
                self.handed_out == old(self).handed_out,
            decreases rest@.len(),
        {
            let ghost before = views_of(rest@);
            let ghost kept = self.lvs();
            let lv = rest.remove(0);
            assert(views_of(rest@) =~= before.drop_first());
            assert(view_of(lv) == before[0]);
            if !is_on(&lv, pv_id) {
                self.logical_volumes.push(lv);
                assert(self.lvs() =~= kept + seq![before[0]]);
                assert(self.lvs() + without(views_of(rest@), pv_id) =~= kept + (seq![before[0]]
                    + without(before.drop_first(), pv_id)));
            }
        }
        assert(without(views_of(rest@), pv_id) =~= Seq::<VolumeView>::empty());
        assert(self.lvs() + Seq::<VolumeView>::empty() =~= self.lvs());
    }

    /// Adds the volumes that a mapper found on the physical volume
    /// `pv_id`, in the order in which they were found.
    fn add_found(&mut self, found: &Vec<FoundVolume>, pv_id: usize, block_size: usize)
        ensures
            (final(self).lvs(), final(self).next_lv_idx) == with_found(
                old(self).lvs(),
                old(self).next_lv_idx,
                found_views(found@),
                pv_id,
                block_size,
            ),
            final(self).next_pv_idx == old(self).next_pv_idx,
            final(self).physical_volumes == old(self).physical_volumes,
            final(self).mappers == old(self).mappers,
            final(self).handed_out == old(self).handed_out,
    {
        let ghost all = found_views(found@);
        let mut k: usize = 0;
        assert(all.subrange(0, all.len() as int) =~= all);
        while k < found.len()
            invariant
                k <= found@.len(),
                all == found_views(found@),
                with_found(old(self).lvs(), old(self).next_lv_idx, all, pv_id, block_size) == with_found(
                    self.lvs(),
                    self.next_lv_idx,
                    all.subrange(k as int, all.len() as int),
                    pv_id,
                    block_size,
                ),
                self.next_pv_idx == old(self).next_pv_idx,
                self.physical_volumes == old(self).physical_volumes,
                self.mappers == old(self).mappers,
                self.handed_out == old(self).handed_out,
            decreases found@.len() - k,
        {
            let ghost left = all.subrange(k as int, all.len() as int);
            assert(left[0] == all[k as int]);
            assert(left.drop_first() =~= all.subrange(k + 1, all.len() as int));
            let volume = &found[k];
            if volume.len <= usize::MAX as u64 {
                self.new_simple_lv(volume.name.clone(), pv_id, block_size, volume.base, volume.len);
            }
            k += 1;
        }
    }

    /// Frees the physical volume at the place `p` of its mapper and of the
    /// logical volumes on it, and says whether it is free: it is not where
    /// one of the logical volumes on it is opened.
    pub fn unbind(&mut self, p: usize) -> (free: bool)
        requires
            old(self).wf(),
            p < old(self).physical_volumes@.len(),
        ensures
            final(self).wf(),
            match unbound(old(self)@, p as int) {
                Some(s) => free && final(self)@ == s,
                None => !free && final(self)@ == old(self)@,
            },
    {
        let pv_id = self.physical_volumes[p].id;
        // 1. Determine if a previous mapper was controlling this volume
        if self.physical_volumes[p].mapper.is_some() {
            // - If logical volumes on it are opened, the mapping stays
            if self.any_opened_on(pv_id) {
                return false;
            }
            // > If none are, then remove the mappings
            self.remove_lvs_on(pv_id);
            self.physical_volumes[p].mapper = None;
            proof {
                let s = old(self)@;
                assert(self@.pvs =~= s.pvs.update(p as int, BoundVolume { mapper: None, ..s.pvs[p as int] }));
            }
        }
        true
    }

    /// Binds the mapper at the place `mapper`, or the fallback mapper where
    /// `mapper` is `None`, to the physical volume at the place `p`, and
    /// adds the volumes `found`, which the mapper found on it, to the
    /// logical volumes.
    pub fn bind(&mut self, mapper: Option<usize>, level: usize, p: usize, found: &Vec<FoundVolume>, block_size: usize)
        requires
            old(self).wf(),
            p < old(self).physical_volumes@.len(),
            mapper matches Some(m) ==> m < old(self).mappers@.len(),
        ensures
            final(self).wf(),
            final(self)@ == bound(old(self)@, mapper, level, p as int, found_views(found@), block_size),
    {
        let pv_id = self.physical_volumes[p].id;
        // - Save the mapper
        self.physical_volumes[p].mapper = Some((level, mapper));
        self.add_found(found, pv_id, block_size);
        proof {
            let s = old(self)@;
            assert(self@.pvs =~= s.pvs.update(
                p as int,
                BoundVolume { mapper: Some((level, mapper)), ..s.pvs[p as int] },
            ));
        }
    }

    /// Apply the mapper at the place `mapper`, or the fallback mapper where
    /// `mapper` is `None`, to the physical volume at the place `p`.
    ///
    /// Where the volume cannot be freed of the mapper that binds it,
    /// nothing changes. Else it is freed, the mapper is asked for the
    /// volumes on it, and is bound to it with what it answers.
    pub fn apply_mapper_to_pv(&mut self, mapper: Option<usize>, level: usize, p: usize)
        requires
            old(self).wf(),
            p < old(self).physical_volumes@.len(),
            mapper matches Some(m) ==> m < old(self).mappers@.len(),
        ensures
            final(self).wf(),
            match unbound(old(self)@, p as int) {
                Some(s) => exists|found: Seq<(Seq<char>, u64, u64)>, block_size: usize|
                    final(self)@ == bound(s, mapper, level, p as int, found, block_size),
                None => final(self)@ == old(self)@,
            },
    {
        if !self.unbind(p) {
            return ;
        }
        let ghost freed = self@;
        // 2. Bind this new mapper to the volume
        // - Enumerate volumes
        let found = match mapper {
            Some(m) => self.mappers[m].enum_volumes(&self.physical_volumes[p].dev),
            None => FallbackMapper.enum_volumes(&self.physical_volumes[p].dev),
        };
        let block_size = self.physical_volumes[p].dev.blocksize();
        self.bind(mapper, level, p, &found.0, block_size);
        assert(self@ == bound(freed, mapper, level, p as int, found_views(found.0@), block_size));
    }

    /// Puts the device `dev` behind the other physical volumes, under the
    /// next free number and bound by no mapper, and hands back its place.
    pub fn insert_pv(&mut self, dev: V) -> (p: usize)
        requires
            old(self).wf(),
        ensures
            final(self).wf(),
            p == old(self).physical_volumes@.len(),
            final(self)@ == inserted(old(self)@, dev),
    {
        let pv_id = self.next_pv_idx;
        self.next_pv_idx = if pv_id == usize::MAX {
            0
        } else {
            pv_id + 1
        };
        let p = self.physical_volumes.len();
        self.physical_volumes.push(BoundVolume { id: pv_id, dev: dev, mapper: None });
        proof {
            let s = old(self)@;
            assert(self@.pvs =~= s.pvs.push(BoundVolume { id: s.next_pv_idx, dev, mapper: None }));
            assert(self@.lvs =~= s.lvs);
        }
        p
    }

    /// Register a physical volume.
    ///
    /// Where the device has a medium, every mapper is asked whether it
    /// handles it. The device is put behind the other physical volumes, and
    /// the best of the mappers that handle it is bound to it, with the
    /// volumes that it finds; where none handles it, the fallback mapper
    /// is, with the level 0.
    pub fn register_pv(&mut self, dev: V) -> (registration: PhysicalVolumeReg)
        requires
            old(self).wf(),
        ensures
            final(self).wf(),
            registration.idx == old(self).next_pv_idx,
            exists|mapper: Option<usize>, level: usize, found: Seq<(Seq<char>, u64, u64)>, block_size: usize|
                {
                    &&& mapper matches Some(m) ==> m < old(self).mappers@.len() && level > 0
                    &&& mapper.is_none() ==> level == 0
                    &&& final(self)@ == bound(
                        inserted(old(self)@, dev),
                        mapper,
                        level,
                        old(self).physical_volumes@.len() as int,
                        found,
                        block_size,
                    )
                },
    {
        let pv_id = self.next_pv_idx;
        // Now that a new PV has been inserted, handlers should be informed
        let mut levels: Vec<Result<usize, IoError>> = Vec::new();
        // - Only try to resolve a mapper if there's media in the drive
        if dev.capacity().is_some() {
            let mut i: usize = 0;
            while i < self.mappers.len()
                invariant
                    *self == *old(self),
                    i <= self.mappers@.len(),
                    levels@.len() == i,
                decreases self.mappers@.len() - i,
            {
                levels.push(self.mappers[i].handles_pv(&dev));
                i += 1;
            }
        }
        let best = best_mapper(&levels);
        // Wait until after checking for a handler before we add the PV to
        // the list
        let p = self.insert_pv(dev);
        let ghost added = self@;
        let (mapper, level) = match best {
            Some((mapper, level)) => (Some(mapper), level),
            // Apply the fallback (full volume) mapper
            None => (None, 0),
        };
        assert(unbound(added, p as int) == Some(added));
        self.apply_mapper_to_pv(mapper, level, p);
        proof {
            let (found, block_size) = choose|found: Seq<(Seq<char>, u64, u64)>, block_size: usize|
                self@ == bound(added, mapper, level, p as int, found, block_size);
            assert(self@ == bound(inserted(old(self)@, dev), mapper, level, p as int, found, block_size));
        }
        PhysicalVolumeReg { idx: pv_id }
    }

    /// Register a mapper with the storage subsystem: it is put behind the
    /// other mappers and offered every physical volume that is there, one
    /// after the other. It takes over those for which `takes_over` says so
    /// of its answer, unless they cannot be freed.
    pub fn register_mapper(&mut self, mapper: M)
        requires
            old(self).wf(),
        ensures
            final(self).wf(),
            final(self).mappers@ == old(self).mappers@.push(mapper),
            final(self).next_pv_idx == old(self).next_pv_idx,
            final(self).handed_out@ == old(self).handed_out@,
            final(self).physical_volumes@.len() == old(self).physical_volumes@.len(),
            forall|i: int|
                0 <= i < old(self).physical_volumes@.len() ==> {
                    let before = #[trigger] old(self).physical_volumes@[i];
                    let after = final(self).physical_volumes@[i];
                    &&& after.id == before.id
                    &&& after.dev == before.dev
                    &&& after.mapper == before.mapper || taken_over(
                        before.mapper,
                        after.mapper,
                        old(self).mappers@.len() as usize,
                    )
                },
    {
        let m = self.mappers.len();
        self.mappers.push(mapper);
        // Check unbound PVs
        let mut p: usize = 0;
        while p < self.physical_volumes.len()
            invariant
                self.wf(),
                p <= self.physical_volumes@.len(),
                self.physical_volumes@.len() == old(self).physical_volumes@.len(),
                m == old(self).mappers@.len(),
                self.mappers@ == old(self).mappers@.push(mapper),
                self.next_pv_idx == old(self).next_pv_idx,
                self.handed_out@ == old(self).handed_out@,
                forall|i: int|
                    p <= i < self.physical_volumes@.len() ==> self.physical_volumes@[i] == old(self).physical_volumes@[i],
                forall|i: int|
                    0 <= i < p ==> {
                        let before = #[trigger] old(self).physical_volumes@[i];
                        let after = self.physical_volumes@[i];
                        &&& after.id == before.id
                        &&& after.dev == before.dev
                        &&& after.mapper == before.mapper || taken_over(before.mapper, after.mapper, m)
                    },
            decreases self.physical_volumes@.len() - p,
        {
            let has_medium = self.physical_volumes[p].dev.capacity().is_some();
            let answer = if has_medium {
                self.mappers[m].handles_pv(&self.physical_volumes[p].dev)
            } else {
                Ok(0)
            };
            let ghost before = self@;
            match takes_over(self.physical_volumes[p].mapper, has_medium, answer) {
                Some(level) => {
                    self.apply_mapper_to_pv(Some(m), level, p);
                    proof {
                        match unbound(before, p as int) {
                            Some(s) => {
                                let (found, block_size) = choose|
                                    found: Seq<(Seq<char>, u64, u64)>,
                                    block_size: usize,
                                |
                                    self@ == bound(s, Some(m), level, p as int, found, block_size);
                                assert(self@.pvs == s.pvs.update(
                                    p as int,
                                    BoundVolume { mapper: Some((level, Some(m))), ..s.pvs[p as int] },
                                ));
                            },
                            None => {},
                        }
                    }
                },
                None => {},
            }
            p += 1;
        }
    }

    /// Enumerate present physical volumes (returning both the identifier
    /// and name).
    pub fn enum_pvs(&self) -> (list: Vec<(usize, String)>)
        ensures
            list@.len() == self.physical_volumes@.len(),
            forall|i: int| 0 <= i < list@.len() ==> (#[trigger] list@[i]).0 == self.physical_volumes@[i].id,
    {
        let mut list: Vec<(usize, String)> = Vec::new();
        let mut i: usize = 0;
        while i < self.physical_volumes.len()
            invariant
                i <= self.physical_volumes@.len(),
                list@.len() == i,
                forall|k: int| 0 <= k < i ==> (#[trigger] list@[k]).0 == self.physical_volumes@[k].id,
            decreases self.physical_volumes@.len() - i,
        {
            let pv = &self.physical_volumes[i];
            list.push((pv.id, pv.dev.name().to_owned()));
            i += 1;
        }
        list
    }

    /// Enumerate present logical volumes (returning both the identifier
    /// and name).
    pub fn enum_lvs(&self) -> (list: Vec<(usize, String)>)
        ensures
            list@.len() == self.lvs().len(),
            forall|i: int|
                0 <= i < list@.len() ==> (#[trigger] list@[i]).0 == self.lvs()[i].index && list@[i].1@
                    == self.lvs()[i].name,
    {
        let mut list: Vec<(usize, String)> = Vec::new();
        let mut i: usize = 0;
        while i < self.logical_volumes.len()
            invariant
                i <= self.logical_volumes@.len(),
                list@.len() == i,
                forall|k: int|
                    0 <= k < i ==> (#[trigger] list@[k]).0 == self.lvs()[k].index && list@[k].1@
                        == self.lvs()[k].name,
            decreases self.logical_volumes@.len() - i,
        {
            let lv = &self.logical_volumes[i];
            list.push((lv.index, lv.name.clone()));
            i += 1;
        }
        list
    }

    /// Acquire an unique handle to the logical volume with the number
    /// `idx`. Volumes cannot be opened by their number yet: the call is
    /// for a number that no volume has, and says so.
    pub fn open_idx(&self, idx: usize) -> (result: Result<VolumeHandle, VolOpenError>)
        requires
            forall|i: int| 0 <= i < self.lvs().len() ==> (#[trigger] self.lvs()[i]).index != idx,
        ensures
            result matches Err(e) && e == VolOpenError::NotFound,
    {
        Err(VolOpenError::NotFound)
    }

    /// Acquire an unique handle to the first logical volume with the name
    /// `name`.
    ///
    /// The call fails with `NotFound` where no volume has the name, and
    /// with `Locked` where a handle to the volume is out already.
    pub fn open_named(&mut self, name: &str) -> (result: Result<VolumeHandle, VolOpenError>)
        ensures
            final(self).next_pv_idx == old(self).next_pv_idx,
            final(self).physical_volumes == old(self).physical_volumes,
            final(self).next_lv_idx == old(self).next_lv_idx,
            final(self).logical_volumes == old(self).logical_volumes,
            final(self).mappers == old(self).mappers,
            match first_named(old(self).lvs(), name@) {
                None => result matches Err(e) && e == VolOpenError::NotFound && final(self).handed_out
                    == old(self).handed_out,
                Some(i) => if old(self).handed_out@.contains(old(self).lvs()[i].index) {
                    result matches Err(e) && e == VolOpenError::Locked && final(self).handed_out == old(self).handed_out
                } else {
                    result matches Ok(handle) && view_of(handle.handle) == old(self).lvs()[i] && final(self).handed_out@ == old(self).handed_out@.push(old(self).lvs()[i].index)
                },
            },
    {
        let wanted = name.to_owned();
        let mut i: usize = 0;
        while i < self.logical_volumes.len()
            invariant
                *self == *old(self),
                wanted@ == name@,
                i <= self.logical_volumes@.len(),
                forall|k: int| 0 <= k < i ==> (#[trigger] self.lvs()[k]).name != name@,
            decreases self.logical_volumes@.len() - i,
        {
            if self.logical_volumes[i].name == wanted {
                proof {
                    assert(self.lvs()[i as int].name == name@);
                    assert(first_named(self.lvs(), name@) == Some(i as int));
                }
                let index = self.logical_volumes[i].index;
                if self.holds(index) {
                    return Err(VolOpenError::Locked);
                }
                let lv = &self.logical_volumes[i];
                let mut regions: Vec<PhysicalRegion> = Vec::new();
                let mut r: usize = 0;
                while r < lv.regions.len()
                    invariant
                        r <= lv.regions@.len(),
                        regions@ == lv.regions@.take(r as int),
                    decreases lv.regions@.len() - r,
                {
                    regions.push(lv.regions[r]);
                    assert(regions@ =~= lv.regions@.take(r + 1));
                    r += 1;
                }
                assert(regions@ =~= lv.regions@);
                let handle = LogicalVolume {
                    index: lv.index,
                    name: lv.name.clone(),
                    is_opened: lv.is_opened,
                    block_size: lv.block_size,
                    chunk_size: lv.chunk_size,
                    regions,
                };
                self.handed_out.push(index);
                return Ok(VolumeHandle { handle });
            }
            i += 1;
        }
        Err(VolOpenError::NotFound)
    }

    /// Whether a handle to the logical volume with the number `index` is
    /// out.
    pub fn holds(&self, index: usize) -> (held: bool)
        ensures
            held == self.handed_out@.contains(index),
    {
        let mut k: usize = 0;
        while k < self.handed_out.len()
            invariant
                k <= self.handed_out@.len(),
                forall|j: int| 0 <= j < k ==> self.handed_out@[j] != index,
            decreases self.handed_out@.len() - k,
        {
            if self.handed_out[k] == index {
                return true;
            }
            k += 1;
        }
        false
    }

    /// Takes a handle back: the volume can be opened again.
    pub fn close(&mut self, handle: VolumeHandle)
        ensures
            final(self).next_pv_idx == old(self).next_pv_idx,
            final(self).physical_volumes == old(self).physical_volumes,
            final(self).next_lv_idx == old(self).next_lv_idx,
            final(self).logical_volumes == old(self).logical_volumes,
            final(self).mappers == old(self).mappers,
            !old(self).handed_out@.contains(handle.handle.index) ==> final(self).handed_out@ == old(self).handed_out@,
            old(self).handed_out@.contains(handle.handle.index) ==> exists|k: int|
                0 <= k < old(self).handed_out@.len() && old(self).handed_out@[k] == handle.handle.index
                    && (forall|j: int| 0 <= j < k ==> old(self).handed_out@[j] != handle.handle.index)
                    && final(self).handed_out@ == old(self).handed_out@.remove(k),
    {
        let index = handle.handle.index;
        let mut k: usize = 0;
        while k < self.handed_out.len()
            invariant
                *self == *old(self),
                index == handle.handle.index,
                k <= self.handed_out@.len(),
                forall|j: int| 0 <= j < k ==> self.handed_out@[j] != index,
            decreases self.handed_out@.len() - k,
        {
            if self.handed_out[k] == index {
                assert(old(self).handed_out@[k as int] == index);
                self.handed_out.remove(k);
                assert(self.handed_out@ == old(self).handed_out@.remove(k as int));
                return ;
            }
            k += 1;
        }
    }
}

} // verus!

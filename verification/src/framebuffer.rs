//! A framebuffer in guest memory.
use vstd::prelude::*;

use vm_memory::MmapRegion;

use crate::guest_memory::{
    Answers, DmaMapFlags, GuestAddress, GuestMemoryError, GuestMemoryMap, GuestMemoryRegion,
};

verus! {

broadcast use {crate::guest_memory::group_answers, crate::guest_memory::lemma_settled};

/// The DRM code of a pixel of blue, green, red and padding bytes.
pub const DRM_FORMAT_XRGB8888: u32 = 0x3432_5258;
pub const FRAMEBUFFER_BYTES_PER_PIXEL: u32 = 4;

/// Where a guest keeps its framebuffer, and how it is laid out.
#[derive(Clone, Copy, Debug, PartialEq, Eq)]
pub struct RamfbConfig {
    pub address: u64,
    pub fourcc: u32,
    pub flags: u32,
    pub width: u32,
    pub height: u32,
    pub stride: u32,
}

/// A framebuffer whose pixels can be snapshotted by a display backend.
///
/// An implementation has no configuration and no pixels while its framebuffer is not
/// mapped, so that a display stops touching a mapping before it is removed.
pub trait FramebufferSource {
    spec fn source_valid(&self) -> bool;

    /// The configuration while the framebuffer is mapped.
    spec fn active_config(&self) -> Option<RamfbConfig>;

    /// The active configuration, if there is one.
    fn config(&self) -> (r: Option<RamfbConfig>)
        requires
            self.source_valid(),
        ensures
            r == self.active_config(),
    ;

    /// Copies the complete framebuffer.
    fn read_framebuffer(&mut self) -> (r: Option<Vec<u8>>)
        requires
            old(self).source_valid(),
        ensures
            final(self).source_valid(),
            final(self).active_config() == old(self).active_config(),
            old(self).active_config() is None ==> r is None,
    ;

    fn is_initialized(&self) -> (r: bool)
        requires
            self.source_valid(),
        ensures
            r == self.active_config() is Some,
    {
        self.config().is_some()
    }
}

#[derive(Clone, Copy, Debug, PartialEq, Eq)]
pub struct FramebufferGeometry {
    pub gpa: u64,
    pub width: u32,
    pub height: u32,
    pub stride: u32,
    pub fourcc: u32,
    pub size: u64,
}

#[derive(Clone, Copy, Debug, PartialEq, Eq)]
pub enum GeometryError {
    /// Width and height must be non-zero.
    Empty,
    /// Only XRGB8888 is supported.
    UnsupportedFormat(u32),
    /// The size of a row overflows.
    RowSizeOverflow,
    /// The stride is smaller than a row of pixels.
    InvalidStride { stride: u32, minimum: u64 },
    /// The size of the framebuffer overflows.
    SizeOverflow,
    /// The framebuffer leaves the address space.
    AddressOverflow,
}

/// The geometry of a framebuffer, or what is wrong with it. Neither the size of a row nor
/// that of the framebuffer exceeds 64 bits, since both are products of 32-bit numbers.
pub open spec fn geometry_of(gpa: u64, width: u32, height: u32, stride: u32, fourcc: u32) -> Result<
    FramebufferGeometry,
    GeometryError,
> {
    if width == 0 || height == 0 {
        Err(GeometryError::Empty)
    } else if fourcc != DRM_FORMAT_XRGB8888 {
        Err(GeometryError::UnsupportedFormat(fourcc))
    } else if stride < 4 * width {
        Err(GeometryError::InvalidStride { stride, minimum: (4 * width) as u64 })
    } else if gpa + stride * height > u64::MAX {
        Err(GeometryError::AddressOverflow)
    } else {
        Ok(
            FramebufferGeometry {
                gpa,
                width,
                height,
                stride,
                fourcc,
                size: (stride * height) as u64,
            },
        )
    }
}

impl FramebufferGeometry {
    pub fn new(gpa: u64, width: u32, height: u32, stride: u32, fourcc: u32) -> (r: Result<
        Self,
        GeometryError,
    >)
        ensures
            r == geometry_of(gpa, width, height, stride, fourcc),
    {
        if width == 0 || height == 0 {
            return Err(GeometryError::Empty);
        }
        if fourcc != DRM_FORMAT_XRGB8888 {
            return Err(GeometryError::UnsupportedFormat(fourcc));
        }
        let minimum: u64 = match (width as u64).checked_mul(FRAMEBUFFER_BYTES_PER_PIXEL as u64) {
            Some(minimum) => minimum,
            None => {
                return Err(GeometryError::RowSizeOverflow);
            },
        };
        if (stride as u64) < minimum {
            return Err(GeometryError::InvalidStride { stride, minimum });
        }
        assert(stride * height <= 0xffff_ffff * 0xffff_ffff) by (nonlinear_arith)
            requires
                stride <= 0xffff_ffff,
                height <= 0xffff_ffff,
        ;
        let size: u64 = match (stride as u64).checked_mul(height as u64) {
            Some(size) => size,
            None => {
                return Err(GeometryError::SizeOverflow);
            },
        };
        if gpa.checked_add(size).is_none() {
            return Err(GeometryError::AddressOverflow);
        }
        Ok(FramebufferGeometry { gpa, width, height, stride, fourcc, size })
    }

    /// The configuration of a framebuffer with this geometry.
    pub open spec fn as_config(self) -> RamfbConfig {
        RamfbConfig {
            address: self.gpa,
            fourcc: self.fourcc,
            flags: 0,
            width: self.width,
            height: self.height,
            stride: self.stride,
        }
    }

    fn ramfb_config(self) -> (r: RamfbConfig)
        ensures
            r == self.as_config(),
    {
        RamfbConfig {
            address: self.gpa,
            fourcc: self.fourcc,
            flags: 0,
            width: self.width,
            height: self.height,
            stride: self.stride,
        }
    }
}

#[derive(Clone, Copy, Debug, PartialEq, Eq)]
pub struct MappingRange {
    pub iova: u64,
    pub size: u64,
    pub readable: bool,
}

#[derive(Clone, Copy, Debug, PartialEq, Eq)]
pub enum MappingRangeError {
    /// The end of the mapping is not a 64-bit address.
    MappingOverflow,
    /// The end of the framebuffer is not a 64-bit address.
    FramebufferOverflow,
}

/// Whether a mapping is readable and holds the whole framebuffer.
pub open spec fn covers_framebuffer(
    mapping: MappingRange,
    framebuffer_gpa: u64,
    framebuffer_size: u64,
) -> Result<bool, MappingRangeError> {
    if mapping.iova + mapping.size > u64::MAX {
        Err(MappingRangeError::MappingOverflow)
    } else if framebuffer_gpa + framebuffer_size > u64::MAX {
        Err(MappingRangeError::FramebufferOverflow)
    } else {
        Ok(
            mapping.readable && mapping.iova <= framebuffer_gpa && framebuffer_gpa
                + framebuffer_size <= mapping.iova + mapping.size,
        )
    }
}

pub fn mapping_covers_framebuffer(
    mapping: MappingRange,
    framebuffer_gpa: u64,
    framebuffer_size: u64,
) -> (r: Result<bool, MappingRangeError>)
    ensures
        r == covers_framebuffer(mapping, framebuffer_gpa, framebuffer_size),
{
    let mapping_end: u64 = match mapping.iova.checked_add(mapping.size) {
        Some(end) => end,
        None => {
            return Err(MappingRangeError::MappingOverflow);
        },
    };
    let framebuffer_end: u64 = match framebuffer_gpa.checked_add(framebuffer_size) {
        Some(end) => end,
        None => {
            return Err(MappingRangeError::FramebufferOverflow);
        },
    };
    Ok(mapping.readable && mapping.iova <= framebuffer_gpa && framebuffer_end <= mapping_end)
}

/// Why a mapping for the framebuffer was refused.
#[derive(Clone, Copy, Debug, PartialEq, Eq)]
pub enum FramebufferError {
    Memory(GuestMemoryError),
    Range(MappingRangeError),
}

/// The checks of a mapping before it is made: the framebuffer needs readable mappings only.
pub open spec fn framebuffer_mapping_check(
    geometry: FramebufferGeometry,
    flags: DmaMapFlags,
    iova: u64,
    size: u64,
) -> Result<bool, FramebufferError> {
    if size == 0 {
        Err(FramebufferError::Memory(GuestMemoryError::EmptyMapping))
    } else if iova + size > u64::MAX {
        Err(FramebufferError::Memory(GuestMemoryError::RangeOverflow))
    } else if !flags.read {
        Err(FramebufferError::Memory(GuestMemoryError::NoPermission))
    } else {
        match covers_framebuffer(
            MappingRange { iova, size, readable: true },
            geometry.gpa,
            geometry.size,
        ) {
            Ok(covers) => Ok(covers),
            Err(error) => Err(FramebufferError::Range(error)),
        }
    }
}

/// The answer to a request for a mapping of `memory`.
pub open spec fn add_outcome(
    geometry: FramebufferGeometry,
    dma: crate::guest_memory::Dma,
    flags: DmaMapFlags,
    iova: u64,
    size: u64,
    memory: Option<MmapRegion<()>>,
) -> Result<(), FramebufferError> {
    match framebuffer_mapping_check(geometry, flags, iova, size) {
        Err(error) => Err(error),
        Ok(_) => match crate::guest_memory::map_outcome(dma, flags, iova, size, memory) {
            Ok(()) => Ok(()),
            Err(error) => Err(FramebufferError::Memory(error)),
        },
    }
}

/// A framebuffer of a fixed geometry, and the mappings of the memory that it lies in.
pub struct DmaFramebuffer {
    geometry: FramebufferGeometry,
    memory: GuestMemoryMap,
}

impl DmaFramebuffer {
    pub closed spec fn layout(&self) -> FramebufferGeometry {
        self.geometry
    }

    pub closed spec fn dma(&self) -> crate::guest_memory::Dma {
        self.memory@
    }

    pub open spec fn valid(&self) -> bool {
        &&& self.dma().valid()
        &&& forall|i: int|
            0 <= i < self.dma().regions.len() ==> (#[trigger] self.dma().regions[i]).readable
    }

    /// Whether one mapping holds the whole framebuffer.
    pub open spec fn mapped(&self) -> bool {
        self.layout().size <= usize::MAX && exists|i: int|
            0 <= i < self.dma().regions.len() && (#[trigger] self.dma().regions[i]).covers(
                self.layout().gpa,
                self.layout().size as nat,
            )
    }

    pub fn new(geometry: FramebufferGeometry) -> (r: Self)
        ensures
            r.valid(),
            r.layout() == geometry,
            r.dma().regions == Seq::<GuestMemoryRegion>::empty(),
            r.dma().trace.accesses.len() == 0,
    {
        DmaFramebuffer { geometry, memory: GuestMemoryMap::new() }
    }

    pub fn geometry(&self) -> (r: FramebufferGeometry)
        ensures
            r == self.layout(),
    {
        self.geometry
    }

    pub fn mapping_count(&self) -> (r: usize)
        ensures
            r == self.dma().regions.len(),
    {
        self.memory.mapping_count()
    }

    pub fn has_framebuffer_mapping(&self) -> (r: bool)
        requires
            self.valid(),
        ensures
            r == self.mapped(),
    {
        if self.geometry.size > usize::MAX as u64 {
            return false;
        }
        self.memory.contains(GuestAddress(self.geometry.gpa), self.geometry.size as usize)
    }

    pub fn clear_mappings(&mut self)
        ensures
            final(self).valid(),
            final(self).layout() == old(self).layout(),
            final(self).dma().regions == Seq::<GuestMemoryRegion>::empty(),
            final(self).dma().trace == old(self).dma().trace,
    {
        self.memory.clear();
    }

    /// Decides whether a mapping can be added, before the memory is mapped, and whether it
    /// holds the framebuffer.
    pub fn check_mapping(&self, flags: DmaMapFlags, iova: u64, size: u64) -> (r: Result<
        bool,
        FramebufferError,
    >)
        ensures
            r == framebuffer_mapping_check(self.layout(), flags, iova, size),
    {
        if size == 0 {
            return Err(FramebufferError::Memory(GuestMemoryError::EmptyMapping));
        }
        if iova.checked_add(size).is_none() {
            return Err(FramebufferError::Memory(GuestMemoryError::RangeOverflow));
        }
        if !flags.read {
            return Err(FramebufferError::Memory(GuestMemoryError::NoPermission));
        }
        let range = MappingRange { iova, size, readable: true };
        match mapping_covers_framebuffer(range, self.geometry.gpa, self.geometry.size) {
            Ok(covers) => Ok(covers),
            Err(error) => Err(FramebufferError::Range(error)),
        }
    }

    /// Adds a mapping of `memory` at `iova`.
    pub fn add_mapping(
        &mut self,
        flags: DmaMapFlags,
        iova: u64,
        size: u64,
        memory: Option<MmapRegion<()>>,
    ) -> (r: Result<(), FramebufferError>)
        requires
            old(self).valid(),
        ensures
            final(self).valid(),
            final(self).layout() == old(self).layout(),
            final(self).dma().trace == old(self).dma().trace,
            r == add_outcome(old(self).layout(), old(self).dma(), flags, iova, size, memory),
            match r {
                Err(_) => final(self).dma() == old(self).dma(),
                Ok(()) => crate::guest_memory::region_added(
                    old(self).dma().regions,
                    final(self).dma().regions,
                    GuestMemoryRegion {
                        start: GuestAddress(iova),
                        size,
                        readable: true,
                        writable: flags.write,
                        memory: memory->0,
                    },
                ),
            },
    {
        if let Err(error) = self.check_mapping(flags, iova, size) {
            return Err(error);
        }
        match self.memory.map(flags, GuestAddress(iova), size, memory) {
            Ok(()) => {
                proof {
                    let before = old(self).dma().regions;
                    let after = self.dma().regions;
                    let added = GuestMemoryRegion {
                        start: GuestAddress(iova),
                        size,
                        readable: true,
                        writable: flags.write,
                        memory: memory->0,
                    };
                    let k = choose|k: int|
                        0 <= k <= before.len() && after == #[trigger] before.insert(k, added);
                    assert forall|i: int| 0 <= i < after.len() implies (
                    #[trigger] after[i]).readable by {
                        if i < k {
                            assert(after[i] == before[i]);
                        } else if i > k {
                            assert(after[i] == before[i - 1]);
                        }
                    }
                }
                Ok(())
            },
            Err(error) => Err(FramebufferError::Memory(error)),
        }
    }

    /// Removes every mapping that shares an address with the range, or all mappings.
    pub fn remove_mapping(&mut self, all: bool, iova: u64, size: u64) -> (r: Result<
        (),
        GuestMemoryError,
    >)
        requires
            old(self).valid(),
        ensures
            final(self).valid(),
            final(self).layout() == old(self).layout(),
            final(self).dma().trace == old(self).dma().trace,
            if all {
                r is Ok && final(self).dma().regions.len() == 0
            } else if iova + size > u64::MAX {
                r == Err::<(), GuestMemoryError>(GuestMemoryError::RangeOverflow) && final(self).dma() == old(self).dma()
            } else {
                r is Ok && final(self).dma().regions == old(self).dma().regions.filter(
                    |region: GuestMemoryRegion| !region.meets(iova, size),
                )
            },
    {
        match self.memory.unmap(all, GuestAddress(iova), size) {
            Ok(_) => {
                proof {
                    let keep = |region: GuestMemoryRegion| !region.meets(iova, size);
                    crate::guest_memory::lemma_filter_keeps_order(old(self).dma(), keep);
                    let before = old(self).dma().regions;
                    if !all {
                        assert forall|i: int| 0 <= i < self.dma().regions.len() implies (
                        #[trigger] self.dma().regions[i]).readable by {
                            assert(before.contains(before.filter(keep)[i]));
                        }
                    }
                }
                Ok(())
            },
            Err(error) => Err(error),
        }
    }

    /// Reads the pixels of the framebuffer.
    pub fn read_pixels(&mut self) -> (r: Result<Vec<u8>, GuestMemoryError>)
        requires
            old(self).valid(),
        ensures
            final(self).valid(),
            final(self).layout() == old(self).layout(),
            final(self).dma().regions == old(self).dma().regions,
            if old(self).layout().size > usize::MAX {
                r == Err::<Vec<u8>, GuestMemoryError>(GuestMemoryError::TooLarge) && final(self).dma() == old(self).dma()
            } else {
                forall|answers: Answers| #[trigger]
                    final(self).dma().agrees(answers) ==> {
                        let (dma, got) = old(self).dma().under(answers).read(
                            old(self).layout().gpa,
                            old(self).layout().size as nat,
                        );
                        &&& final(self).dma().under(answers) == dma
                        &&& match got {
                            Some(bytes) => r is Ok && r->Ok_0@ == bytes,
                            None => r == Err::<Vec<u8>, GuestMemoryError>(
                                GuestMemoryError::NotReadable,
                            ),
                        }
                    }
            },
            final(self).dma().follows(old(self).dma()),
            final(self).dma().settled(),
            r is Ok == old(self).mapped(),
            r matches Ok(pixels) ==> pixels@.len() == old(self).layout().size,
    {
        if self.geometry.size > usize::MAX as u64 {
            return Err(GuestMemoryError::TooLarge);
        }
        proof {
            let size = self.geometry.size as nat;
            crate::guest_memory::an_access_needs_one_permitting_mapping(
                self.memory@,
                self.geometry.gpa,
                Seq::new(size, |i: int| 0u8),
            );
        }
        let r = self.memory.read_vec(
            GuestAddress(self.geometry.gpa),
            self.geometry.size as usize,
        );
        proof {
            crate::guest_memory::the_recorded_answers_agree(&self.memory);
            let answers = self.memory@.trace.answers;
            assert(self.memory@.agrees(answers));
            assert(old(self).memory@.under(answers).region(
                false,
                self.geometry.gpa,
                self.geometry.size as nat,
            ) == old(self).memory@.region(false, self.geometry.gpa, self.geometry.size as nat));
        }
        r
    }
}

impl FramebufferSource for DmaFramebuffer {
    open spec fn source_valid(&self) -> bool {
        self.valid()
    }

    open spec fn active_config(&self) -> Option<RamfbConfig> {
        if self.mapped() {
            Some(self.layout().as_config())
        } else {
            None
        }
    }

    fn config(&self) -> (r: Option<RamfbConfig>) {
        if self.has_framebuffer_mapping() {
            Some(self.geometry.ramfb_config())
        } else {
            None
        }
    }

    fn read_framebuffer(&mut self) -> (r: Option<Vec<u8>>)
        ensures
            r is Some == old(self).active_config() is Some,
            final(self).dma().follows(old(self).dma()),
            final(self).dma().settled(),
            r is Some ==> r->0@.len() == old(self).layout().size,
            forall|answers: Answers| #[trigger]
                final(self).dma().agrees(answers) && r is Some ==> old(self).dma().under(
                    answers,
                ).read(old(self).layout().gpa, old(self).layout().size as nat) == (
                    final(self).dma().under(answers),
                    Some(r->0@),
                ),
    {
        match self.read_pixels() {
            Ok(pixels) => Some(pixels),
            Err(_) => None,
        }
    }
}

pub const CHECKSUM_BASIS: u64 = 0xcbf2_9ce4_8422_2325;
pub const CHECKSUM_PRIME: u64 = 0x0000_0100_0000_01b3;

/// The FNV-1a hash of a byte sequence.
pub open spec fn checksum_of(data: Seq<u8>) -> u64
    decreases data.len(),
{
    if data.len() == 0 {
        CHECKSUM_BASIS
    } else {
        (checksum_of(data.drop_last()) ^ (data.last() as u64)).wrapping_mul(CHECKSUM_PRIME)
    }
}

pub fn framebuffer_checksum(data: &[u8]) -> (r: u64)
    ensures
        r == checksum_of(data@),
{
    let mut hash: u64 = CHECKSUM_BASIS;
    let mut i: usize = 0;
    while i < data.len()
        invariant
            i <= data@.len(),
            hash == checksum_of(data@.take(i as int)),
        decreases data@.len() - i,
    {
        hash = (hash ^ (data[i] as u64)).wrapping_mul(CHECKSUM_PRIME);
        i = i + 1;
        assert(data@.take(i as int).drop_last() =~= data@.take(i - 1));
    }
    assert(data@.take(i as int) =~= data@);
    hash
}

/// A valid geometry holds every row of its pixels, and lies inside the address space.
pub proof fn a_geometry_holds_its_rows(gpa: u64, width: u32, height: u32, stride: u32, fourcc: u32)
    requires
        geometry_of(gpa, width, height, stride, fourcc) is Ok,
    ensures
        ({
            let g = geometry_of(gpa, width, height, stride, fourcc)->Ok_0;
            &&& g.size == stride * height
            &&& 4 * width * height <= g.size
            &&& g.gpa + g.size <= u64::MAX
        }),
{
    assert(0 <= stride * height <= 0xffff_ffff * 0xffff_ffff) by (nonlinear_arith)
        requires
            0 <= stride <= 0xffff_ffff,
            0 <= height <= 0xffff_ffff,
    ;
    assert(4 * width * height <= stride * height) by (nonlinear_arith)
        requires
            4 * width <= stride,
            0 <= height,
    ;
}

/// A framebuffer that shares an address with an unmapped range is not mapped any more.
pub proof fn a_partial_unmap_removes_the_framebuffer(
    framebuffer: DmaFramebuffer,
    after: DmaFramebuffer,
    iova: u64,
    size: u64,
)
    requires
        framebuffer.valid(),
        after.layout() == framebuffer.layout(),
        after.dma().regions == framebuffer.dma().regions.filter(
            |region: GuestMemoryRegion| !region.meets(iova, size),
        ),
        framebuffer.layout().gpa < iova + size,
        iova < framebuffer.layout().gpa + framebuffer.layout().size,
    ensures
        after.active_config() is None,
{
    broadcast use vstd::seq_lib::group_filter_ensures;

    let keep = |region: GuestMemoryRegion| !region.meets(iova, size);
    let kept = after.dma().regions;
    assert forall|i: int| 0 <= i < kept.len() implies !(#[trigger] kept[i]).covers(
        after.layout().gpa,
        after.layout().size as nat,
    ) by {
        assert(keep(kept[i]));
    }
}

/// A geometry is accepted exactly where it is one: it has pixels, of the format XR24, its rows
/// hold them, and it lies inside the address space.
pub proof fn geometries_are_accepted(gpa: u64, width: u32, height: u32, stride: u32, fourcc: u32)
    ensures
        geometry_of(gpa, width, height, stride, fourcc) is Ok <==> width > 0 && height > 0 && fourcc
            == 0x3432_5258 && stride >= 4 * width && gpa + stride * height <= u64::MAX,
        geometry_of(gpa, width, height, stride, fourcc) matches Ok(g) ==> g.gpa == gpa && g.width
            == width && g.height == height && g.stride == stride && g.fourcc == fourcc,
{
}

/// A mapping serves a framebuffer that is not empty exactly where it is readable and holds every
/// byte of it.
pub proof fn a_mapping_holds_every_byte(mapping: MappingRange, gpa: u64, size: u64)
    requires
        size > 0,
        mapping.iova + mapping.size <= u64::MAX,
        gpa + size <= u64::MAX,
    ensures
        covers_framebuffer(mapping, gpa, size) matches Ok(covers) && (covers <==> mapping.readable
            && forall|a: int| gpa <= a < gpa + size ==> #[trigger] in_mapping(mapping, a)),
{
    if forall|a: int| gpa <= a < gpa + size ==> #[trigger] in_mapping(mapping, a) {
        assert(in_mapping(mapping, gpa as int));
        assert(in_mapping(mapping, gpa + size - 1));
    }
}

/// Whether a mapping holds an address.
pub open spec fn in_mapping(mapping: MappingRange, address: int) -> bool {
    mapping.iova <= address < mapping.iova + mapping.size
}

/// The checksum of no bytes is the basis of FNV-1a. Each further byte is mixed in by an exclusive
/// or and a multiplication with its prime, modulo 2 to the power of 64.
pub proof fn a_byte_is_mixed_in(data: Seq<u8>, byte: u8)
    ensures
        checksum_of(Seq::empty()) == 0xcbf2_9ce4_8422_2325,
        checksum_of(data.push(byte)) == ((checksum_of(data) ^ byte as u64) * 0x100_0000_01b3)
            % 0x1_0000_0000_0000_0000,
{
    assert(data.push(byte).drop_last() =~= data);
}

} // verus!

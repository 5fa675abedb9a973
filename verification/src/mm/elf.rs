//! What the loader reads from an ELF image: the header's entry point and
//! program-header table, and each program header.
use vstd::prelude::*;
use xmas_elf::program::Type;
use super::address::{lemma_low_39, lemma_page_bits, page_base, pages_up, sign_extended};

verus! {

/// The fields of an ELF header that the loader uses.
#[derive(Copy, Clone, PartialEq, Eq, Structural, Debug)]
pub struct ElfHeaderInfo {
    /// Address at which the program starts.
    pub entry_point: u64,
    /// Offset of the program-header table in the image.
    pub ph_offset: u64,
    /// Size of one program header in bytes.
    pub ph_entry_size: u16,
    /// Number of program headers.
    pub ph_count: u16,
}

/// The type of a segment, as the ELF parser tells the types apart.
#[derive(Copy, Clone, PartialEq, Eq, Structural, Debug)]
pub enum SegmentType {
    Null,
    Load,
    Dynamic,
    Interp,
    Note,
    ShLib,
    Phdr,
    Tls,
    GnuRelro,
    /// A type that an operating system defines; its number is not kept.
    OsSpecific,
    /// A type that a processor defines; its number is not kept.
    ProcessorSpecific,
}

/// The numbers of a program header that the loader uses.
#[derive(Copy, Clone, PartialEq, Eq, Structural, Debug)]
pub struct SegmentFields {
    pub virtual_addr: u64,
    pub mem_size: u64,
    pub offset: u64,
    pub file_size: u64,
    pub flags: u32,
}

/// The fields of a program header that the loader uses.
#[derive(Copy, Clone, PartialEq, Eq, Structural, Debug)]
pub struct SegmentHeader {
    /// The type of the segment, `None` for a type that the parser does not
    /// know.
    pub kind: Option<SegmentType>,
    /// Address at which the segment starts in memory.
    pub virtual_addr: u64,
    /// Size of the segment in memory.
    pub mem_size: u64,
    /// Offset of the segment's bytes in the image.
    pub offset: u64,
    /// Number of the segment's bytes in the image.
    pub file_size: u64,
    /// The segment's flag bits: 4 for read, 2 for write, 1 for execute.
    pub flags: u32,
}

impl SegmentHeader {
    /// Whether the segment may be read.
    pub fn is_read(&self) -> (r: bool)
        ensures
            r == (self.flags & 4 == 4),
    {
        self.flags & 4 == 4
    }

    /// Whether the segment may be written.
    pub fn is_write(&self) -> (r: bool)
        ensures
            r == (self.flags & 2 == 2),
    {
        self.flags & 2 == 2
    }

    /// Whether the segment may be executed.
    pub fn is_execute(&self) -> (r: bool)
        ensures
            r == (self.flags & 1 == 1),
    {
        self.flags & 1 == 1
    }
}

/// The header that the ELF parser reads from an image, or `None` where it
/// refuses the image. The parser reads the fields in the byte order of the
/// machine.
pub uninterp spec fn elf_header_of(data: Seq<u8>) -> Option<ElfHeaderInfo>;

/// The numbers of the program header with index `index` that the ELF
/// parser reads from an image, or `None` where it refuses the image or the
/// index. The parser reads the numbers in the byte order of the machine.
pub uninterp spec fn elf_segment_of(data: Seq<u8>, index: u16) -> Option<SegmentFields>;

/// The type of the program header with index `index` as the ELF parser
/// tells it, or `None` where it refuses the image, the index or the type.
pub uninterp spec fn elf_segment_type_of(data: Seq<u8>, index: u16) -> Option<SegmentType>;

/// The program header with index `index` of an image: its numbers and its
/// type, or `None` where the parser refuses the image or the index.
pub open spec fn segment_header_of(data: Seq<u8>, index: u16) -> Option<SegmentHeader> {
    match elf_segment_of(data, index) {
        None => None,
        Some(f) => Some(
            SegmentHeader {
                kind: elf_segment_type_of(data, index),
                virtual_addr: f.virtual_addr,
                mem_size: f.mem_size,
                offset: f.offset,
                file_size: f.file_size,
                flags: f.flags,
            },
        ),
    }
}

/// Whether the parser can be asked for program header `index` of an image
/// with header `h`: the header lies within the image, is as large as a
/// program header of a 64-bit image, and starts at a multiple of eight.
pub open spec fn segment_in_image(len: int, h: ElfHeaderInfo, index: u16) -> bool {
    &&& h.ph_entry_size >= 56
    &&& h.ph_offset + (index + 1) * h.ph_entry_size <= len
    &&& (h.ph_offset + index * h.ph_entry_size) % 8 == 0
}

/// Calls `xmas_elf::ElfFile::new` on a copy of the image that starts at a
/// multiple of eight bytes, as the parser asks, and hands out four fields of
/// the header it returns. The contract names the result: the parser reads
/// the header from the bytes alone, in the byte order of the machine. It needs 64 bytes, the size of the
/// larger of the two header forms; on fewer the parser may stop the program.
#[verifier::external_body]
pub(crate) fn parse_elf_header(data: &[u8]) -> (r: Option<ElfHeaderInfo>)
    requires
        data@.len() >= 64,
    ensures
        r == elf_header_of(data@),
{
    let mut buf = vec![0u8; data.len() + 8];
    let off = buf.as_ptr().align_offset(8);
    buf[off..off + data.len()].copy_from_slice(data);
    let elf = xmas_elf::ElfFile::new(&buf[off..off + data.len()]).ok()?;
    let h = elf.header.pt2;
    Some(ElfHeaderInfo {
        entry_point: h.entry_point(),
        ph_offset: h.ph_offset(),
        ph_entry_size: h.ph_entry_size(),
        ph_count: h.ph_count(),
    })
}

/// Calls `xmas_elf::ElfFile::program_header` on a copy of the image that
/// starts at a multiple of eight bytes and hands out the numbers of the
/// program header it returns. The contract names the result: the parser
/// reads it from the bytes and the index alone, in the byte order of the
/// machine. The parser stops the program where the header's place lies
/// outside the image, is smaller than a program header or is not aligned;
/// `requires` leaves those out.
#[verifier::external_body]
pub(crate) fn parse_elf_segment(data: &[u8], index: u16) -> (r: Option<SegmentFields>)
    requires
        data@.len() >= 64,
        elf_header_of(data@).is_some(),
        segment_in_image(data@.len() as int, elf_header_of(data@).unwrap(), index),
    ensures
        r == elf_segment_of(data@, index),
{
    let mut buf = vec![0u8; data.len() + 8];
    let off = buf.as_ptr().align_offset(8);
    buf[off..off + data.len()].copy_from_slice(data);
    let elf = xmas_elf::ElfFile::new(&buf[off..off + data.len()]).ok()?;
    let ph = elf.program_header(index).ok()?;
    Some(SegmentFields {
        virtual_addr: ph.virtual_addr(), mem_size: ph.mem_size(), offset: ph.offset(),
        file_size: ph.file_size(), flags: ph.flags().0,
    })
}

/// Calls `xmas_elf::program::ProgramHeader::get_type` on the program header
/// with index `index`, read as `parse_elf_segment` reads it, and hands out
/// the type that the parser tells, one for one. The contract names the
/// result: the parser tells the type from the bytes and the index alone.
#[verifier::external_body]
pub(crate) fn parse_segment_type(data: &[u8], index: u16) -> (r: Option<SegmentType>)
    requires
        data@.len() >= 64,
        elf_header_of(data@).is_some(),
        segment_in_image(data@.len() as int, elf_header_of(data@).unwrap(), index),
    ensures
        r == elf_segment_type_of(data@, index),
{
    let mut buf = vec![0u8; data.len() + 8];
    let off = buf.as_ptr().align_offset(8);
    buf[off..off + data.len()].copy_from_slice(data);
    let elf = xmas_elf::ElfFile::new(&buf[off..off + data.len()]).ok()?;
    Some(match elf.program_header(index).ok()?.get_type().ok()? {
        Type::Null => SegmentType::Null, Type::Load => SegmentType::Load,
        Type::Dynamic => SegmentType::Dynamic, Type::Interp => SegmentType::Interp,
        Type::Note => SegmentType::Note, Type::ShLib => SegmentType::ShLib,
        Type::Phdr => SegmentType::Phdr, Type::Tls => SegmentType::Tls,
        Type::GnuRelro => SegmentType::GnuRelro,
        Type::OsSpecific(_) => SegmentType::OsSpecific,
        Type::ProcessorSpecific(_) => SegmentType::ProcessorSpecific,
    })
}

/// The program header with index `index` of an image; see `segment_header_of`.
pub fn read_header(data: &[u8], index: u16) -> (r: Option<SegmentHeader>)
    requires
        data@.len() >= 64,
        elf_header_of(data@).is_some(),
        segment_in_image(data@.len() as int, elf_header_of(data@).unwrap(), index),
    ensures
        r == segment_header_of(data@, index),
{
    match parse_elf_segment(data, index) {
        None => None,
        Some(f) => Some(
            SegmentHeader {
                kind: parse_segment_type(data, index),
                virtual_addr: f.virtual_addr,
                mem_size: f.mem_size,
                offset: f.offset,
                file_size: f.file_size,
                flags: f.flags,
            },
        ),
    }
}

/// A segment to load: the bounds of its region in memory, both as
/// addresses of 39 bits, the region's access rights, and the place of the
/// segment's bytes in the image.
#[derive(Copy, Clone, PartialEq, Eq, Structural, Debug)]
pub struct LoadSegment {
    pub start_va: u64,
    pub end_va: u64,
    pub perm: u8,
    pub offset: u64,
    pub file_size: u64,
}

/// What is to be done to load an image: the segments to load, the address at
/// which the program starts, and the lowest address of the user stack.
pub struct LoadPlan {
    pub segments: Vec<LoadSegment>,
    pub entry_point: u64,
    pub user_stack_bottom: u64,
}

/// A load plan as contracts speak of it.
pub struct LoadPlanView {
    pub segments: Seq<LoadSegment>,
    pub entry_point: u64,
    pub user_stack_bottom: u64,
}

impl View for LoadPlan {
    type V = LoadPlanView;

    open spec fn view(&self) -> LoadPlanView {
        LoadPlanView {
            segments: self.segments@,
            entry_point: self.entry_point,
            user_stack_bottom: self.user_stack_bottom,
        }
    }
}

/// The access rights of a segment's region: user, and read, write and
/// execute as the segment's flags say.
pub open spec fn segment_perm(flags: u32) -> u8 {
    (16u8 | if flags & 4 == 4 {
        2u8
    } else {
        0u8
    } | if flags & 2 == 2 {
        4u8
    } else {
        0u8
    } | if flags & 1 == 1 {
        8u8
    } else {
        0u8
    })
}

/// Whether a segment to load fits an image of `len` bytes: its region is a
/// range of pages, its bytes lie within the image and fit the region.
pub open spec fn load_segment_ok(len: int, s: LoadSegment) -> bool {
    &&& s.start_va <= 0x7f_ffff_ffff
    &&& s.end_va <= 0x7f_ffff_ffff
    &&& s.start_va / 4096 <= pages_up(s.end_va as int)
    &&& s.offset + s.file_size <= len
    &&& pages_up(s.file_size as int) <= pages_up(s.end_va as int) - s.start_va / 4096
}

/// What the loader makes of a program header: nothing where the header is
/// not valid, `Some(None)` where the segment is not to be loaded, and else
/// the segment to load.
pub open spec fn segment_entry(len: int, seg: SegmentHeader) -> Option<Option<LoadSegment>> {
    if seg.kind.is_none() {
        None
    } else if seg.kind != Some(SegmentType::Load) {
        Some(None)
    } else if seg.virtual_addr + seg.mem_size > u64::MAX {
        None
    } else {
        let s = LoadSegment {
            start_va: seg.virtual_addr & 0x7f_ffff_ffff,
            end_va: ((seg.virtual_addr + seg.mem_size) as u64) & 0x7f_ffff_ffff,
            perm: segment_perm(seg.flags),
            offset: seg.offset,
            file_size: seg.file_size,
        };
        if load_segment_ok(len, s) {
            Some(Some(s))
        } else {
            None
        }
    }
}

/// The segments to load among the first `n` program headers of an image, or
/// `None` where one of these headers is not valid.
pub open spec fn plan_segments(data: Seq<u8>, h: ElfHeaderInfo, n: int) -> Option<Seq<LoadSegment>>
    decreases n,
{
    if n <= 0 {
        Some(Seq::empty())
    } else {
        match plan_segments(data, h, n - 1) {
            None => None,
            Some(prev) => if !segment_in_image(data.len() as int, h, (n - 1) as u16) {
                None
            } else {
                match segment_header_of(data, (n - 1) as u16) {
                    None => None,
                    Some(seg) => match segment_entry(data.len() as int, seg) {
                        None => None,
                        Some(None) => Some(prev),
                        Some(Some(s)) => Some(prev.push(s)),
                    },
                }
            },
        }
    }
}

/// The highest page at which one of the first `n` segments ends.
pub open spec fn max_end_page(segments: Seq<LoadSegment>, n: int) -> int
    decreases n,
{
    if n <= 0 {
        0
    } else if pages_up(segments[n - 1].end_va as int) > max_end_page(segments, n - 1) {
        pages_up(segments[n - 1].end_va as int)
    } else {
        max_end_page(segments, n - 1)
    }
}

/// The lowest address of the user stack: one page above the end of the
/// highest segment.
pub open spec fn stack_bottom_of(segments: Seq<LoadSegment>) -> int {
    sign_extended(page_base(max_end_page(segments, segments.len() as int) as u64)) + 4096
}

/// Whether the user stack that starts at `bottom` is a range of pages.
pub open spec fn stack_ok(bottom: int) -> bool {
    &&& bottom + 8192 <= u64::MAX
    &&& ((bottom as u64) & 0x7f_ffff_ffff) / 4096 <= pages_up(
        (((bottom + 8192) as u64) & 0x7f_ffff_ffff) as int,
    )
}

/// Whether an image starts with the four bytes that mark an ELF image.
pub open spec fn has_magic(data: Seq<u8>) -> bool {
    data.len() >= 4 && data[0] == 0x7f && data[1] == 0x45 && data[2] == 0x4c && data[3] == 0x46
}

/// The load plan of an image, or `None` where the image is not a valid one:
/// it is shorter than a header, does not start with the ELF mark, is refused
/// by the parser, holds a program header that is not valid, or leaves no
/// room for the user stack.
pub open spec fn load_plan_of(data: Seq<u8>) -> Option<LoadPlanView> {
    if data.len() < 64 || !has_magic(data) {
        None
    } else {
        match elf_header_of(data) {
            None => None,
            Some(h) => match plan_segments(data, h, h.ph_count as int) {
                None => None,
                Some(segments) => if stack_ok(stack_bottom_of(segments)) {
                    Some(
                        LoadPlanView {
                            segments,
                            entry_point: h.entry_point,
                            user_stack_bottom: stack_bottom_of(segments) as u64,
                        },
                    )
                } else {
                    None
                },
            },
        }
    }
}

impl LoadPlanView {
    /// Every segment fits an image of `len` bytes, and the stack is a range of pages.
    pub open spec fn wf(self, len: int) -> bool {
        &&& forall|k: int|
            0 <= k < self.segments.len() ==> load_segment_ok(len, #[trigger] self.segments[k])
        &&& stack_ok(self.user_stack_bottom as int)
    }
}

/// What the loader makes of one program header.
pub fn read_segment(len: usize, seg: SegmentHeader) -> (r: Option<Option<LoadSegment>>)
    ensures
        r == segment_entry(len as int, seg),
{
    match seg.kind {
        None => None,
        Some(SegmentType::Load) => {
            if seg.mem_size > u64::MAX - seg.virtual_addr {
                return None;
            }
            let start_va: u64 = seg.virtual_addr & 0x7f_ffff_ffff;
            let end_va: u64 = (seg.virtual_addr + seg.mem_size) & 0x7f_ffff_ffff;
            let fl: u32 = seg.flags;
            let mut perm: u8 = 16;
            if seg.is_read() {
                perm = perm | 2;
            }
            if seg.is_write() {
                perm = perm | 4;
            }
            if seg.is_execute() {
                perm = perm | 8;
            }
            proof {
                let r: u8 = if fl & 4 == 4 { 2u8 } else { 0u8 };
                let w: u8 = if fl & 2 == 2 { 4u8 } else { 0u8 };
                let x: u8 = if fl & 1 == 1 { 8u8 } else { 0u8 };
                assert(forall|a: u8| #[trigger] (a | 0u8) == a) by (bit_vector);
                assert(perm == ((16u8 | r) | w) | x);
                let a: u64 = seg.virtual_addr;
                let b: u64 = (seg.virtual_addr + seg.mem_size) as u64;
                lemma_low_39(a);
                lemma_low_39(b);
            }
            let s = LoadSegment { start_va, end_va, perm, offset: seg.offset, file_size: seg.file_size };
            let start_page: u64 = start_va / 4096;
            let end_page: u64 = page_count(end_va);
            if start_page > end_page {
                return None;
            }
            if seg.file_size > u64::MAX - seg.offset {
                return None;
            }
            if (seg.offset + seg.file_size) as u128 > len as u128 {
                return None;
            }
            if page_count(seg.file_size) > end_page - start_page {
                return None;
            }
            Some(Some(s))
        },
        Some(_) => Some(None),
    }
}

/// Number of pages needed to hold `bytes` bytes.
pub fn page_count(bytes: u64) -> (r: u64)
    ensures
        r == pages_up(bytes as int),
{
    if bytes % 4096 == 0 {
        bytes / 4096
    } else {
        bytes / 4096 + 1
    }
}

/// Reads the load plan from an image: checks the ELF mark, asks the parser
/// for the header and for each program header, and keeps the segments to load.
pub fn read_load_plan(data: &[u8]) -> (r: Option<LoadPlan>)
    ensures
        r.is_some() == load_plan_of(data@).is_some(),
        r.is_some() ==> Some(r.unwrap()@) == load_plan_of(data@) && r.unwrap()@.wf(
            data@.len() as int,
        ),
{
    if data.len() < 64 {
        return None;
    }
    if !(data[0] == 0x7f && data[1] == 0x45 && data[2] == 0x4c && data[3] == 0x46) {
        return None;
    }
    let h = match parse_elf_header(data) {
        None => {
            return None;
        },
        Some(h) => h,
    };
    let mut segments: Vec<LoadSegment> = Vec::new();
    let mut top_page: u64 = 0;
    let mut i: u16 = 0;
    while i < h.ph_count
        invariant
            data@.len() >= 64,
            has_magic(data@),
            elf_header_of(data@) == Some(h),
            0 <= i <= h.ph_count,
            plan_segments(data@, h, i as int) == Some(segments@),
            top_page == max_end_page(segments@, segments@.len() as int),
            top_page <= 0x800_0000,
            forall|k: int|
                0 <= k < segments@.len() ==> load_segment_ok(
                    data@.len() as int,
                    #[trigger] segments@[k],
                ),
        decreases h.ph_count - i,
    {
        proof {
            lemma_plan_none(data@, h, i as int + 1, h.ph_count as int);
        }
        if h.ph_entry_size < 56 {
            return None;
        }
        assert((i as u128) * (h.ph_entry_size as u128) <= 65535 * 65535) by (nonlinear_arith)
            requires
                i <= 65535,
                h.ph_entry_size <= 65535,
        ;
        let first: u128 = h.ph_offset as u128 + (i as u128) * (h.ph_entry_size as u128);
        let last: u128 = first + h.ph_entry_size as u128;
        assert(last == h.ph_offset + (i + 1) * h.ph_entry_size) by (nonlinear_arith)
            requires
                first == h.ph_offset + i * h.ph_entry_size,
                last == first + h.ph_entry_size,
        ;
        if last > data.len() as u128 || first % 8 != 0 {
            return None;
        }
        assert(segment_in_image(data@.len() as int, h, i));
        let seg = match read_header(data, i) {
            None => {
                return None;
            },
            Some(seg) => seg,
        };
        match read_segment(data.len(), seg) {
            None => {
                return None;
            },
            Some(None) => {},
            Some(Some(s)) => {
                let ghost before = segments@;
                segments.push(s);
                let end_page = page_count(s.end_va);
                proof {
                    assert(segments@.drop_last() =~= before);
                    lemma_max_end_page_prefix(segments@, before, before.len() as int);
                }
                if end_page > top_page {
                    top_page = end_page;
                }
            },
        }
        i += 1;
    }
    let top: u64 = top_page;
    proof {
        lemma_page_bits(top);
    }
    let base: u64 = top << 12;
    let extended: u64 = if base >= 0x40_0000_0000 {
        base | 0xffff_ff80_0000_0000
    } else {
        base
    };
    if extended > u64::MAX - 4096 - 8192 {
        return None;
    }
    let bottom: u64 = extended + 4096;
    let stack_top: u64 = bottom + 8192;
    if (bottom & 0x7f_ffff_ffff) / 4096 > page_count(stack_top & 0x7f_ffff_ffff) {
        return None;
    }
    Some(LoadPlan { segments, entry_point: h.entry_point, user_stack_bottom: bottom })
}

/// Once a program header is found not valid, the image has no plan.
pub proof fn lemma_plan_none(data: Seq<u8>, h: ElfHeaderInfo, m: int, n: int)
    requires
        m <= n,
    ensures
        plan_segments(data, h, m).is_none() ==> plan_segments(data, h, n).is_none(),
    decreases n - m,
{
    if m < n {
        lemma_plan_none(data, h, m, n - 1);
    }
}

/// The highest end page of a prefix does not depend on what follows it.
pub proof fn lemma_max_end_page_prefix(s1: Seq<LoadSegment>, s2: Seq<LoadSegment>, n: int)
    requires
        0 <= n <= s1.len(),
        n <= s2.len(),
        forall|k: int| 0 <= k < n ==> s1[k] == s2[k],
    ensures
        max_end_page(s1, n) == max_end_page(s2, n),
    decreases n,
{
    if n > 0 {
        lemma_max_end_page_prefix(s1, s2, n - 1);
    }
}

} // verus!

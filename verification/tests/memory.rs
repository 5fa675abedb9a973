use os_core::mm::address::{PhysAddr, PhysPageNum, VirtAddr, VirtPageNum};
use os_core::mm::frame_allocator::StackFrameAllocator;
use os_core::mm::memory_set::{
    KernelLayout, LoadError, MapPermission, MapType, MemorySet, TRAMPOLINE_VPN,
};
use os_core::mm::page_table::{MapError, PTEFlags, PageTable};
use os_core::mm::user_buffer::{
    translated_byte_buffer, translated_ref, translated_refmut, translated_str,
};

fn allocator(start: u64, end: u64) -> StackFrameAllocator {
    let mut a = StackFrameAllocator::new();
    a.init(PhysPageNum(start), PhysPageNum(end));
    a
}

fn elf_image(vaddr: u64, data: &[u8], mem_size: u64, flags: u32, entry: u64) -> Vec<u8> {
    let mut v: Vec<u8> = Vec::new();
    v.extend_from_slice(&[0x7f, 0x45, 0x4c, 0x46, 2, 1, 1, 0]);
    v.extend_from_slice(&[0u8; 8]);
    v.extend_from_slice(&2u16.to_le_bytes());
    v.extend_from_slice(&0xf3u16.to_le_bytes());
    v.extend_from_slice(&1u32.to_le_bytes());
    v.extend_from_slice(&entry.to_le_bytes());
    v.extend_from_slice(&64u64.to_le_bytes());
    v.extend_from_slice(&0u64.to_le_bytes());
    v.extend_from_slice(&0u32.to_le_bytes());
    v.extend_from_slice(&64u16.to_le_bytes());
    v.extend_from_slice(&56u16.to_le_bytes());
    v.extend_from_slice(&1u16.to_le_bytes());
    v.extend_from_slice(&64u16.to_le_bytes());
    v.extend_from_slice(&0u16.to_le_bytes());
    v.extend_from_slice(&0u16.to_le_bytes());
    assert_eq!(v.len(), 64);
    v.extend_from_slice(&1u32.to_le_bytes());
    v.extend_from_slice(&flags.to_le_bytes());
    v.extend_from_slice(&120u64.to_le_bytes());
    v.extend_from_slice(&vaddr.to_le_bytes());
    v.extend_from_slice(&vaddr.to_le_bytes());
    v.extend_from_slice(&(data.len() as u64).to_le_bytes());
    v.extend_from_slice(&mem_size.to_le_bytes());
    v.extend_from_slice(&0x1000u64.to_le_bytes());
    assert_eq!(v.len(), 120);
    v.extend_from_slice(data);
    v
}

#[test]
fn address_floor_ceil_and_offset() {
    assert_eq!(VirtAddr(0x1234).floor(), VirtPageNum(1));
    assert_eq!(VirtAddr(0x1234).ceil(), VirtPageNum(2));
    assert_eq!(VirtAddr(0x2000).ceil(), VirtPageNum(2));
    assert_eq!(VirtAddr(0).ceil(), VirtPageNum(0));
    assert_eq!(VirtAddr(0x1234).page_offset(), 0x234);
    assert!(VirtAddr(0x3000).aligned());
    assert!(!PhysAddr(0x3001).aligned());
    assert_eq!(PhysAddr(0x8020_0fff).floor(), PhysPageNum(0x80200));
    assert_eq!(PhysAddr(0x8020_0001).ceil(), PhysPageNum(0x80201));
}

#[test]
fn address_conversions_mask_and_extend() {
    assert_eq!(VirtAddr::from(0xffff_ffff_ffff_f000u64), VirtAddr(0x7f_ffff_f000));
    assert_eq!(u64::from(VirtAddr(0x7f_ffff_f000)), 0xffff_ffff_ffff_f000u64);
    assert_eq!(u64::from(VirtAddr(0x1000)), 0x1000);
    assert_eq!(PhysAddr::from(u64::MAX), PhysAddr(0xff_ffff_ffff_ffff));
    assert_eq!(VirtAddr::from(VirtPageNum(3)), VirtAddr(0x3000));
    assert_eq!(VirtPageNum::from(0xffff_ffffu64), VirtPageNum(0x7ff_ffff));
}

#[test]
fn vpn_indexes_are_nine_bits_each() {
    let vpn = VirtPageNum((5 << 18) | (17 << 9) | 300);
    assert_eq!(vpn.indexes(), [5, 17, 300]);
    assert_eq!(VirtPageNum(0x7ff_ffff).indexes(), [511, 511, 511]);
}

#[test]
fn map_then_translate_round_trip() {
    let mut a = allocator(0x100, 0x120);
    let mut pt = PageTable::new(&mut a).unwrap();
    let vpn = VirtPageNum(0x12345);
    assert!(pt.translate(vpn).is_none());
    assert_eq!(pt.missing_count(vpn), 2);
    pt.map(&mut a, vpn, PhysPageNum(0x80999), PTEFlags::from_bits(6)).unwrap();
    let e = pt.translate(vpn).unwrap();
    assert_eq!(e.ppn(), PhysPageNum(0x80999));
    assert_eq!(e.flags().bits, 7);
    assert!(e.is_valid() && e.readable() && e.writable() && !e.executable());
    assert_eq!(
        pt.translate_va(VirtAddr(0x12345 * 4096 + 0x678)),
        Some(PhysAddr(0x80999 * 4096 + 0x678))
    );
    assert!(pt.translate(VirtPageNum(0x12346)).is_none());
    assert_eq!(pt.missing_count(VirtPageNum(0x12346)), 0);
    pt.unmap(vpn);
    assert!(pt.translate(vpn).is_none());
}

#[test]
fn map_fails_without_frames_and_changes_nothing() {
    let mut a = allocator(0x100, 0x102);
    let mut pt = PageTable::new(&mut a).unwrap();
    let r = pt.map(&mut a, VirtPageNum(7), PhysPageNum(0x5), PTEFlags::from_bits(2));
    assert_eq!(r, Err(MapError::OutOfFrames));
    assert_eq!(pt.frames.len(), 1);
    assert!(a.can_allocate(1));
    assert!(!a.can_allocate(2));
}

#[test]
fn page_table_token_has_mode_eight() {
    let mut a = allocator(0x80300, 0x80310);
    let pt = PageTable::new(&mut a).unwrap();
    assert_eq!(pt.token(), (8u64 << 60) | 0x80300);
}

#[test]
fn from_elf_loads_segment_stack_and_trap_context() {
    let mut a = allocator(0x1000, 0x1100);
    let data: Vec<u8> = (0..5000u32).map(|i| (i % 251) as u8).collect();
    let image = elf_image(0x10000, &data, 0x2000, 5, 0x10040);
    let (ms, stack_top, entry) = MemorySet::from_elf(&mut a, &image, 0x8020_1000).ok().unwrap();
    assert_eq!(entry, 0x10040);
    assert_eq!(stack_top, 0x12000 + 0x1000 + 0x2000);
    assert_eq!(ms.areas.len(), 3);
    assert_eq!(ms.areas[0].vpn_range.get_start(), VirtPageNum(0x10));
    assert_eq!(ms.areas[0].vpn_range.get_end(), VirtPageNum(0x12));
    assert_eq!(ms.areas[0].map_perm, MapPermission::from_bits(16 | 2 | 8));
    assert_eq!(ms.areas[0].map_type, MapType::Framed);
    assert_eq!(ms.areas[1].vpn_range.get_start(), VirtPageNum(0x13));
    assert_eq!(ms.areas[1].vpn_range.get_end(), VirtPageNum(0x15));
    assert_eq!(ms.areas[1].map_perm, MapPermission::from_bits(22));
    assert_eq!(ms.areas[2].vpn_range.get_start(), VirtPageNum(TRAMPOLINE_VPN - 1));
    assert_eq!(ms.areas[2].map_perm, MapPermission::from_bits(6));
    let tramp = ms.translate(VirtPageNum(TRAMPOLINE_VPN)).unwrap();
    assert_eq!(tramp.ppn(), PhysPageNum(0x80201));
    assert_eq!(tramp.flags().bits, 11);
    for i in [0usize, 1, 4095, 4096, 4999] {
        assert_eq!(ms.read_user_byte(0x10000 + i as u64), Some(data[i]));
    }
    assert_eq!(ms.read_user_byte(0x10000 + 5000), Some(0));
    assert_eq!(ms.read_user_byte(0x12000), None);
    let e = ms.translate(VirtPageNum(0x10)).unwrap();
    assert_eq!(e.flags().bits, 16 | 2 | 8 | 1);
}

#[test]
fn from_elf_refuses_bad_images() {
    let mut a = allocator(0x1000, 0x1100);
    let mut image = elf_image(0x10000, &[1, 2, 3], 0x1000, 7, 0x10000);
    image[0] = 0x7e;
    assert!(matches!(
        MemorySet::from_elf(&mut a, &image, 0x8020_1000),
        Err(LoadError::InvalidElf)
    ));
    assert!(matches!(
        MemorySet::from_elf(&mut a, &[0x7f, 0x45, 0x4c, 0x46], 0x8020_1000),
        Err(LoadError::InvalidElf)
    ));
    let short = elf_image(0x10000, &[1, 2, 3], 1, 7, 0x10000);
    let mut truncated = short.clone();
    truncated.truncate(121);
    assert!(matches!(
        MemorySet::from_elf(&mut a, &truncated, 0x8020_1000),
        Err(LoadError::InvalidElf)
    ));
    assert!(a.can_allocate(0x100));
}

#[test]
fn from_elf_without_frames_gives_back_what_it_took() {
    let mut a = allocator(0x1000, 0x1004);
    let image = elf_image(0x10000, &[9u8; 100], 0x4000, 6, 0x10000);
    let r = MemorySet::from_elf(&mut a, &image, 0x8020_1000);
    assert!(matches!(r, Err(LoadError::Mapping(MapError::OutOfFrames))));
    assert!(a.can_allocate(4));
}

#[test]
fn kernel_space_maps_sections_identically() {
    let mut a = allocator(0x80400, 0x80500);
    let layout = KernelLayout {
        stext: 0x8020_0000,
        etext: 0x8020_3000,
        srodata: 0x8020_3000,
        erodata: 0x8020_4000,
        sdata: 0x8020_4000,
        edata: 0x8020_5000,
        sbss_with_stack: 0x8020_5000,
        ebss: 0x8020_8000,
        ekernel: 0x8020_8000,
        strampoline: 0x8020_1000,
        memory_end: 0x8021_0000,
        mmio: vec![(0x10_0000, 0x2000)],
    };
    let ks = MemorySet::new_kernel(&mut a, &layout).ok().unwrap();
    assert_eq!(ks.areas.len(), 6);
    let text = ks.translate(VirtPageNum(0x80201)).unwrap();
    assert_eq!(text.ppn(), PhysPageNum(0x80201));
    assert!(text.readable() && text.executable() && !text.writable());
    let ro = ks.translate(VirtPageNum(0x80203)).unwrap();
    assert!(ro.readable() && !ro.writable() && !ro.executable());
    let data = ks.translate(VirtPageNum(0x80204)).unwrap();
    assert!(data.writable() && !data.executable());
    let io = ks.translate(VirtPageNum(0x101)).unwrap();
    assert_eq!(io.ppn(), PhysPageNum(0x101));
    assert!(ks.translate(VirtPageNum(0x80210)).is_none());
    assert!(ks.translate(VirtPageNum(TRAMPOLINE_VPN)).is_some());
}

#[test]
fn kernel_space_refuses_overlapping_sections() {
    let mut a = allocator(0x80400, 0x80500);
    let layout = KernelLayout {
        stext: 0x8020_0000,
        etext: 0x8020_3000,
        srodata: 0x8020_2000,
        erodata: 0x8020_4000,
        sdata: 0x8020_4000,
        edata: 0x8020_5000,
        sbss_with_stack: 0x8020_5000,
        ebss: 0x8020_8000,
        ekernel: 0x8020_8000,
        strampoline: 0x8020_1000,
        memory_end: 0x8021_0000,
        mmio: vec![],
    };
    assert!(matches!(MemorySet::new_kernel(&mut a, &layout), Err(MapError::AlreadyMapped)));
}

#[test]
fn copy_of_user_space_holds_the_same_bytes_in_other_frames() {
    let mut a = allocator(0x1000, 0x1100);
    let data: Vec<u8> = (0..300u32).map(|i| (i * 7 % 256) as u8).collect();
    let image = elf_image(0x20000, &data, 0x1000, 6, 0x20000);
    let (mut parent, _, _) = MemorySet::from_elf(&mut a, &image, 0x8020_1000).ok().unwrap();
    let mut child = MemorySet::from_existed_user(&mut a, &parent, 0x8020_1000).ok().unwrap();
    assert_eq!(child.areas.len(), parent.areas.len());
    for i in 0..300u64 {
        assert_eq!(child.read_user_byte(0x20000 + i), Some(data[i as usize]));
    }
    let p = parent.translate(VirtPageNum(0x20)).unwrap().ppn();
    let c = child.translate(VirtPageNum(0x20)).unwrap().ppn();
    assert_ne!(p, c);
    assert!(child.write_user_byte(0x20005, 0xaa));
    assert_eq!(child.read_user_byte(0x20005), Some(0xaa));
    assert_eq!(parent.read_user_byte(0x20005), Some(data[5]));
    assert!(parent.write_user_byte(0x20006, 0xbb));
    assert_eq!(child.read_user_byte(0x20006), Some(data[6]));
    child.release(&mut a);
    parent.release(&mut a);
    assert!(a.can_allocate(0x100));
}

#[test]
fn insert_and_remove_framed_area() {
    let mut a = allocator(0x1000, 0x1100);
    let mut ms = MemorySet::new_bare(&mut a).unwrap();
    ms.insert_framed_area(&mut a, VirtAddr(0x5000), VirtAddr(0x7001), MapPermission::from_bits(6))
        .unwrap();
    assert!(ms.translate(VirtPageNum(5)).is_some());
    assert!(ms.translate(VirtPageNum(7)).is_some());
    assert!(ms.translate(VirtPageNum(8)).is_none());
    assert_eq!(
        ms.insert_framed_area(&mut a, VirtAddr(0x7000), VirtAddr(0x8000), MapPermission::from_bits(6)),
        Err(MapError::AlreadyMapped)
    );
    assert!(!ms.remove_area_with_start_vpn(&mut a, VirtPageNum(6)));
    assert!(ms.remove_area_with_start_vpn(&mut a, VirtPageNum(5)));
    assert!(ms.translate(VirtPageNum(5)).is_none());
    assert!(ms.translate(VirtPageNum(7)).is_none());
}

#[test]
fn user_buffers_strings_and_words() {
    let mut a = allocator(0x1000, 0x1100);
    let mut ms = MemorySet::new_bare(&mut a).unwrap();
    ms.insert_framed_area(&mut a, VirtAddr(0x5000), VirtAddr(0x7000), MapPermission::from_bits(22))
        .unwrap();
    for (i, b) in b"hello\0".iter().enumerate() {
        assert!(ms.write_user_byte(0x5ffd + i as u64, *b));
    }
    assert_eq!(translated_str(&ms, 0x5ffd), Some(b"hello".to_vec()));
    assert!(ms.write_user_byte(0x6fff, b'x'));
    assert_eq!(translated_str(&ms, 0x6fff), None);
    assert_eq!(translated_str(&ms, 0x9000), None);
    assert!(translated_refmut(&mut ms, 0x6008, 0x1122_3344_5566_7788));
    assert_eq!(translated_ref(&ms, 0x6008), Some(0x1122_3344_5566_7788));
    assert_eq!(ms.read_user_byte(0x6008), Some(0x88));
    assert_eq!(translated_ref(&ms, 0x5ffc), None);
    assert!(!translated_refmut(&mut ms, 0x8000, 1));
    let segs = translated_byte_buffer(&ms, 0x5ff0, 0x30).unwrap();
    assert_eq!(segs.len(), 2);
    assert_eq!((segs[0].vpn, segs[0].start, segs[0].end), (VirtPageNum(5), 0xff0, 4096));
    assert_eq!((segs[1].vpn, segs[1].start, segs[1].end), (VirtPageNum(6), 0, 0x20));
    assert_eq!(segs[0].ppn, ms.translate(VirtPageNum(5)).unwrap().ppn());
    assert!(translated_byte_buffer(&ms, 0x6ff0, 0x20).is_none());
    assert_eq!(translated_byte_buffer(&ms, 0x5000, 0).unwrap().len(), 0);
}

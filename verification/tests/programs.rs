use os_core::batch::{get_app_data, get_num_app, AppManager, LoadStep, APP_SIZE_LIMIT};
use os_core::mm::address::{PhysPageNum, VirtPageNum};
use os_core::mm::frame_allocator::StackFrameAllocator;
use os_core::mm::memory_set::MemorySet;
use os_core::mm::page_table::MapError;
use os_core::task::id::TaskUserRes;
use os_core::task::process::ProcessControlBlock;
use os_core::user::thread::{Runtime, State};

#[test]
fn app_table_gives_the_programs() {
    let table = [3u64, 0x1000, 0x1800, 0x1800, 0x4000, 99];
    assert_eq!(get_num_app(&table), 3);
    assert_eq!(get_app_data(&table, 0), (0x1000, 0x800));
    assert_eq!(get_app_data(&table, 1), (0x1800, 0));
    assert_eq!(get_app_data(&table, 2), (0x1800, 0x2800));
    let m = AppManager::new(&table).unwrap();
    assert_eq!(m.num_app, 3);
    assert_eq!(m.get_current_app(), 0);
    assert_eq!(&m.app_start[..5], &[0x1000, 0x1800, 0x1800, 0x4000, 0]);
    assert_eq!(m.print_app_info(), vec![(0x1000, 0x1800), (0x1800, 0x1800), (0x1800, 0x4000)]);
    assert!(AppManager::new(&[]).is_none());
    assert!(AppManager::new(&[17, 0]).is_none());
    assert!(AppManager::new(&[2, 0x10, 0x20]).is_none());
    assert!(AppManager::new(&[2, 0x30, 0x20, 0x40]).is_none());
    assert!(AppManager::new(&[0, 0x30]).is_some());
}

#[test]
fn loading_a_program_clears_the_rest_of_the_space() {
    let mut m = AppManager::new(&[2, 0, 4, 8]).unwrap();
    let mut space = vec![0xffu8; APP_SIZE_LIMIT];
    assert_eq!(m.load_app(2, &[1, 2, 3], &mut space), LoadStep::Completed);
    assert_eq!(space[0], 0xff);
    let big = vec![1u8; APP_SIZE_LIMIT + 1];
    assert_eq!(m.load_app(0, &big, &mut space), LoadStep::TooLarge);
    assert_eq!(space[5], 0xff);
    assert_eq!(m.load_app(0, &[1, 2, 3], &mut space), LoadStep::Loaded);
    assert_eq!(&space[..5], &[1, 2, 3, 0, 0]);
    assert!(space.iter().skip(3).all(|b| *b == 0));
    m.move_to_next_app();
    assert_eq!(m.get_current_app(), 1);
}

#[test]
fn threads_of_a_program_take_turns() {
    let mut rt = Runtime::new();
    assert_eq!(rt.threads.len(), 4);
    assert_eq!(rt.t_yield(), None);
    assert_eq!(rt.spawn(0x5000, 0x6000, 0x9003), Some(1));
    assert_eq!(rt.spawn(0x5100, 0x6000, 0xa000), Some(2));
    let t = rt.threads[1];
    assert_eq!(t.state, State::Ready);
    assert_eq!(t.ctx.ra, 0x6000);
    assert_eq!(t.ctx.nx1, 0x5000);
    assert_eq!(t.ctx.sp, ((0x9003u64 + 1024) & !7) - 1024);
    assert_eq!(rt.t_yield(), Some((0, 1)));
    assert_eq!(rt.threads[0].state, State::Ready);
    assert_eq!(rt.threads[1].state, State::Running);
    assert_eq!(rt.t_yield(), Some((1, 2)));
    assert_eq!(rt.t_yield(), Some((2, 0)));
    assert_eq!(rt.t_return(), None);
    assert_eq!(rt.t_yield(), Some((0, 1)));
    assert_eq!(rt.t_return(), Some((1, 2)));
    assert_eq!(rt.threads[1].state, State::Available);
    assert_eq!(rt.t_return(), Some((2, 0)));
    assert_eq!(rt.t_yield(), None);
    assert_eq!(rt.current, 0);
    assert_eq!(rt.spawn(1, 2, 0), Some(1));
    assert_eq!(rt.spawn(1, 2, 0), Some(2));
    assert_eq!(rt.spawn(1, 2, 0), Some(3));
    assert_eq!(rt.spawn(1, 2, 0), None);
}

#[test]
fn a_thread_gets_its_stack_and_its_trap_context() {
    let mut a = StackFrameAllocator::new();
    a.init(PhysPageNum(0x1000), PhysPageNum(0x1040));
    let mut ms = MemorySet::new_bare(&mut a).unwrap();
    let res = TaskUserRes { tid: 1, ustack_base: 0x20000, process: 0 };
    assert!(res.trap_cx_ppn(&ms).is_none());
    assert!(res.alloc_user_res(&mut ms, &mut a).is_ok());
    assert_eq!(ms.areas.len(), 2);
    assert_eq!(ms.areas[0].vpn_range.get_start(), VirtPageNum(0x23));
    assert_eq!(ms.areas[0].vpn_range.get_end(), VirtPageNum(0x25));
    assert_eq!(ms.areas[0].map_perm.bits, 22);
    assert_eq!(ms.areas[1].vpn_range.get_start(), VirtPageNum(0x7ff_fffd));
    assert_eq!(ms.areas[1].map_perm.bits, 6);
    let ppn = res.trap_cx_ppn(&ms).unwrap();
    assert_eq!(ms.areas[1].data_frames[0].as_ref().unwrap().ppn, ppn);
    assert_eq!(ms.read_user_byte(0x23000), Some(0));
    assert_eq!(ms.read_user_byte(0x22fff), None);
    assert_eq!(res.alloc_user_res(&mut ms, &mut a).err(), Some(MapError::AlreadyMapped));
    let free = a.available();
    let mut clean = MemorySet::new_bare(&mut a).unwrap();
    assert!(res.alloc_user_res(&mut clean, &mut a).is_ok());
    res.dealloc_user_res(&mut clean, &mut a);
    assert!(clean.areas.is_empty());
    assert!(res.trap_cx_ppn(&clean).is_none());
    assert!(a.available() >= free - 5);
}

fn elf_image(vaddr: u64, data: &[u8], mem_size: u64, flags: u32, entry: u64) -> Vec<u8> {
    let mut v: Vec<u8> = Vec::new();
    v.extend_from_slice(&[0x7f, 0x45, 0x4c, 0x46, 2, 1, 1, 0]);
    v.extend_from_slice(&[0u8; 8]);
    v.extend_from_slice(&2u16.to_le_bytes());
    v.extend_from_slice(&0xf3u16.to_le_bytes());
    v.extend_from_slice(&1u32.to_le_bytes());
    v.extend_from_slice(&entry.to_le_bytes());
    v.extend_from_slice(&64u64.to_le_bytes());
    v.extend_from_slice(&0u64.to_le_bytes());
    v.extend_from_slice(&0u32.to_le_bytes());
    v.extend_from_slice(&64u16.to_le_bytes());
    v.extend_from_slice(&56u16.to_le_bytes());
    v.extend_from_slice(&1u16.to_le_bytes());
    v.extend_from_slice(&64u16.to_le_bytes());
    v.extend_from_slice(&0u16.to_le_bytes());
    v.extend_from_slice(&0u16.to_le_bytes());
    v.extend_from_slice(&1u32.to_le_bytes());
    v.extend_from_slice(&flags.to_le_bytes());
    v.extend_from_slice(&120u64.to_le_bytes());
    v.extend_from_slice(&vaddr.to_le_bytes());
    v.extend_from_slice(&vaddr.to_le_bytes());
    v.extend_from_slice(&(data.len() as u64).to_le_bytes());
    v.extend_from_slice(&mem_size.to_le_bytes());
    v.extend_from_slice(&0x1000u64.to_le_bytes());
    v.extend_from_slice(data);
    v
}

#[test]
fn a_second_thread_gets_the_next_number_and_its_own_pages() {
    let layout = os_core::mm::memory_set::KernelLayout {
        stext: 0x8020_0000,
        etext: 0x8020_3000,
        srodata: 0x8020_3000,
        erodata: 0x8020_4000,
        sdata: 0x8020_4000,
        edata: 0x8020_5000,
        sbss_with_stack: 0x8020_5000,
        ebss: 0x8020_8000,
        ekernel: 0x8020_8000,
        strampoline: 0x8020_1000,
        memory_end: 0x8040_0000,
        mmio: vec![],
    };
    let machine = os_core::kernel::Machine {
        strampoline: 0x8020_1000,
        trap_handler: 0,
        trap_return: 0,
        user_sstatus: 0,
        clock_freq: 10_000_000,
    };
    let mut k = os_core::kernel::Kernel::new(machine, &layout).ok().unwrap();
    let image = elf_image(0x10000, &[1, 2, 3, 4], 0x1000, 7, 0x10000);
    let pid = ProcessControlBlock::new(&mut k, &image).ok().unwrap();
    let base = k.threads[0].as_ref().unwrap().res.unwrap().ustack_base;
    let mut p = k.processes[pid].take().unwrap();
    let areas = p.memory_set.areas.len();
    let (res, done) = TaskUserRes::new(&mut p, &mut k.frame_allocator, base, true).unwrap();
    assert!(done.is_ok());
    assert_eq!(res, TaskUserRes { tid: 1, ustack_base: base, process: pid });
    assert_eq!(p.memory_set.areas.len(), areas + 2);
    assert_eq!(res.ustack_top(), base + 12288 + 8192);
    assert_eq!(res.trap_cx_user_va(), 0xffff_ffff_ffff_e000 - 4096);
    assert!(res.trap_cx_ppn(&p.memory_set).is_some());
    let (bare, done) = TaskUserRes::new(&mut p, &mut k.frame_allocator, base, false).unwrap();
    assert!(done.is_ok());
    assert_eq!(bare.tid, 2);
    assert!(bare.trap_cx_ppn(&p.memory_set).is_none());
    assert!(TaskUserRes::new(&mut p, &mut k.frame_allocator, 0x40_0000_0000, true).is_none());
    assert_eq!(p.alloc_tid(), 3);
}

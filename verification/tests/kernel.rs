use os_core::easy_fs::block_cache::BlockCacheManager;
use os_core::easy_fs::block_dev::RamDisk;
use os_core::kernel::{Kernel, Machine};
use os_core::mm::memory_set::{KernelLayout, LoadError};
use os_core::syscall::process::sys_exec;
use os_core::syscall::user_memory::{read_user, write_user};
use os_core::task::process::ProcessControlBlock;
use os_core::task::sched::run_tasks;
use os_core::task::task::{Resume, TaskStatus};
use os_core::trap::{resume_thread, trap_handler, TrapCause, TrapOutcome};

const DATA: u64 = 0x11000;

fn elf_image(vaddr: u64, data: &[u8], mem_size: u64, flags: u32, entry: u64) -> Vec<u8> {
    let mut v: Vec<u8> = Vec::new();
    v.extend_from_slice(&[0x7f, 0x45, 0x4c, 0x46, 2, 1, 1, 0]);
    v.extend_from_slice(&[0u8; 8]);
    v.extend_from_slice(&2u16.to_le_bytes());
    v.extend_from_slice(&0xf3u16.to_le_bytes());
    v.extend_from_slice(&1u32.to_le_bytes());
    v.extend_from_slice(&entry.to_le_bytes());
    v.extend_from_slice(&64u64.to_le_bytes());
    v.extend_from_slice(&0u64.to_le_bytes());
    v.extend_from_slice(&0u32.to_le_bytes());
    v.extend_from_slice(&64u16.to_le_bytes());
    v.extend_from_slice(&56u16.to_le_bytes());
    v.extend_from_slice(&1u16.to_le_bytes());
    v.extend_from_slice(&64u16.to_le_bytes());
    v.extend_from_slice(&0u16.to_le_bytes());
    v.extend_from_slice(&0u16.to_le_bytes());
    v.extend_from_slice(&1u32.to_le_bytes());
    v.extend_from_slice(&flags.to_le_bytes());
    v.extend_from_slice(&120u64.to_le_bytes());
    v.extend_from_slice(&vaddr.to_le_bytes());
    v.extend_from_slice(&vaddr.to_le_bytes());
    v.extend_from_slice(&(data.len() as u64).to_le_bytes());
    v.extend_from_slice(&mem_size.to_le_bytes());
    v.extend_from_slice(&0x1000u64.to_le_bytes());
    v.extend_from_slice(data);
    v
}

fn program() -> Vec<u8> {
    elf_image(0x10000, &[0x13, 0, 0, 0], 0x2000, 7, 0x10000)
}

fn boot() -> (Kernel, BlockCacheManager, RamDisk) {
    let layout = KernelLayout {
        stext: 0x8020_0000,
        etext: 0x8020_3000,
        srodata: 0x8020_3000,
        erodata: 0x8020_4000,
        sdata: 0x8020_4000,
        edata: 0x8020_5000,
        sbss_with_stack: 0x8020_5000,
        ebss: 0x8020_8000,
        ekernel: 0x8020_8000,
        strampoline: 0x8020_1000,
        memory_end: 0x8040_0000,
        mmio: vec![],
    };
    let machine = Machine {
        strampoline: 0x8020_1000,
        trap_handler: 0x8020_0100,
        trap_return: 0x8020_0200,
        user_sstatus: 0x20,
        clock_freq: 10_000_000,
    };
    let mut kernel = Kernel::new(machine, &layout).ok().unwrap();
    let pid = ProcessControlBlock::new(&mut kernel, &program()).ok().unwrap();
    assert_eq!(pid, 0);
    assert_eq!(run_tasks(&mut kernel), Some(0));
    let mut cache = BlockCacheManager::new();
    let mut disk = RamDisk::new();
    format(&mut cache, &mut disk);
    (kernel, cache, disk)
}

fn file_system() -> os_core::easy_fs::efs::EasyFileSystem {
    os_core::easy_fs::efs::EasyFileSystem {
        inode_bitmap: os_core::easy_fs::bitmap::Bitmap::new(1, 1),
        data_bitmap: os_core::easy_fs::bitmap::Bitmap::new(6, 1),
        inode_area_start_block: 2,
        data_area_start_block: 7,
    }
}

fn format(c: &mut BlockCacheManager, d: &mut RamDisk) {
    for (i, w) in [0x3b80_0001u32, 107, 1, 4, 1, 100].iter().enumerate() {
        c.write_u32(0, i, *w, d);
    }
    let fs = os_core::easy_fs::efs::EasyFileSystem::open(c, d).unwrap();
    assert_eq!(fs.inode_area_start_block, 2);
    assert_eq!(fs.data_area_start_block, 7);
    assert_eq!(fs.inode_bitmap.start_block_id, 1);
    assert_eq!(fs.data_bitmap.start_block_id, 6);
    assert_eq!(fs.inode_bitmap.allocate(c, d), Some(0));
    let mut root = os_core::easy_fs::layout::DiskInode {
        size: 0,
        direct: [0; 28],
        indirect1: 0,
        indirect2: 0,
        type_: os_core::easy_fs::layout::DiskInodeType::File,
    };
    root.initialize(os_core::easy_fs::layout::DiskInodeType::Directory);
    assert!(fs.write_inode(0, &root, c, d));
}

fn put_file(c: &mut BlockCacheManager, d: &mut RamDisk, name: &[u8], bytes: &[u8]) {
    let fs = file_system();
    let mut root = fs.read_inode(0, c, d).unwrap();
    let (id, mut inode) = os_core::easy_fs::vfs::create(&fs, &mut root, name, c, d).unwrap();
    let needed = inode.blocks_num_needed(bytes.len() as u32);
    let blocks: Vec<u32> = (0..needed).map(|_| fs.alloc_data(c, d).unwrap()).collect();
    inode.increase_size(bytes.len() as u32, blocks, c, d);
    assert_eq!(inode.write_at(0, bytes, c, d), bytes.len());
    assert!(fs.write_inode(id, &inode, c, d));
}


fn current(kernel: &Kernel) -> usize {
    kernel.processor.current.unwrap()
}

fn call(
    kernel: &mut Kernel,
    cache: &mut BlockCacheManager,
    disk: &mut RamDisk,
    id: u64,
    args: [u64; 3],
) -> TrapOutcome {
    let h = current(kernel);
    let t = kernel.threads[h].as_mut().unwrap();
    t.trap_cx.x[17] = id;
    t.trap_cx.x[10] = args[0];
    t.trap_cx.x[11] = args[1];
    t.trap_cx.x[12] = args[2];
    trap_handler(kernel, &file_system(), TrapCause::UserEnvCall, 0, cache, disk).0
}

fn a0(kernel: &Kernel, h: usize) -> i64 {
    kernel.threads[h].as_ref().unwrap().trap_cx.x[10] as i64
}

fn goes_back(out: &TrapOutcome) -> bool {
    matches!(out, TrapOutcome::Return { .. })
}

fn scheduled(out: &TrapOutcome) -> bool {
    matches!(out, TrapOutcome::Scheduled)
}

#[test]
fn getpid_returns_to_the_program_behind_the_call() {
    let (mut k, mut c, mut d) = boot();
    let h = current(&k);
    assert_eq!(k.threads[h].as_ref().unwrap().trap_cx.sepc, 0x10000);
    let token = k.processes[0].as_ref().unwrap().memory_set.token();
    let out = call(&mut k, &mut c, &mut d, 172, [7, 8, 9]);
    match out {
        TrapOutcome::Return { trap_cx_ptr, user_satp } => {
            assert_eq!(trap_cx_ptr, 0xffff_ffff_ffff_e000);
            assert_eq!(user_satp, token);
        },
        _ => panic!("the thread does not return"),
    }
    assert_eq!(a0(&k, h), 0);
    assert_eq!(k.threads[h].as_ref().unwrap().trap_cx.sepc, 0x10004);
    assert_eq!(k.threads[h].as_ref().unwrap().trap_cx.x[11], 8);
}

#[test]
fn unknown_call_and_bad_arguments_give_minus_one() {
    let (mut k, mut c, mut d) = boot();
    let h = current(&k);
    assert!(goes_back(&call(&mut k, &mut c, &mut d, 9999, [0, 0, 0])));
    assert_eq!(a0(&k, h), -1);
    assert!(goes_back(&call(&mut k, &mut c, &mut d, 64, [17, DATA, 4])));
    assert_eq!(a0(&k, h), -1);
    assert!(goes_back(&call(&mut k, &mut c, &mut d, 64, [1, 0x5000_0000, 4])));
    assert_eq!(a0(&k, h), -1);
    assert!(goes_back(&call(&mut k, &mut c, &mut d, 57, [9, 0, 0])));
    assert_eq!(a0(&k, h), -1);
    assert!(goes_back(&call(&mut k, &mut c, &mut d, 1011, [3, 0, 0])));
    assert_eq!(a0(&k, h), -1);
    assert!(goes_back(&call(&mut k, &mut c, &mut d, 129, [5, 10, 0])));
    assert_eq!(a0(&k, h), -1);
    assert!(goes_back(&call(&mut k, &mut c, &mut d, 134, [9, DATA, DATA + 16])));
    assert_eq!(a0(&k, h), -1);
    assert!(goes_back(&call(&mut k, &mut c, &mut d, 134, [10, 0, DATA + 16])));
    assert_eq!(a0(&k, h), -1);
    assert!(goes_back(&call(&mut k, &mut c, &mut d, 260, [5, DATA, 0])));
    assert_eq!(a0(&k, h), -1);
}

#[test]
fn console_write_and_read() {
    let (mut k, mut c, mut d) = boot();
    let h = current(&k);
    assert!(write_user(&mut k, 0, DATA, b"Hello, world!\n"));
    assert!(goes_back(&call(&mut k, &mut c, &mut d, 64, [1, DATA, 14])));
    assert_eq!(a0(&k, h), 14);
    assert_eq!(k.console_out, b"Hello, world!\n".to_vec());
    assert!(goes_back(&call(&mut k, &mut c, &mut d, 63, [1, DATA, 1])));
    assert_eq!(a0(&k, h), -1);
    assert!(goes_back(&call(&mut k, &mut c, &mut d, 63, [0, DATA, 2])));
    assert_eq!(a0(&k, h), -1);
    k.console_in = b"xy".to_vec();
    assert!(goes_back(&call(&mut k, &mut c, &mut d, 63, [0, DATA + 100, 1])));
    assert_eq!(a0(&k, h), 1);
    assert_eq!(read_user(&k, 0, DATA + 100, 1), Some(vec![b'x']));
    assert_eq!(k.console_in, b"y".to_vec());
}

#[test]
fn console_read_waits_for_a_key() {
    let (mut k, mut c, mut d) = boot();
    let h = current(&k);
    assert!(scheduled(&call(&mut k, &mut c, &mut d, 63, [0, DATA, 1])));
    assert_eq!(k.threads[h].as_ref().unwrap().resume, Resume::Again);
    assert_eq!(k.threads[h].as_ref().unwrap().task_status, TaskStatus::Ready);
    assert_eq!(a0(&k, h), 0);
    assert_eq!(run_tasks(&mut k), Some(h));
    assert!(scheduled(&resume_thread(&mut k, &file_system(), 0, &mut c, &mut d)));
    k.console_in = vec![b'q'];
    assert_eq!(run_tasks(&mut k), Some(h));
    assert!(goes_back(&resume_thread(&mut k, &file_system(), 0, &mut c, &mut d)));
    assert_eq!(a0(&k, h), 1);
    assert_eq!(read_user(&k, 0, DATA, 1), Some(vec![b'q']));
    assert_eq!(k.threads[h].as_ref().unwrap().trap_cx.sepc, 0x10004);
}

#[test]
fn fork_exec_wait() {
    let (mut k, mut c, mut d) = boot();
    let parent = current(&k);
    assert!(goes_back(&call(&mut k, &mut c, &mut d, 220, [0, 0, 0])));
    assert_eq!(a0(&k, parent), 1);
    let child = k.processes[1].as_ref().unwrap().tasks[0].unwrap();
    assert_ne!(child, parent);
    assert_eq!(a0(&k, child), 0);
    assert_eq!(k.processes[1].as_ref().unwrap().parent, Some(0));
    assert_eq!(k.processes[0].as_ref().unwrap().children, vec![1]);
    assert_eq!(k.threads[child].as_ref().unwrap().trap_cx.sepc, 0x10004);

    assert!(goes_back(&call(&mut k, &mut c, &mut d, 260, [1, DATA + 0x100, 0])));
    assert_eq!(a0(&k, parent), -2);
    assert!(goes_back(&call(&mut k, &mut c, &mut d, 260, [7, DATA + 0x100, 0])));
    assert_eq!(a0(&k, parent), -1);
    assert!(scheduled(&call(&mut k, &mut c, &mut d, 124, [0, 0, 0])));

    assert_eq!(run_tasks(&mut k), Some(child));
    assert!(goes_back(&resume_thread(&mut k, &file_system(), 0, &mut c, &mut d)));
    assert!(write_user(&mut k, 1, DATA, b"ls\0"));
    assert!(write_user(&mut k, 1, DATA + 8, b"-l\0"));
    let mut list: Vec<u8> = Vec::new();
    list.extend_from_slice(&DATA.to_le_bytes());
    list.extend_from_slice(&(DATA + 8).to_le_bytes());
    list.extend_from_slice(&0u64.to_le_bytes());
    assert!(write_user(&mut k, 1, DATA + 0x40, &list));
    assert!(goes_back(&call(&mut k, &mut c, &mut d, 221, [DATA, DATA + 0x40, 0])));
    assert_eq!(a0(&k, child), -1);
    assert_eq!(read_user(&k, 1, 0x10000, 4), Some(vec![0x13, 0, 0, 0]));
    let ls = elf_image(0x20000, &[1, 2, 3, 4], 0x1000, 5, 0x20000);
    put_file(&mut c, &mut d, b"ls", &ls);
    assert_eq!(
        os_core::easy_fs::vfs::read_named(&file_system(), b"ls", &mut c, &mut d),
        Some(ls.clone())
    );
    assert!(goes_back(&call(&mut k, &mut c, &mut d, 221, [DATA, DATA + 0x40, 0])));
    assert_eq!(a0(&k, child), 2);
    let t = k.threads[child].as_ref().unwrap();
    assert_eq!(t.trap_cx.sepc, 0x20000);
    assert_eq!(t.trap_cx.x[10], 2);
    let argv = t.trap_cx.x[11];
    let first = read_user(&k, 1, argv, 8).unwrap();
    let first = u64::from_le_bytes([
        first[0], first[1], first[2], first[3], first[4], first[5], first[6], first[7],
    ]);
    assert_eq!(read_user(&k, 1, first, 3), Some(b"ls\0".to_vec()));
    assert_eq!(read_user(&k, 1, 0x20000, 4), Some(vec![1, 2, 3, 4]));
    assert_eq!(read_user(&k, 1, 0x10000, 1), None);

    assert!(scheduled(&call(&mut k, &mut c, &mut d, 93, [0, 0, 0])));
    assert!(k.processes[1].as_ref().unwrap().is_zombie);
    assert_eq!(k.processes[1].as_ref().unwrap().exit_code, 0);

    assert_eq!(run_tasks(&mut k), Some(parent));
    assert!(goes_back(&resume_thread(&mut k, &file_system(), 0, &mut c, &mut d)));
    assert!(write_user(&mut k, 0, DATA + 0x100, &[9, 9, 9, 9]));
    assert!(goes_back(&call(&mut k, &mut c, &mut d, 260, [1, DATA + 0x100, 0])));
    assert_eq!(a0(&k, parent), 1);
    assert_eq!(read_user(&k, 0, DATA + 0x100, 4), Some(vec![0, 0, 0, 0]));
    assert!(k.processes[1].is_none());
    assert!(k.threads[child].is_none());
    assert!(k.processes[0].as_ref().unwrap().children.is_empty());
    assert!(goes_back(&call(&mut k, &mut c, &mut d, 260, [u64::MAX, DATA + 0x100, 0])));
    assert_eq!(a0(&k, parent), -1);
}

#[test]
fn wait_for_any_child_gets_the_exit_code() {
    let (mut k, mut c, mut d) = boot();
    let parent = current(&k);
    let free_before = k.frame_allocator.available();
    assert!(goes_back(&call(&mut k, &mut c, &mut d, 220, [0, 0, 0])));
    assert!(k.frame_allocator.available() < free_before);
    assert!(scheduled(&call(&mut k, &mut c, &mut d, 124, [0, 0, 0])));
    let child = run_tasks(&mut k).unwrap();
    assert!(goes_back(&resume_thread(&mut k, &file_system(), 0, &mut c, &mut d)));
    assert!(scheduled(&call(&mut k, &mut c, &mut d, 93, [(-7i32) as u32 as u64, 0, 0])));
    assert_eq!(run_tasks(&mut k), Some(parent));
    assert!(goes_back(&resume_thread(&mut k, &file_system(), 0, &mut c, &mut d)));
    assert!(goes_back(&call(&mut k, &mut c, &mut d, 260, [u64::MAX, DATA, 0])));
    assert_eq!(a0(&k, parent), 1);
    assert_eq!(read_user(&k, 0, DATA, 4), Some((-7i32).to_le_bytes().to_vec()));
    assert_eq!(k.frame_allocator.available(), free_before);
    assert!(k.threads[child].is_none());
    assert!(goes_back(&call(&mut k, &mut c, &mut d, 220, [0, 0, 0])));
    assert_eq!(a0(&k, parent), 1);
}

#[test]
fn first_process_ends_with_shutdown() {
    let (mut k, mut c, mut d) = boot();
    let out = call(&mut k, &mut c, &mut d, 93, [0, 0, 0]);
    assert!(matches!(out, TrapOutcome::Shutdown { success: true }));
    let (mut k, mut c, mut d) = boot();
    let out = call(&mut k, &mut c, &mut d, 93, [3, 0, 0]);
    assert!(matches!(out, TrapOutcome::Shutdown { success: false }));
}

#[test]
fn exec_of_a_bad_image_changes_nothing() {
    let (mut k, _c, _d) = boot();
    let args: Vec<Vec<u8>> = vec![b"x".to_vec()];
    assert_eq!(sys_exec(&mut k, None, &args), -1);
    assert_eq!(sys_exec(&mut k, Some(&[1, 2, 3]), &args), -1);
    assert_eq!(read_user(&k, 0, 0x10000, 4), Some(vec![0x13, 0, 0, 0]));
    let r = ProcessControlBlock::exec(&mut k, 0, &[0u8; 64], &args);
    assert!(matches!(r, Err(LoadError::InvalidElf)));
}

#[test]
fn exec_with_arguments_that_do_not_fit_changes_nothing() {
    let (mut k, _c, _d) = boot();
    let free = k.frame_allocator.available();
    let args: Vec<Vec<u8>> = vec![vec![b'a'; 9000]];
    let r = ProcessControlBlock::exec(&mut k, 0, &program(), &args);
    assert!(matches!(r, Err(LoadError::BadArguments)));
    assert_eq!(k.frame_allocator.available(), free);
    assert_eq!(read_user(&k, 0, 0x10000, 4), Some(vec![0x13, 0, 0, 0]));
    assert_eq!(sys_exec(&mut k, Some(&program()), &args), -1);
    let fits: Vec<Vec<u8>> = vec![b"prog".to_vec(), b"x".to_vec()];
    assert_eq!(sys_exec(&mut k, Some(&program()), &fits), 2);
}

#[test]
fn fork_without_frames_gives_back_what_it_took() {
    let (mut k, mut c, mut d) = boot();
    let h = current(&k);
    let mut held = Vec::new();
    while k.frame_allocator.available() > 12 {
        held.push(os_core::mm::frame_allocator::frame_alloc(&mut k.frame_allocator).unwrap());
    }
    assert!(goes_back(&call(&mut k, &mut c, &mut d, 220, [0, 0, 0])));
    assert_eq!(a0(&k, h), -1);
    assert_eq!(k.frame_allocator.available(), 12);
    assert_eq!(k.processes.iter().filter(|p| p.is_some()).count(), 1);
    assert!(k.processes[0].as_ref().unwrap().children.is_empty());
    while let Some(frame) = held.pop() {
        os_core::mm::frame_allocator::frame_dealloc(&mut k.frame_allocator, frame.ppn);
    }
    assert!(goes_back(&call(&mut k, &mut c, &mut d, 220, [0, 0, 0])));
    assert_eq!(a0(&k, h), 1);
}

#[test]
fn a_token_finds_the_page_table_of_its_address_space() {
    let (mut k, mut c, mut d) = boot();
    assert!(goes_back(&call(&mut k, &mut c, &mut d, 220, [0, 0, 0])));
    let kernel_token = k.kernel_space.token();
    let child_token = k.processes[1].as_ref().unwrap().memory_set.token();
    assert_ne!(kernel_token, child_token);
    let found = os_core::mm::page_table::PageTable::from_token(&k, child_token).unwrap();
    assert_eq!(found.root_ppn, k.processes[1].as_ref().unwrap().memory_set.page_table.root_ppn);
    assert!(found.translate(os_core::mm::address::VirtPageNum(0x10)).is_some());
    let found = os_core::mm::page_table::PageTable::from_token(&k, kernel_token).unwrap();
    assert_eq!(found.root_ppn, k.kernel_space.page_table.root_ppn);
    assert!(os_core::mm::page_table::PageTable::from_token(&k, 5).is_none());
}

use os_core::easy_fs::block_cache::BlockCacheManager;
use os_core::easy_fs::block_dev::RamDisk;
use os_core::fs::inode::{open_file, OpenAction};
use os_core::kernel::{Kernel, Machine};
use os_core::mm::memory_set::KernelLayout;
use os_core::syscall::sync::sys_mutex_unlock;
use os_core::syscall::user_memory::{read_user, write_user};
use os_core::task::process::ProcessControlBlock;
use os_core::task::sched::run_tasks;
use os_core::task::task::{Resume, TaskStatus};
use os_core::timer::check_timer;
use os_core::trap::{resume_thread, trap_handler, TrapCause, TrapOutcome};

const DATA: u64 = 0x11000;

fn elf_image(vaddr: u64, data: &[u8], mem_size: u64, flags: u32, entry: u64) -> Vec<u8> {
    let mut v: Vec<u8> = Vec::new();
    v.extend_from_slice(&[0x7f, 0x45, 0x4c, 0x46, 2, 1, 1, 0]);
    v.extend_from_slice(&[0u8; 8]);
    v.extend_from_slice(&2u16.to_le_bytes());
    v.extend_from_slice(&0xf3u16.to_le_bytes());
    v.extend_from_slice(&1u32.to_le_bytes());
    v.extend_from_slice(&entry.to_le_bytes());
    v.extend_from_slice(&64u64.to_le_bytes());
    v.extend_from_slice(&0u64.to_le_bytes());
    v.extend_from_slice(&0u32.to_le_bytes());
    v.extend_from_slice(&64u16.to_le_bytes());
    v.extend_from_slice(&56u16.to_le_bytes());
    v.extend_from_slice(&1u16.to_le_bytes());
    v.extend_from_slice(&64u16.to_le_bytes());
    v.extend_from_slice(&0u16.to_le_bytes());
    v.extend_from_slice(&0u16.to_le_bytes());
    v.extend_from_slice(&1u32.to_le_bytes());
    v.extend_from_slice(&flags.to_le_bytes());
    v.extend_from_slice(&120u64.to_le_bytes());
    v.extend_from_slice(&vaddr.to_le_bytes());
    v.extend_from_slice(&vaddr.to_le_bytes());
    v.extend_from_slice(&(data.len() as u64).to_le_bytes());
    v.extend_from_slice(&mem_size.to_le_bytes());
    v.extend_from_slice(&0x1000u64.to_le_bytes());
    v.extend_from_slice(data);
    v
}

fn program() -> Vec<u8> {
    elf_image(0x10000, &[0x13, 0, 0, 0], 0x2000, 7, 0x10000)
}

fn boot() -> (Kernel, BlockCacheManager, RamDisk) {
    let layout = KernelLayout {
        stext: 0x8020_0000,
        etext: 0x8020_3000,
        srodata: 0x8020_3000,
        erodata: 0x8020_4000,
        sdata: 0x8020_4000,
        edata: 0x8020_5000,
        sbss_with_stack: 0x8020_5000,
        ebss: 0x8020_8000,
        ekernel: 0x8020_8000,
        strampoline: 0x8020_1000,
        memory_end: 0x8040_0000,
        mmio: vec![],
    };
    let machine = Machine {
        strampoline: 0x8020_1000,
        trap_handler: 0x8020_0100,
        trap_return: 0x8020_0200,
        user_sstatus: 0x20,
        clock_freq: 10_000_000,
    };
    let mut kernel = Kernel::new(machine, &layout).ok().unwrap();
    let pid = ProcessControlBlock::new(&mut kernel, &program()).ok().unwrap();
    assert_eq!(pid, 0);
    assert_eq!(run_tasks(&mut kernel), Some(0));
    let mut cache = BlockCacheManager::new();
    let mut disk = RamDisk::new();
    format(&mut cache, &mut disk);
    (kernel, cache, disk)
}

fn file_system() -> os_core::easy_fs::efs::EasyFileSystem {
    os_core::easy_fs::efs::EasyFileSystem {
        inode_bitmap: os_core::easy_fs::bitmap::Bitmap::new(1, 1),
        data_bitmap: os_core::easy_fs::bitmap::Bitmap::new(6, 1),
        inode_area_start_block: 2,
        data_area_start_block: 7,
    }
}

fn format(c: &mut BlockCacheManager, d: &mut RamDisk) {
    for (i, w) in [0x3b80_0001u32, 107, 1, 4, 1, 100].iter().enumerate() {
        c.write_u32(0, i, *w, d);
    }
    let fs = os_core::easy_fs::efs::EasyFileSystem::open(c, d).unwrap();
    assert_eq!(fs.inode_area_start_block, 2);
    assert_eq!(fs.data_area_start_block, 7);
    assert_eq!(fs.inode_bitmap.start_block_id, 1);
    assert_eq!(fs.data_bitmap.start_block_id, 6);
    assert_eq!(fs.inode_bitmap.allocate(c, d), Some(0));
    let mut root = os_core::easy_fs::layout::DiskInode {
        size: 0,
        direct: [0; 28],
        indirect1: 0,
        indirect2: 0,
        type_: os_core::easy_fs::layout::DiskInodeType::File,
    };
    root.initialize(os_core::easy_fs::layout::DiskInodeType::Directory);
    assert!(fs.write_inode(0, &root, c, d));
}

fn put_file(c: &mut BlockCacheManager, d: &mut RamDisk, name: &[u8], bytes: &[u8]) {
    let fs = file_system();
    let mut root = fs.read_inode(0, c, d).unwrap();
    let (id, mut inode) = os_core::easy_fs::vfs::create(&fs, &mut root, name, c, d).unwrap();
    let needed = inode.blocks_num_needed(bytes.len() as u32);
    let blocks: Vec<u32> = (0..needed).map(|_| fs.alloc_data(c, d).unwrap()).collect();
    inode.increase_size(bytes.len() as u32, blocks, c, d);
    assert_eq!(inode.write_at(0, bytes, c, d), bytes.len());
    assert!(fs.write_inode(id, &inode, c, d));
}


fn current(kernel: &Kernel) -> usize {
    kernel.processor.current.unwrap()
}

fn call(
    kernel: &mut Kernel,
    cache: &mut BlockCacheManager,
    disk: &mut RamDisk,
    id: u64,
    args: [u64; 3],
) -> TrapOutcome {
    let h = current(kernel);
    let t = kernel.threads[h].as_mut().unwrap();
    t.trap_cx.x[17] = id;
    t.trap_cx.x[10] = args[0];
    t.trap_cx.x[11] = args[1];
    t.trap_cx.x[12] = args[2];
    trap_handler(kernel, &file_system(), TrapCause::UserEnvCall, 0, cache, disk).0
}

fn a0(kernel: &Kernel, h: usize) -> i64 {
    kernel.threads[h].as_ref().unwrap().trap_cx.x[10] as i64
}

fn goes_back(out: &TrapOutcome) -> bool {
    matches!(out, TrapOutcome::Return { .. })
}

fn scheduled(out: &TrapOutcome) -> bool {
    matches!(out, TrapOutcome::Scheduled)
}

fn word(kernel: &Kernel, pid: usize, addr: u64) -> u64 {
    let b = read_user(kernel, pid, addr, 8).unwrap();
    u64::from_le_bytes([b[0], b[1], b[2], b[3], b[4], b[5], b[6], b[7]])
}

fn switch_to(kernel: &mut Kernel, cache: &mut BlockCacheManager, disk: &mut RamDisk, h: usize) {
    assert_eq!(run_tasks(kernel), Some(h));
    assert!(goes_back(&resume_thread(kernel, &file_system(), 0, cache, disk)));
}

#[test]
fn pipe_carries_hello_world_from_parent_to_child() {
    let (mut k, mut c, mut d) = boot();
    let parent = current(&k);
    assert!(goes_back(&call(&mut k, &mut c, &mut d, 59, [0x5000_0000, 0, 0])));
    assert_eq!(a0(&k, parent), -1);
    assert!(goes_back(&call(&mut k, &mut c, &mut d, 59, [DATA, 0, 0])));
    assert_eq!(a0(&k, parent), 0);
    assert_eq!(word(&k, 0, DATA), 3);
    assert_eq!(word(&k, 0, DATA + 8), 4);
    assert!(goes_back(&call(&mut k, &mut c, &mut d, 220, [0, 0, 0])));
    let child = k.processes[1].as_ref().unwrap().tasks[0].unwrap();
    assert!(write_user(&mut k, 0, DATA + 0x20, b"Hello, world!\n"));
    assert!(goes_back(&call(&mut k, &mut c, &mut d, 64, [4, DATA + 0x20, 14])));
    assert_eq!(a0(&k, parent), 14);
    assert!(goes_back(&call(&mut k, &mut c, &mut d, 63, [4, DATA + 0x20, 1])));
    assert_eq!(a0(&k, parent), -1);
    assert!(goes_back(&call(&mut k, &mut c, &mut d, 57, [4, 0, 0])));
    assert_eq!(a0(&k, parent), 0);
    assert!(scheduled(&call(&mut k, &mut c, &mut d, 124, [0, 0, 0])));

    switch_to(&mut k, &mut c, &mut d, child);
    assert!(goes_back(&call(&mut k, &mut c, &mut d, 63, [3, DATA + 0x80, 14])));
    assert_eq!(a0(&k, child), 14);
    assert_eq!(read_user(&k, 1, DATA + 0x80, 14), Some(b"Hello, world!\n".to_vec()));
    assert!(scheduled(&call(&mut k, &mut c, &mut d, 63, [3, DATA + 0x80, 4])));
    assert_eq!(k.threads[child].as_ref().unwrap().resume, Resume::Again);
    assert_eq!(run_tasks(&mut k), Some(parent));
    assert!(goes_back(&resume_thread(&mut k, &file_system(), 0, &mut c, &mut d)));
    assert!(scheduled(&call(&mut k, &mut c, &mut d, 124, [0, 0, 0])));
    assert_eq!(run_tasks(&mut k), Some(child));
    assert!(scheduled(&resume_thread(&mut k, &file_system(), 0, &mut c, &mut d)));
    switch_to(&mut k, &mut c, &mut d, parent);
    assert!(scheduled(&call(&mut k, &mut c, &mut d, 124, [0, 0, 0])));
    assert_eq!(run_tasks(&mut k), Some(child));
    k.processes[1].as_mut().unwrap().fd_table[4] = None;
    let write_end = k.files.iter().position(|f| match f {
        Some(file) => matches!(&file.kind, os_core::fs::inode::FileKind::PipeEnd(p) if p.writable),
        None => false,
    }).unwrap();
    os_core::syscall::fs::close_file(&mut k, write_end);
    assert!(k.files[write_end].is_none());
    assert!(goes_back(&resume_thread(&mut k, &file_system(), 0, &mut c, &mut d)));
    assert_eq!(a0(&k, child), 0);
}

#[test]
fn a_long_write_to_a_pipe_waits_for_the_reader() {
    let (mut k, mut c, mut d) = boot();
    let h = current(&k);
    assert!(goes_back(&call(&mut k, &mut c, &mut d, 59, [DATA, 0, 0])));
    let text: Vec<u8> = (0..40u8).map(|i| i + 1).collect();
    assert!(write_user(&mut k, 0, DATA + 0x40, &text));
    assert!(scheduled(&call(&mut k, &mut c, &mut d, 64, [4, DATA + 0x40, 40])));
    assert_eq!(k.threads[h].as_ref().unwrap().progress, 32);
    assert_eq!(k.threads[h].as_ref().unwrap().resume, Resume::Again);
    assert_eq!(run_tasks(&mut k), Some(h));
    assert!(scheduled(&resume_thread(&mut k, &file_system(), 0, &mut c, &mut d)));
    assert_eq!(k.threads[h].as_ref().unwrap().progress, 32);
    let ring = k.pipes[0].as_mut().unwrap();
    assert_eq!(ring.read_up_to(32), text[..32].to_vec());
    assert_eq!(run_tasks(&mut k), Some(h));
    assert!(goes_back(&resume_thread(&mut k, &file_system(), 0, &mut c, &mut d)));
    assert_eq!(a0(&k, h), 40);
    assert_eq!(k.threads[h].as_ref().unwrap().progress, 0);
    assert!(goes_back(&call(&mut k, &mut c, &mut d, 63, [3, DATA + 0x100, 8])));
    assert_eq!(a0(&k, h), 8);
    assert_eq!(read_user(&k, 0, DATA + 0x100, 8), Some(text[32..].to_vec()));
}

#[test]
fn a_signal_handler_runs_and_returns() {
    let (mut k, mut c, mut d) = boot();
    let h = current(&k);
    let mut action: Vec<u8> = Vec::new();
    action.extend_from_slice(&0x10800u64.to_le_bytes());
    action.extend_from_slice(&(1u32 << 12).to_le_bytes());
    action.extend_from_slice(&[0u8; 4]);
    assert!(write_user(&mut k, 0, DATA, &action));
    assert!(write_user(&mut k, 0, DATA + 16, &[0xee; 16]));
    assert!(goes_back(&call(&mut k, &mut c, &mut d, 134, [10, DATA, DATA + 16])));
    assert_eq!(a0(&k, h), 0);
    let mut default_action: Vec<u8> = Vec::new();
    default_action.extend_from_slice(&0u64.to_le_bytes());
    default_action.extend_from_slice(&40u32.to_le_bytes());
    default_action.extend_from_slice(&[0u8; 4]);
    assert_eq!(read_user(&k, 0, DATA + 16, 16), Some(default_action));
    assert_eq!(k.processes[0].as_ref().unwrap().signal_actions.table[10].handler, 0x10800);

    let site = k.threads[h].as_ref().unwrap().trap_cx.sepc;
    assert!(goes_back(&call(&mut k, &mut c, &mut d, 129, [0, 10, 0])));
    let t = k.threads[h].as_ref().unwrap();
    assert_eq!(t.trap_cx.sepc, 0x10800);
    assert_eq!(t.trap_cx.x[10], 10);
    let p = k.processes[0].as_ref().unwrap();
    assert_eq!(p.handling_sig, 10);
    assert_eq!(p.signals.bits, 0);
    assert_eq!(p.signal_mask.bits, 1 << 12);
    let saved = p.trap_ctx_backup.unwrap();
    assert_eq!(saved.sepc, site + 4);
    assert_eq!(saved.x[10], 0);
    assert_eq!(saved.x[17], 129);

    assert!(goes_back(&call(&mut k, &mut c, &mut d, 139, [0, 0, 0])));
    let t = k.threads[h].as_ref().unwrap();
    assert_eq!(t.trap_cx.sepc, site + 4);
    assert_eq!(t.trap_cx.x[10], 0);
    assert_eq!(k.processes[0].as_ref().unwrap().handling_sig, -1);
    assert!(matches!(
        call(&mut k, &mut c, &mut d, 93, [0, 0, 0]),
        TrapOutcome::Shutdown { success: true }
    ));
}

#[test]
fn kill_twice_and_the_mask() {
    let (mut k, mut c, mut d) = boot();
    let h = current(&k);
    assert!(goes_back(&call(&mut k, &mut c, &mut d, 135, [1 << 10, 0, 0])));
    assert_eq!(a0(&k, h), 0);
    assert!(goes_back(&call(&mut k, &mut c, &mut d, 129, [0, 10, 0])));
    assert_eq!(a0(&k, h), 0);
    assert_eq!(k.processes[0].as_ref().unwrap().signals.bits, 1 << 10);
    assert!(goes_back(&call(&mut k, &mut c, &mut d, 129, [0, 10, 0])));
    assert_eq!(a0(&k, h), -1);
    assert_eq!(k.processes[0].as_ref().unwrap().signals.bits, 1 << 10);
    assert!(goes_back(&call(&mut k, &mut c, &mut d, 129, [0, 32, 0])));
    assert_eq!(a0(&k, h), -1);
    assert!(goes_back(&call(&mut k, &mut c, &mut d, 135, [0, 0, 0])));
    assert_eq!(a0(&k, h), 1 << 10);
    assert!(goes_back(&call(&mut k, &mut c, &mut d, 139, [0, 0, 0])));
    assert_eq!(a0(&k, h), -1);
}

#[test]
fn a_fault_ends_the_process_with_the_code_of_its_signal() {
    let (mut k, mut c, mut d) = boot();
    let parent = current(&k);
    assert!(goes_back(&call(&mut k, &mut c, &mut d, 220, [0, 0, 0])));
    assert!(scheduled(&call(&mut k, &mut c, &mut d, 124, [0, 0, 0])));
    let child = run_tasks(&mut k).unwrap();
    assert!(goes_back(&resume_thread(&mut k, &file_system(), 0, &mut c, &mut d)));
    let (out, timer) = trap_handler(&mut k, &file_system(), TrapCause::StorePageFault, 0, &mut c, &mut d);
    assert!(scheduled(&out));
    assert!(timer.is_none());
    assert_eq!(k.processes[1].as_ref().unwrap().exit_code, -11);
    assert_eq!(k.threads[child].as_ref().unwrap().exit_code, Some(-11));
    switch_to(&mut k, &mut c, &mut d, parent);
    assert!(goes_back(&call(&mut k, &mut c, &mut d, 260, [1, DATA, 0])));
    assert_eq!(a0(&k, parent), 1);
    assert_eq!(read_user(&k, 0, DATA, 4), Some((-11i32).to_le_bytes().to_vec()));

    assert!(goes_back(&call(&mut k, &mut c, &mut d, 220, [0, 0, 0])));
    assert!(scheduled(&call(&mut k, &mut c, &mut d, 124, [0, 0, 0])));
    run_tasks(&mut k).unwrap();
    assert!(goes_back(&resume_thread(&mut k, &file_system(), 0, &mut c, &mut d)));
    let (out, _) = trap_handler(&mut k, &file_system(), TrapCause::IllegalInstruction, 0, &mut c, &mut d);
    assert!(scheduled(&out));
    assert_eq!(k.processes[1].as_ref().unwrap().exit_code, -4);
}

#[test]
fn the_timer_preempts_and_wakes_sleepers() {
    let (mut k, mut c, mut d) = boot();
    let h = current(&k);
    let (out, timer) = trap_handler(&mut k, &file_system(), TrapCause::SupervisorTimer, 5000, &mut c, &mut d);
    assert!(scheduled(&out));
    assert_eq!(timer, Some(5000 + 100_000));
    assert_eq!(k.threads[h].as_ref().unwrap().task_status, TaskStatus::Ready);
    switch_to(&mut k, &mut c, &mut d, h);
    assert_eq!(k.threads[h].as_ref().unwrap().task_status, TaskStatus::Running);

    let t = k.threads[h].as_mut().unwrap();
    t.trap_cx.x[17] = 101;
    t.trap_cx.x[10] = 5;
    let (out, _) = trap_handler(&mut k, &file_system(), TrapCause::UserEnvCall, 20_000, &mut c, &mut d);
    assert!(scheduled(&out));
    assert_eq!(k.threads[h].as_ref().unwrap().task_status, TaskStatus::Blocking);
    assert_eq!(k.timers.list.len(), 1);
    assert_eq!(k.timers.list[0].expire_ms, 7);
    assert_eq!(run_tasks(&mut k), None);
    check_timer(&mut k, 6);
    assert_eq!(run_tasks(&mut k), None);
    check_timer(&mut k, 7);
    assert!(k.timers.list.is_empty());
    assert_eq!(run_tasks(&mut k), Some(h));
    assert!(goes_back(&resume_thread(&mut k, &file_system(), 0, &mut c, &mut d)));
    assert_eq!(a0(&k, h), 0);

    let t = k.threads[h].as_mut().unwrap();
    t.trap_cx.x[17] = 169;
    let (out, _) = trap_handler(&mut k, &file_system(), TrapCause::UserEnvCall, 123_456_789, &mut c, &mut d);
    assert!(goes_back(&out));
    assert_eq!(a0(&k, h), 12_345);
}

#[test]
fn mutexes_semaphores_and_condition_variables_by_call() {
    let (mut k, mut c, mut d) = boot();
    let h = current(&k);
    assert!(goes_back(&call(&mut k, &mut c, &mut d, 1010, [0, 0, 0])));
    assert_eq!(a0(&k, h), 0);
    assert!(goes_back(&call(&mut k, &mut c, &mut d, 1010, [1, 0, 0])));
    assert_eq!(a0(&k, h), 1);
    assert!(goes_back(&call(&mut k, &mut c, &mut d, 1011, [0, 0, 0])));
    assert_eq!(a0(&k, h), 0);
    assert!(scheduled(&call(&mut k, &mut c, &mut d, 1011, [0, 0, 0])));
    assert_eq!(k.threads[h].as_ref().unwrap().resume, Resume::Again);
    assert_eq!(run_tasks(&mut k), Some(h));
    assert!(scheduled(&resume_thread(&mut k, &file_system(), 0, &mut c, &mut d)));
    assert_eq!(run_tasks(&mut k), Some(h));
    assert_eq!(sys_mutex_unlock(&mut k, 0), 0);
    assert!(goes_back(&resume_thread(&mut k, &file_system(), 0, &mut c, &mut d)));
    assert_eq!(a0(&k, h), 0);
    assert!(goes_back(&call(&mut k, &mut c, &mut d, 1012, [0, 0, 0])));
    assert_eq!(a0(&k, h), 0);

    assert!(goes_back(&call(&mut k, &mut c, &mut d, 1011, [1, 0, 0])));
    assert!(scheduled(&call(&mut k, &mut c, &mut d, 1011, [1, 0, 0])));
    assert_eq!(k.threads[h].as_ref().unwrap().task_status, TaskStatus::Blocking);
    assert_eq!(run_tasks(&mut k), None);

    let (mut k, mut c, mut d) = boot();
    let h = current(&k);
    assert!(goes_back(&call(&mut k, &mut c, &mut d, 1020, [2, 0, 0])));
    assert_eq!(a0(&k, h), 0);
    assert!(goes_back(&call(&mut k, &mut c, &mut d, 1022, [0, 0, 0])));
    assert!(goes_back(&call(&mut k, &mut c, &mut d, 1022, [0, 0, 0])));
    assert_eq!(k.processes[0].as_ref().unwrap().semaphore_list[0].as_ref().unwrap().count, 0);
    assert!(goes_back(&call(&mut k, &mut c, &mut d, 1021, [0, 0, 0])));
    assert_eq!(k.processes[0].as_ref().unwrap().semaphore_list[0].as_ref().unwrap().count, 1);
    assert!(goes_back(&call(&mut k, &mut c, &mut d, 1021, [4, 0, 0])));
    assert_eq!(a0(&k, h), -1);
    assert!(goes_back(&call(&mut k, &mut c, &mut d, 1030, [0, 0, 0])));
    assert_eq!(a0(&k, h), 0);
    assert!(goes_back(&call(&mut k, &mut c, &mut d, 1031, [0, 0, 0])));
    assert_eq!(a0(&k, h), 0);
    assert!(goes_back(&call(&mut k, &mut c, &mut d, 1010, [1, 0, 0])));
    assert!(goes_back(&call(&mut k, &mut c, &mut d, 1011, [0, 0, 0])));
    assert!(scheduled(&call(&mut k, &mut c, &mut d, 1032, [0, 0, 0])));
    let t = k.threads[h].as_ref().unwrap();
    assert_eq!(t.resume, Resume::Relock(0));
    assert_eq!(t.task_status, TaskStatus::Blocking);
    assert_eq!(k.processes[0].as_ref().unwrap().condvar_list[0].as_ref().unwrap().wait_queue, vec![h]);
}

#[test]
fn descriptors_are_shared_closed_and_opened() {
    let (mut k, mut c, mut d) = boot();
    let h = current(&k);
    assert!(goes_back(&call(&mut k, &mut c, &mut d, 24, [1, 0, 0])));
    assert_eq!(a0(&k, h), 3);
    assert!(goes_back(&call(&mut k, &mut c, &mut d, 24, [9, 0, 0])));
    assert_eq!(a0(&k, h), -1);
    assert!(write_user(&mut k, 0, DATA, b"ok"));
    assert!(goes_back(&call(&mut k, &mut c, &mut d, 64, [3, DATA, 2])));
    assert_eq!(k.console_out, b"ok".to_vec());
    assert!(goes_back(&call(&mut k, &mut c, &mut d, 57, [3, 0, 0])));
    assert_eq!(a0(&k, h), 0);
    assert!(goes_back(&call(&mut k, &mut c, &mut d, 57, [3, 0, 0])));
    assert_eq!(a0(&k, h), -1);
    assert!(goes_back(&call(&mut k, &mut c, &mut d, 64, [1, DATA, 2])));
    assert_eq!(a0(&k, h), 2);

    assert!(write_user(&mut k, 0, DATA + 0x10, b"filea\0"));
    assert!(goes_back(&call(&mut k, &mut c, &mut d, 56, [DATA + 0x10, 4, 0])));
    assert_eq!(a0(&k, h), -1);
    assert!(goes_back(&call(&mut k, &mut c, &mut d, 56, [0x5000_0000, 0, 0])));
    assert_eq!(a0(&k, h), -1);
    assert!(goes_back(&call(&mut k, &mut c, &mut d, 56, [DATA + 0x10, 2, 0])));
    assert_eq!(a0(&k, h), -1);
    let flags = os_core::fs::inode::OpenFlags::from_bits(2).unwrap();
    assert_eq!(open_file(false, flags), OpenAction::Fail);
    assert_eq!(
        open_file(true, flags),
        OpenAction::Open { clear: false, readable: true, writable: true }
    );

    put_file(&mut c, &mut d, b"filea", &[0u8; 5000]);
    assert!(goes_back(&call(&mut k, &mut c, &mut d, 56, [DATA + 0x10, 2, 0])));
    assert_eq!(a0(&k, h), 3);
    let written: Vec<u8> = (0..5000u32).map(|i| (i * 31 % 256) as u8).collect();
    assert!(write_user(&mut k, 0, 0x10000, &written));
    assert!(goes_back(&call(&mut k, &mut c, &mut d, 64, [3, 0x10000, 5000])));
    assert_eq!(a0(&k, h), 5000);
    assert!(goes_back(&call(&mut k, &mut c, &mut d, 64, [3, 0x10000, 10])));
    assert_eq!(a0(&k, h), 0);
    assert!(write_user(&mut k, 0, DATA + 0x10, b"filea\0"));
    assert!(goes_back(&call(&mut k, &mut c, &mut d, 56, [DATA + 0x10, 0, 0])));
    assert_eq!(a0(&k, h), 4);
    assert!(goes_back(&call(&mut k, &mut c, &mut d, 64, [4, 0x10000, 10])));
    assert_eq!(a0(&k, h), -1);
    assert!(goes_back(&call(&mut k, &mut c, &mut d, 63, [4, 0x13000, 4000])));
    assert_eq!(a0(&k, h), 4000);
    assert!(goes_back(&call(&mut k, &mut c, &mut d, 63, [4, 0x13000 + 4000, 4000])));
    assert_eq!(a0(&k, h), 1000);
    assert_eq!(read_user(&k, 0, 0x13000, 5000), Some(written));
    assert!(goes_back(&call(&mut k, &mut c, &mut d, 56, [DATA + 0x10, 0x402, 0])));
    assert_eq!(a0(&k, h), 5);
    assert!(goes_back(&call(&mut k, &mut c, &mut d, 63, [5, 0x13000, 10])));
    assert_eq!(a0(&k, h), 0);
}

fn small_disk() -> (os_core::easy_fs::efs::EasyFileSystem, BlockCacheManager, RamDisk) {
    let mut c = BlockCacheManager::new();
    let mut d = RamDisk::new();
    assert!(os_core::easy_fs::efs::EasyFileSystem::open(&mut c, &mut d).is_none());
    format(&mut c, &mut d);
    (os_core::easy_fs::efs::EasyFileSystem::open(&mut c, &mut d).unwrap(), c, d)
}

#[test]
fn files_are_opened_by_name() {
    let (mut k, _, _) = boot();
    let (fs, mut c, mut d) = small_disk();
    let flags = |bits: u32| os_core::fs::inode::OpenFlags::from_bits(bits).unwrap();
    let before = k.processes[0].as_ref().unwrap().fd_table.clone();
    assert_eq!(
        os_core::syscall::fs::open_named(&mut k, &fs, b"filea", flags(0), &mut c, &mut d),
        -1
    );
    assert_eq!(k.processes[0].as_ref().unwrap().fd_table, before);
    assert_eq!(
        os_core::syscall::fs::open_named(&mut k, &fs, b"filea", flags(0x400), &mut c, &mut d),
        -1
    );

    let fd = os_core::syscall::fs::open_named(&mut k, &fs, b"filea", flags(0x201), &mut c, &mut d);
    assert_eq!(fd, 3);
    let root = fs.read_inode(0, &mut c, &mut d).unwrap();
    assert_eq!(root.size, 32);
    assert!(root.is_dir());
    assert_eq!(os_core::easy_fs::vfs::ls(&root, &mut c, &mut d), vec![b"filea".to_vec()]);
    let id = os_core::easy_fs::vfs::find_inode_id(&root, b"filea", &mut c, &mut d).unwrap();
    assert_eq!(id, 1);
    assert!(fs.inode_bitmap.is_allocated(&mut c, &mut d, 1));
    assert!(!fs.inode_bitmap.is_allocated(&mut c, &mut d, 2));
    let file = k.processes[0].as_ref().unwrap().fd_table[3].unwrap();
    match &k.files[file].as_ref().unwrap().kind {
        os_core::fs::inode::FileKind::Inode(f) => {
            assert!(!f.readable && f.writable);
            assert_eq!(f.offset, 0);
            assert_eq!(f.inode.size, 0);
        },
        _ => panic!("no file on the disk"),
    }

    let mut grown = fs.read_inode(id, &mut c, &mut d).unwrap();
    let block = fs.alloc_data(&mut c, &mut d).unwrap();
    assert_eq!(block, 7 + 1);
    grown.increase_size(100, vec![block], &mut c, &mut d);
    assert_eq!(grown.write_at(0, &[9u8; 100], &mut c, &mut d), 100);
    assert!(fs.write_inode(id, &grown, &mut c, &mut d));

    let fd = os_core::syscall::fs::open_named(&mut k, &fs, b"filea", flags(0), &mut c, &mut d);
    assert_eq!(fd, 4);
    let file = k.processes[0].as_ref().unwrap().fd_table[4].unwrap();
    match &k.files[file].as_ref().unwrap().kind {
        os_core::fs::inode::FileKind::Inode(f) => {
            assert!(f.readable && !f.writable);
            assert_eq!(f.inode.size, 100);
            assert_eq!(f.inode.direct[0], block);
        },
        _ => panic!("no file on the disk"),
    }
    let h = current(&k);
    let mut cache = c;
    let mut disk = d;
    assert!(goes_back(&call(&mut k, &mut cache, &mut disk, 63, [4, DATA, 100])));
    assert_eq!(a0(&k, h), 100);
    assert_eq!(read_user(&k, 0, DATA, 100), Some(vec![9u8; 100]));

    let fd =
        os_core::syscall::fs::open_named(&mut k, &fs, b"filea", flags(0x402), &mut cache, &mut disk);
    assert_eq!(fd, 5);
    let emptied = fs.read_inode(id, &mut cache, &mut disk).unwrap();
    assert_eq!(emptied.size, 0);
    assert!(!fs.data_bitmap.is_allocated(&mut cache, &mut disk, 1));
    let fd =
        os_core::syscall::fs::open_named(&mut k, &fs, b"filea", flags(0x200), &mut cache, &mut disk);
    assert_eq!(fd, 6);
    let root = fs.read_inode(0, &mut cache, &mut disk).unwrap();
    assert_eq!(root.size, 32);
    let long = [b'n'; 28];
    assert_eq!(
        os_core::syscall::fs::open_named(&mut k, &fs, &long, flags(0x200), &mut cache, &mut disk),
        -1
    );
    assert_eq!(
        os_core::syscall::fs::open_named(&mut k, &fs, b"fileb", flags(0x200), &mut cache, &mut disk),
        7
    );
    let root = fs.read_inode(0, &mut cache, &mut disk).unwrap();
    assert_eq!(
        os_core::easy_fs::vfs::ls(&root, &mut cache, &mut disk),
        vec![b"filea".to_vec(), b"fileb".to_vec()]
    );
}

#[test]
fn stale_handles_in_the_ready_queue_are_skipped() {
    let (mut k, mut c, mut d) = boot();
    let h = current(&k);
    assert!(scheduled(&call(&mut k, &mut c, &mut d, 124, [0, 0, 0])));
    k.task_manager.ready_queue.insert(0, 55);
    k.task_manager.ready_queue.insert(0, 77);
    assert_eq!(run_tasks(&mut k), Some(h));
    assert!(k.task_manager.ready_queue.is_empty());
    assert!(goes_back(&resume_thread(&mut k, &file_system(), 0, &mut c, &mut d)));
    assert!(scheduled(&call(&mut k, &mut c, &mut d, 1010, [1, 0, 0])) == false);
    k.processor.current = None;
    k.task_manager.ready_queue.push(99);
    assert_eq!(run_tasks(&mut k), None);
    assert!(k.task_manager.ready_queue.is_empty());
}

#[test]
fn sigreturn_keeps_a_register_with_the_top_bit_set() {
    let (mut k, mut c, mut d) = boot();
    let h = current(&k);
    let mut saved = k.threads[h].as_ref().unwrap().trap_cx;
    saved.x[10] = 0xffff_ffff_0000_0001;
    saved.sepc = 0x10abc;
    k.processes[0].as_mut().unwrap().trap_ctx_backup = Some(saved);
    k.processes[0].as_mut().unwrap().handling_sig = 10;
    assert!(goes_back(&call(&mut k, &mut c, &mut d, 139, [0, 0, 0])));
    let t = k.threads[h].as_ref().unwrap();
    assert_eq!(t.trap_cx.x[10], 0xffff_ffff_0000_0001);
    assert_eq!(t.trap_cx.sepc, 0x10abc);
    assert_eq!(k.processes[0].as_ref().unwrap().handling_sig, -1);
    assert_eq!(os_core::syscall::process::to_signed(u64::MAX), -1);
    assert_eq!(os_core::syscall::process::to_signed(1 << 63), i64::MIN);
    assert_eq!(os_core::syscall::process::to_low_signed(0x1_ffff_fff9), -7);
    assert_eq!(os_core::syscall::process::to_low_signed(0x7fff_ffff), i32::MAX);
    assert_eq!(os_core::syscall::process::to_word32(-1), u32::MAX);
    assert_eq!(os_core::syscall::process::to_word32(5), 5);
}

#[test]
fn unlocking_a_free_mutex_gives_minus_one() {
    let (mut k, mut c, mut d) = boot();
    let h = current(&k);
    assert!(goes_back(&call(&mut k, &mut c, &mut d, 1010, [1, 0, 0])));
    assert!(goes_back(&call(&mut k, &mut c, &mut d, 1012, [0, 0, 0])));
    assert_eq!(a0(&k, h), -1);
    assert!(goes_back(&call(&mut k, &mut c, &mut d, 1030, [0, 0, 0])));
    assert!(goes_back(&call(&mut k, &mut c, &mut d, 1032, [0, 0, 0])));
    assert_eq!(a0(&k, h), -1);
    assert!(goes_back(&call(&mut k, &mut c, &mut d, 1011, [0, 0, 0])));
    assert!(goes_back(&call(&mut k, &mut c, &mut d, 1012, [0, 0, 0])));
    assert_eq!(a0(&k, h), 0);
}

#[test]
fn trap_context_words_round_trip() {
    let (k, _, _) = boot();
    let cx = k.threads[0].as_ref().unwrap().trap_cx;
    let words = cx.to_words();
    assert_eq!(words.len(), 37);
    assert_eq!(words[2], cx.x[2]);
    assert_eq!(words[33], 0x10000);
    assert_eq!(words[32], 0x20);
    assert_eq!(words[36], 0x8020_0100);
    let back = os_core::trap::context::TrapContext::from_words(&words);
    assert_eq!(back.x, cx.x);
    assert_eq!(back.sepc, cx.sepc);
    assert_eq!(back.kernel_sp, cx.kernel_sp);
    assert_eq!(back.kernel_satp, cx.kernel_satp);
}

use os_core::fs::inode::{open_file, OpenAction, OpenFlags};
use os_core::fs::pipe::{PipeRingBuffer, RingBufferStatus};
use os_core::sync::condvar::Condvar;
use os_core::sync::mutex::{LockOutcome, Mutex, MutexBlocking, MutexSpin};
use os_core::sync::semaphore::Semaphore;
use os_core::sync::up::IntrMaskingInfo;
use os_core::task::action::SignalActions;
use os_core::task::delivery::{deliver_pending, SignalState};
use os_core::task::id::{kernel_stack_position, RecycleAllocator};
use os_core::task::signal::SignalFlags;
use os_core::timer::{get_time_ms, set_next_trigger, Timers};
use os_core::trap::context::TrapContext;
use os_core::user::shell::{split_words, valid_pipeline, ProcessArguments};

#[test]
fn pipe_ring_capacity_and_order() {
    let mut ring = PipeRingBuffer::new();
    assert_eq!(ring.available_read(), 0);
    assert_eq!(ring.available_write(), 32);
    assert_eq!(ring.status, RingBufferStatus::Empty);
    let data: Vec<u8> = (0..40u8).collect();
    assert_eq!(ring.write_up_to(&data), 32);
    assert_eq!(ring.status, RingBufferStatus::Full);
    assert_eq!(ring.available_read() + ring.available_write(), 32);
    assert_eq!(ring.available_write(), 0);
    assert_eq!(ring.read_up_to(5), vec![0, 1, 2, 3, 4]);
    assert_eq!(ring.status, RingBufferStatus::Normal);
    assert_eq!(ring.available_read(), 27);
    assert_eq!(ring.available_write(), 5);
    assert_eq!(ring.write_up_to(&[100, 101, 102]), 3);
    let rest = ring.read_up_to(64);
    assert_eq!(rest.len(), 30);
    assert_eq!(rest[0], 5);
    assert_eq!(rest[26], 31);
    assert_eq!(&rest[27..], &[100, 101, 102]);
    assert_eq!(ring.status, RingBufferStatus::Empty);
    assert_eq!(ring.available_read(), 0);
    assert_eq!(ring.available_write(), 32);
}

#[test]
fn pipe_ring_single_bytes_and_write_end() {
    let mut ring = PipeRingBuffer::new();
    assert!(ring.write_end.is_none());
    ring.set_write_end();
    assert!(!ring.all_write_ends_closed());
    ring.write_byte(7);
    ring.write_byte(8);
    assert_eq!(ring.available_read(), 2);
    assert_eq!(ring.read_byte(), 7);
    assert_eq!(ring.read_byte(), 8);
    assert_eq!(ring.status, RingBufferStatus::Empty);
    ring.write_end = Some(0);
    assert!(ring.all_write_ends_closed());
}

#[test]
fn spin_mutex_retries_and_blocking_mutex_queues() {
    let mut spin = MutexSpin::new();
    assert_eq!(spin.lock(1), LockOutcome::Acquired);
    assert_eq!(spin.lock(2), LockOutcome::Retry);
    assert_eq!(spin.unlock(), None);
    assert!(!spin.locked);
    assert_eq!(spin.lock(2), LockOutcome::Acquired);

    let mut m = MutexBlocking::new();
    assert_eq!(m.lock(1), LockOutcome::Acquired);
    assert_eq!(m.lock(2), LockOutcome::Blocked);
    assert_eq!(m.lock(3), LockOutcome::Blocked);
    assert_eq!(m.wait_queue, vec![2, 3]);
    assert_eq!(m.unlock(), Some(2));
    assert!(m.locked);
    assert_eq!(m.unlock(), Some(3));
    assert!(m.locked);
    assert_eq!(m.unlock(), None);
    assert!(!m.locked);
}

#[test]
fn semaphore_counts_below_zero_and_wakes_in_order() {
    let mut s = Semaphore::new(1);
    assert!(!s.down(1));
    assert!(s.down(2));
    assert!(s.down(3));
    assert_eq!(s.count, -2);
    assert_eq!(s.up(), Some(2));
    assert_eq!(s.up(), Some(3));
    assert_eq!(s.up(), None);
    assert_eq!(s.count, 1);
    let mut z = Semaphore::new(0);
    assert_eq!(z.up(), None);
    assert_eq!(z.count, 1);
}

#[test]
fn condvar_wakes_one_and_gives_the_mutex_up() {
    let mut cv = Condvar::new();
    assert_eq!(cv.signal(), None);
    let mut m = MutexBlocking::new();
    assert_eq!(m.lock(1), LockOutcome::Acquired);
    assert_eq!(m.lock(2), LockOutcome::Blocked);
    assert_eq!(cv.wait_with_mutex(&mut m, 1), Some(2));
    assert!(m.locked);
    cv.wait_no_sched(5);
    assert_eq!(cv.wait_queue, vec![1, 5]);
    assert_eq!(cv.signal(), Some(1));
    assert_eq!(cv.signal(), Some(5));
    assert_eq!(cv.signal(), None);
}

#[test]
fn producers_and_consumer_over_a_ring_of_eight() {
    const PRODUCERS: usize = 4;
    const ITEMS: usize = 100;
    let mut empty = Semaphore::new(8);
    let mut existed = Semaphore::new(0);
    let mut mutex = Semaphore::new(1);
    let mut ring = [0usize; 8];
    let mut front = 0usize;
    let mut tail = 0usize;
    let mut pc = [0usize; PRODUCERS + 1];
    let mut made = [0usize; PRODUCERS];
    let mut got: Vec<usize> = Vec::new();
    let mut ready: Vec<usize> = (0..=PRODUCERS).collect();
    let consumer = PRODUCERS;
    let mut turns = 0usize;
    while let Some(t) = if ready.is_empty() { None } else { Some(ready.remove(0)) } {
        turns += 1;
        assert!(turns < 100_000);
        let producer = t < PRODUCERS;
        if producer && pc[t] == 0 && made[t] == ITEMS {
            continue;
        }
        if !producer && pc[t] == 0 && got.len() == PRODUCERS * ITEMS {
            continue;
        }
        let blocked = match pc[t] {
            0 => {
                pc[t] = 1;
                if producer { empty.down(t) } else { existed.down(t) }
            },
            1 => {
                pc[t] = 2;
                mutex.down(t)
            },
            2 => {
                if producer {
                    ring[tail] = t * 1000 + made[t];
                    tail = (tail + 1) % 8;
                    made[t] += 1;
                } else {
                    got.push(ring[front]);
                    front = (front + 1) % 8;
                }
                pc[t] = 3;
                if let Some(w) = mutex.up() {
                    ready.push(w);
                }
                false
            },
            _ => {
                pc[t] = 0;
                let woken = if producer { existed.up() } else { empty.up() };
                if let Some(w) = woken {
                    ready.push(w);
                }
                false
            },
        };
        if !blocked {
            ready.push(t);
        }
    }
    assert_eq!(got.len(), PRODUCERS * ITEMS);
    let mut sorted = got.clone();
    sorted.sort();
    sorted.dedup();
    assert_eq!(sorted.len(), PRODUCERS * ITEMS);
    for p in 0..PRODUCERS {
        let own: Vec<usize> = got.iter().copied().filter(|v| v / 1000 == p).collect();
        let expected: Vec<usize> = (0..ITEMS).map(|i| p * 1000 + i).collect();
        assert_eq!(own, expected);
    }
    assert_eq!(existed.count, 0);
    assert_eq!(empty.count, 8);
    assert_eq!(mutex.count, 1);
}

#[test]
fn signal_flags_and_error_codes() {
    let mut s = SignalFlags::empty();
    assert!(s.is_empty());
    s.insert(SignalFlags::of(10));
    s.insert(SignalFlags::of(10));
    assert_eq!(s.bits, 1 << 10);
    assert!(s.contains(SignalFlags::of(10)));
    assert!(!s.contains(SignalFlags::of(9)));
    assert_eq!(s.check_error(), None);
    assert_eq!(SignalFlags::of(2).check_error(), Some((-2, "Killed, SIGINT=2")));
    assert_eq!(SignalFlags::of(4).check_error().unwrap().0, -4);
    assert_eq!(SignalFlags::of(6).check_error().unwrap().0, -6);
    assert_eq!(SignalFlags::of(8).check_error().unwrap().0, -8);
    assert_eq!(SignalFlags::of(11).check_error().unwrap().0, -11);
    assert_eq!(SignalFlags { bits: (1 << 11) | (1 << 4) }.check_error().unwrap().0, -4);
    s.toggle(SignalFlags::of(10));
    assert!(s.is_empty());
    assert_eq!(SignalFlags::from_bits(5), Some(SignalFlags { bits: 5 }));
}

fn signal_state(signals: u32, mask: u32) -> SignalState {
    SignalState {
        signals: SignalFlags { bits: signals },
        mask: SignalFlags { bits: mask },
        frozen: false,
        killed: false,
        handling_sig: -1,
        backup: None,
        trap_cx: TrapContext {
            x: [5; 32],
            sstatus: 1,
            sepc: 0x1000,
            kernel_satp: 2,
            kernel_sp: 3,
            trap_handler: 4,
        },
    }
}

#[test]
fn delivery_runs_a_handler_for_the_lowest_deliverable_signal() {
    let mut actions = SignalActions::default();
    actions.table[10].handler = 0x4000;
    actions.table[10].mask = SignalFlags { bits: 1 << 12 };
    actions.table[12].handler = 0x5000;
    let mut s = signal_state((1 << 10) | (1 << 12), 0);
    deliver_pending(&mut s, &actions);
    assert_eq!(s.signals.bits, 1 << 12);
    assert_eq!(s.mask.bits, 1 << 12);
    assert_eq!(s.handling_sig, 10);
    assert_eq!(s.trap_cx.sepc, 0x4000);
    assert_eq!(s.trap_cx.x[10], 10);
    assert_eq!(s.trap_cx.x[11], 5);
    let saved = s.backup.unwrap();
    assert_eq!(saved.sepc, 0x1000);
    assert_eq!(saved.x[10], 5);
    deliver_pending(&mut s, &actions);
    assert_eq!(s.signals.bits, 1 << 12);
    assert_eq!(s.trap_cx.sepc, 0x4000);
}

#[test]
fn delivery_stops_continues_and_kills() {
    let actions = SignalActions::default();
    let mut s = signal_state(1 << 19, 0);
    deliver_pending(&mut s, &actions);
    assert!(s.frozen && !s.killed);
    assert_eq!(s.signals.bits, 0);
    s.signals.insert(SignalFlags::of(18));
    deliver_pending(&mut s, &actions);
    assert!(!s.frozen);
    assert_eq!(s.signals.bits, 0);
    s.signals.insert(SignalFlags::of(9));
    deliver_pending(&mut s, &actions);
    assert!(s.killed);
    assert_eq!(s.signals.bits, 1 << 9);
    let mut blocked = signal_state(1 << 9, 1 << 9);
    deliver_pending(&mut blocked, &actions);
    assert!(!blocked.killed);
    let mut ignored = signal_state((1 << 10) | (1 << 19), 0);
    deliver_pending(&mut ignored, &actions);
    assert_eq!(ignored.signals.bits, (1 << 10) | (1 << 19));
    assert!(!ignored.frozen);
    assert!(ignored.backup.is_none());
}

#[test]
fn timers_wake_in_order_of_expiry() {
    let mut t = Timers::new();
    t.add_timer(30, 3);
    t.add_timer(10, 1);
    t.add_timer(20, 2);
    t.add_timer(10, 4);
    assert_eq!(t.check_timer(5), Vec::<usize>::new());
    assert_eq!(t.check_timer(20), vec![1, 4, 2]);
    assert_eq!(t.list.len(), 1);
    assert_eq!(t.check_timer(30), vec![3]);
    assert_eq!(get_time_ms(12_500_000, 12_500_000), 1000);
    assert_eq!(set_next_trigger(1000, 12_500_000), 126_000);
}

#[test]
fn recycled_numbers_come_back_last_first() {
    let mut a = RecycleAllocator::new();
    assert_eq!(a.allocate(), 0);
    assert_eq!(a.allocate(), 1);
    assert_eq!(a.allocate(), 2);
    a.dealloc(0);
    a.dealloc(2);
    assert!(a.is_allocated(1));
    assert!(!a.is_allocated(2));
    assert_eq!(a.allocate(), 2);
    assert_eq!(a.allocate(), 0);
    assert_eq!(a.allocate(), 3);
    let (bottom, top) = kernel_stack_position(2);
    assert_eq!(top, 0xffff_ffff_ffff_f000 - 2 * 12288);
    assert_eq!(bottom, top - 8192);
}

#[test]
fn interrupt_masking_nests() {
    let mut m = IntrMaskingInfo::new();
    m.enter(true);
    m.enter(false);
    assert_eq!(m.nested_level, 2);
    assert!(!m.exit());
    assert!(m.exit());
    m.enter(false);
    assert!(!m.exit());
}

#[test]
fn shell_words_and_redirects() {
    let words = split_words(b"  cat   filea ");
    assert_eq!(words, vec![b"cat\0".to_vec(), b"filea\0".to_vec()]);
    assert!(split_words(b"").is_empty());
    assert!(split_words(b"   ").is_empty());
    let hello = ProcessArguments::new(b"hello_world ");
    assert!(hello.input.is_empty() && hello.output.is_empty());
    assert_eq!(hello.args_copy, vec![b"hello_world\0".to_vec()]);
    let second = ProcessArguments::new(b" yield < filea");
    assert_eq!(second.input, b"filea\0".to_vec());
    assert!(second.output.is_empty());
    assert_eq!(second.args_copy, vec![b"yield\0".to_vec()]);
    let both = ProcessArguments::new(b"sort -r > out < in x");
    assert_eq!(both.input, b"in\0".to_vec());
    assert_eq!(both.output, b"out\0".to_vec());
    assert_eq!(both.args_copy, vec![b"sort\0".to_vec(), b"-r\0".to_vec(), b"x\0".to_vec()]);
    assert!(ProcessArguments::parse(b"cat <").is_none());
    assert!(ProcessArguments::parse(b"cat > a >").is_some());
    assert!(ProcessArguments::parse(b"cat < a >").is_none());
    let glued = ProcessArguments::parse(b"cat <a").unwrap();
    assert_eq!(glued.args_copy, vec![b"cat\0".to_vec(), b"<a\0".to_vec()]);
}

#[test]
fn pipelines_must_fit_together() {
    let line = vec![ProcessArguments::new(b"hello_world"), ProcessArguments::new(b"yield < filea")];
    assert!(!valid_pipeline(&line));
    let line = vec![ProcessArguments::new(b"cat < filea"), ProcessArguments::new(b"wc > out")];
    assert!(valid_pipeline(&line));
    let line = vec![ProcessArguments::new(b"a > x"), ProcessArguments::new(b"b")];
    assert!(!valid_pipeline(&line));
    let line = vec![ProcessArguments::new(b"a < i > o")];
    assert!(valid_pipeline(&line));
    let line = vec![
        ProcessArguments::new(b"a"),
        ProcessArguments::new(b"b > o"),
        ProcessArguments::new(b"c"),
    ];
    assert!(!valid_pipeline(&line));
    assert!(valid_pipeline(&Vec::new()));
}

#[test]
fn open_flags_decide_what_is_opened() {
    assert_eq!(OpenFlags::from_bits(0).unwrap().read_write(), (true, false));
    assert_eq!(OpenFlags::from_bits(1).unwrap().read_write(), (false, true));
    assert_eq!(OpenFlags::from_bits(2).unwrap().read_write(), (true, true));
    assert_eq!(OpenFlags::from_bits(0x201).unwrap().read_write(), (false, true));
    assert_eq!(OpenFlags::from_bits(4), None);
    let rd = OpenFlags::from_bits(0).unwrap();
    assert_eq!(open_file(false, rd), OpenAction::Fail);
    assert_eq!(
        open_file(true, rd),
        OpenAction::Open { clear: false, readable: true, writable: false }
    );
    let create = OpenFlags::from_bits(0x201).unwrap();
    assert_eq!(open_file(false, create), OpenAction::Create { readable: false, writable: true });
    assert_eq!(
        open_file(true, create),
        OpenAction::Open { clear: true, readable: false, writable: true }
    );
    let trunc = OpenFlags::from_bits(0x402).unwrap();
    assert_eq!(
        open_file(true, trunc),
        OpenAction::Open { clear: true, readable: true, writable: true }
    );
    assert_eq!(open_file(false, trunc), OpenAction::Fail);
}

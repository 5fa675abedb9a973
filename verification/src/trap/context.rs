//! The state of a program while the kernel handles a trap.
use vstd::prelude::*;

verus! {

/// What is saved of a program when it traps: the 32 registers, the status
/// register, the address at which the program goes on, and, for the trap
/// routine, the kernel's address space, the top of the thread's kernel
/// stack, and the address of the trap handler.
#[derive(Copy, Clone, Debug)]
pub struct TrapContext {
    pub x: [u64; 32],
    pub sstatus: u64,
    pub sepc: u64,
    pub kernel_satp: u64,
    pub kernel_sp: u64,
    pub trap_handler: u64,
}

impl TrapContext {
    /// Sets the stack pointer, register 2.
    pub fn set_sp(&mut self, sp: u64)
        ensures
            final(self).x@ == old(self).x@.update(2, sp),
            final(self).sstatus == old(self).sstatus,
            final(self).sepc == old(self).sepc,
            final(self).kernel_satp == old(self).kernel_satp,
            final(self).kernel_sp == old(self).kernel_sp,
            final(self).trap_handler == old(self).trap_handler,
    {
        self.x[2] = sp;
    }

    /// The state of a program that starts at `entry` with stack pointer
    /// `sp`: all other registers zero. `sstatus` is the status register with
    /// user mode as the mode to return to; the caller has read it.
    pub fn app_init_context(
        entry: u64,
        sp: u64,
        kernel_satp: u64,
        kernel_sp: u64,
        trap_handler: u64,
        sstatus: u64,
    ) -> (cx: Self)
        ensures
            forall|i: int|
                0 <= i < 32 ==> cx.x@[i] == if i == 2 {
                    sp
                } else {
                    0u64
                },
            cx.sstatus == sstatus,
            cx.sepc == entry,
            cx.kernel_satp == kernel_satp,
            cx.kernel_sp == kernel_sp,
            cx.trap_handler == trap_handler,
    {
        let mut cx = Self { x: [0; 32], sstatus, sepc: entry, kernel_satp, kernel_sp, trap_handler };
        cx.set_sp(sp);
        cx
    }

    /// The 37 words of a trap context as they lie in its page: the 32
    /// registers, then the status register, the address at which the
    /// program goes on, and the three words for the way back into the kernel.
    pub open spec fn words(&self) -> Seq<u64> {
        self.x@ + seq![self.sstatus, self.sepc, self.kernel_satp, self.kernel_sp, self.trap_handler]
    }

    /// The words of the trap context as they lie in its page; see `words`.
    pub fn to_words(&self) -> (r: Vec<u64>)
        ensures
            r@ == self.words(),
            r@.len() == 37,
    {
        let mut r: Vec<u64> = Vec::new();
        let mut i: usize = 0;
        while i < 32
            invariant
                0 <= i <= 32,
                r@ == self.x@.take(i as int),
            decreases 32 - i,
        {
            r.push(self.x[i]);
            i += 1;
            proof {
                assert(r@ =~= self.x@.take(i as int));
            }
        }
        proof {
            assert(self.x@.take(32) =~= self.x@);
        }
        r.push(self.sstatus);
        r.push(self.sepc);
        r.push(self.kernel_satp);
        r.push(self.kernel_sp);
        r.push(self.trap_handler);
        proof {
            assert(r@ =~= self.words());
        }
        r
    }

    /// The trap context whose words are `words`; see `words`.
    pub fn from_words(words: &[u64]) -> (r: Self)
        requires
            words@.len() == 37,
        ensures
            r.words() == words@,
    {
        let mut x = [0u64; 32];
        let mut i: usize = 0;
        while i < 32
            invariant
                0 <= i <= 32,
                words@.len() == 37,
                forall|k: int| 0 <= k < i ==> x@[k] == words@[k],
            decreases 32 - i,
        {
            x[i] = words[i];
            i += 1;
        }
        let r = Self {
            x,
            sstatus: words[32],
            sepc: words[33],
            kernel_satp: words[34],
            kernel_sp: words[35],
            trap_handler: words[36],
        };
        proof {
            assert(r.words() =~= words@);
        }
        r
    }
}

} // verus!

//! Programs that are linked into the kernel and run one after the other.
//! The linker leaves a table of words: the number of programs, the address
//! at which each starts, and the address at which the last ends.
use vstd::prelude::*;

verus! {

/// The greatest number of programs.
pub const MAX_APP_NUM: usize = 16;

/// The address at which a program is put to run.
pub const APP_BASE_ADDRESS: u64 = 0x8040_0000;

/// The greatest size of a program in bytes.
pub const APP_SIZE_LIMIT: usize = 0x2_0000;

/// Whether `table` is a table of programs: it starts with their number,
/// which is at most `MAX_APP_NUM`, and holds one address more than that,
/// none below the one before it.
pub open spec fn table_ok(table: Seq<u64>) -> bool {
    &&& table.len() >= 1
    &&& table[0] <= MAX_APP_NUM
    &&& table.len() >= table[0] + 2
    &&& forall|i: int| 1 <= i <= table[0] ==> #[trigger] table[i] <= table[i + 1]
}

/// The number of programs in a table; see `table_ok`.
pub fn get_num_app(table: &[u64]) -> (r: usize)
    requires
        table_ok(table@),
    ensures
        r == table@[0],
{
    table[0] as usize
}

/// Where program `app_id` of a table lies: its first address and its
/// length in bytes.
pub fn get_app_data(table: &[u64], app_id: usize) -> (r: (u64, u64))
    requires
        table_ok(table@),
        app_id < table@[0],
    ensures
        r.0 == table@[app_id + 1],
        r.1 == table@[app_id + 2] - table@[app_id + 1],
{
    let start = table[app_id + 1];
    let end = table[app_id + 2];
    (start, end - start)
}

/// The programs and the one that runs next.
pub struct AppManager {
    pub num_app: usize,
    pub current_app: usize,
    pub app_start: [u64; 17],
}

/// What the loader does for a program.
#[derive(Copy, Clone, PartialEq, Eq, Structural, Debug)]
pub enum LoadStep {
    /// There is no such program: all programs have run.
    Completed,
    /// The program does not fit.
    TooLarge,
    /// The program lies at the start of the space for programs.
    Loaded,
}

impl AppManager {
    /// The numbers are in range, and the programs lie one behind the other.
    pub open spec fn wf(&self) -> bool {
        &&& self.num_app <= MAX_APP_NUM
        &&& forall|i: int| 0 <= i < self.num_app ==> #[trigger] self.app_start@[i] <= self.app_start@[i + 1]
    }

    /// The manager for the programs of a table, with the first program next;
    /// `None` where the table is not in order.
    pub fn new(table: &[u64]) -> (r: Option<Self>)
        ensures
            r.is_some() == table_ok(table@),
            r.is_some() ==> {
                let m = r.unwrap();
                &&& m.wf()
                &&& m.num_app == table@[0]
                &&& m.current_app == 0
                &&& forall|i: int| 0 <= i <= m.num_app ==> m.app_start@[i] == table@[i + 1]
                &&& forall|i: int| m.num_app < i < 17 ==> m.app_start@[i] == 0
            },
    {
        if table.len() < 1 || table[0] > MAX_APP_NUM as u64 {
            return None;
        }
        let num_app: usize = table[0] as usize;
        if table.len() < num_app + 2 {
            return None;
        }
        let mut app_start: [u64; 17] = [0; 17];
        let mut i: usize = 0;
        while i <= num_app
            invariant
                0 <= i <= num_app + 1,
                num_app <= MAX_APP_NUM,
                num_app == table@[0],
                table@.len() >= num_app + 2,
                forall|j: int| 0 <= j < i ==> app_start@[j] == table@[j + 1],
                forall|j: int| i <= j < 17 ==> app_start@[j] == 0,
                forall|j: int| 1 <= j < i ==> #[trigger] table@[j] <= table@[j + 1],
            decreases num_app + 1 - i,
        {
            if i > 0 && table[i] > table[i + 1] {
                proof {
                    assert(!table_ok(table@)) by {
                        if table_ok(table@) {
                            assert(table@[i as int] <= table@[i + 1]);
                        }
                    }
                }
                return None;
            }
            app_start[i] = table[i + 1];
            i += 1;
        }
        proof {
            assert forall|j: int| 1 <= j <= table@[0] implies #[trigger] table@[j] <= table@[j + 1] by {}
        }
        Some(Self { num_app, current_app: 0, app_start })
    }

    /// Where each program lies: its first address and the address behind
    /// its last byte, for the lines that the kernel prints when it starts.
    pub fn print_app_info(&self) -> (r: Vec<(u64, u64)>)
        requires
            self.wf(),
        ensures
            r@.len() == self.num_app,
            forall|i: int|
                0 <= i < self.num_app ==> #[trigger] r@[i] == (self.app_start@[i], self.app_start@[i + 1]),
    {
        let mut r: Vec<(u64, u64)> = Vec::new();
        let mut i: usize = 0;
        while i < self.num_app
            invariant
                0 <= i <= self.num_app,
                self.num_app <= MAX_APP_NUM,
                r@.len() == i,
                forall|j: int|
                    0 <= j < i ==> #[trigger] r@[j] == (self.app_start@[j], self.app_start@[j + 1]),
            decreases self.num_app - i,
        {
            r.push((self.app_start[i], self.app_start[i + 1]));
            i += 1;
        }
        r
    }

    /// The space for programs after program `app_id` has been loaded: the
    /// bytes of the program, then zero bytes.
    pub open spec fn loaded(image: Seq<u8>) -> Seq<u8> {
        Seq::new(APP_SIZE_LIMIT as nat, |i: int| if i < image.len() {
            image[i]
        } else {
            0u8
        })
    }

    /// Puts program `app_id`, whose bytes are `image`, at the start of the
    /// space for programs, `space`, and clears the rest of the space.
    /// Nothing changes where there is no such program or it does not fit.
    pub fn load_app(&self, app_id: usize, image: &[u8], space: &mut Vec<u8>) -> (r: LoadStep)
        requires
            old(space)@.len() == APP_SIZE_LIMIT,
        ensures
            final(space)@.len() == APP_SIZE_LIMIT,
            r == if app_id >= self.num_app {
                LoadStep::Completed
            } else if image@.len() > APP_SIZE_LIMIT {
                LoadStep::TooLarge
            } else {
                LoadStep::Loaded
            },
            r == LoadStep::Loaded ==> final(space)@ == Self::loaded(image@),
            r != LoadStep::Loaded ==> final(space)@ == old(space)@,
    {
        if app_id >= self.num_app {
            return LoadStep::Completed;
        }
        if image.len() > APP_SIZE_LIMIT {
            return LoadStep::TooLarge;
        }
        let mut i: usize = 0;
        while i < APP_SIZE_LIMIT
            invariant
                0 <= i <= APP_SIZE_LIMIT,
                space@.len() == APP_SIZE_LIMIT,
                image@.len() <= APP_SIZE_LIMIT,
                forall|j: int| 0 <= j < i ==> #[trigger] space@[j] == Self::loaded(image@)[j],
            decreases APP_SIZE_LIMIT - i,
        {
            let b: u8 = if i < image.len() {
                image[i]
            } else {
                0
            };
            space[i] = b;
            i += 1;
        }
        proof {
            assert(space@ =~= Self::loaded(image@));
        }
        LoadStep::Loaded
    }

    /// The program that runs next.
    pub fn get_current_app(&self) -> (r: usize)
        ensures
            r == self.current_app,
    {
        self.current_app
    }

    /// The program behind the one that was next is next.
    pub fn move_to_next_app(&mut self)
        requires
            old(self).current_app < usize::MAX,
        ensures
            final(self).current_app == old(self).current_app + 1,
            final(self).num_app == old(self).num_app,
            final(self).app_start == old(self).app_start,
    {
        self.current_app += 1;
    }
}

} // verus!

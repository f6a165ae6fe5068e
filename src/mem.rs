use vstd::prelude::*;

verus! {

/// log2 of the page size.
pub const PAGE_ORDER: u64 = 12;

/// Size in bytes of one physical page.
pub const PAGE_SIZE: u64 = 4096;

/// `addr` rounded up to a multiple of the power of two `align`.
pub open spec fn align_up_spec(addr: u64, align: u64) -> u64 {
    ((addr + align - 1) as u64) & !((align - 1) as u64)
}

/// Align the given address `addr` upwards to alignment `align`, a power of two.
pub fn align_up(addr: u64, align: u64) -> (r: u64)
    requires
        align > 0,
        align & (align - 1) as u64 == 0,
        addr + align - 1 <= u64::MAX,
    ensures
        r == align_up_spec(addr, align),
        addr <= r,
        r <= addr + align - 1,
        r & (align - 1) as u64 == 0,
{
    let m = align - 1;
    let a = addr + m;
    assert(a & !m <= a) by (bit_vector);
    assert(a - (a & !m) <= m) by (bit_vector);
    assert((a & !m) & m == 0) by (bit_vector);
    a & !m
}

/// The flag bits of a page descriptor.
#[derive(Clone, Copy, Debug, PartialEq, Eq, Structural)]
pub enum PageBits {
    Empty,
    Taken,
    Last,
}

impl PageBits {
    pub open spec fn spec_u8(self) -> u8 {
        match self {
            PageBits::Empty => 0,
            PageBits::Taken => 1,
            PageBits::Last => 2,
        }
    }

    pub fn as_u8(self) -> (r: u8)
        ensures
            r == self.spec_u8(),
    {
        match self {
            PageBits::Empty => 0,
            PageBits::Taken => 1,
            PageBits::Last => 2,
        }
    }
}

/// Flags of a free page.
pub const FREE: u8 = 0;

/// Flags of a taken page that is not the end of its run.
pub const TAKEN: u8 = 1;

/// Flags of the taken page that ends a run.
pub const TAKEN_LAST: u8 = 3;

pub open spec fn flag_taken(f: u8) -> bool {
    f & 1u8 != 0
}

pub open spec fn flag_last(f: u8) -> bool {
    f & 2u8 != 0
}

/// The three flag values that occur in a well-formed descriptor table.
pub proof fn lemma_flag_values()
    ensures
        !flag_taken(FREE),
        !flag_last(FREE),
        flag_taken(TAKEN),
        !flag_last(TAKEN),
        flag_taken(TAKEN_LAST),
        flag_last(TAKEN_LAST),
        FREE | 1u8 == TAKEN,
        TAKEN | 2u8 == TAKEN_LAST,
{
    assert(0u8 & 1u8 == 0) by (bit_vector);
    assert(0u8 & 2u8 == 0) by (bit_vector);
    assert(1u8 & 1u8 == 1) by (bit_vector);
    assert(1u8 & 2u8 == 0) by (bit_vector);
    assert(3u8 & 1u8 == 1) by (bit_vector);
    assert(3u8 & 2u8 == 2) by (bit_vector);
    assert(0u8 | 1u8 == 1) by (bit_vector);
    assert(1u8 | 2u8 == 3) by (bit_vector);
}

/// Descriptor of one physical page.
#[derive(Clone, Copy, Debug)]
pub struct Page {
    flags: u8,
}

impl View for Page {
    type V = u8;

    closed spec fn view(&self) -> u8 {
        self.flags
    }
}

impl Page {
    /// A descriptor with no flag set.
    pub fn new() -> (r: Page)
        ensures
            r@ == FREE,
    {
        Page { flags: FREE }
    }

    /// Whether this page ends its allocation.
    pub fn is_last(&self) -> (r: bool)
        ensures
            r == flag_last(self@),
    {
        self.flags & PageBits::Last.as_u8() != 0
    }

    /// Whether this page belongs to an allocation.
    pub fn is_taken(&self) -> (r: bool)
        ensures
            r == flag_taken(self@),
    {
        self.flags & PageBits::Taken.as_u8() != 0
    }

    /// Opposite of `is_taken`.
    pub fn is_free(&self) -> (r: bool)
        ensures
            r == !flag_taken(self@),
    {
        !self.is_taken()
    }

    /// Drop every flag.
    pub fn clear(&mut self)
        ensures
            final(self)@ == FREE,
    {
        self.flags = PageBits::Empty.as_u8();
    }

    /// Set one flag, keeping the others.
    pub fn set_flag(&mut self, flag: PageBits)
        ensures
            final(self)@ == old(self)@ | flag.spec_u8(),
    {
        self.flags = self.flags | flag.as_u8();
    }

    /// Drop one flag, keeping the others.
    pub fn clear_flag(&mut self, flag: PageBits)
        ensures
            final(self)@ == old(self)@ & !flag.spec_u8(),
    {
        self.flags = self.flags & !flag.as_u8();
    }
}

/// Why an allocation failed.
#[derive(Clone, Copy, Debug, PartialEq, Eq, Structural)]
pub enum AllocError {
    /// No run of free pages is long enough.
    OutOfMemory,
}

/// The flag byte of each descriptor, in page order.
pub open spec fn flags_of(pages: Seq<Page>) -> Seq<u8> {
    pages.map_values(|p: Page| p@)
}

/// Pages `i .. i + n` exist and are all free.
pub open spec fn run_free(f: Seq<u8>, i: int, n: int) -> bool {
    0 <= i && i + n <= f.len() && forall|k: int| i <= k < i + n ==> f[k] == FREE
}

/// `f` with pages `i .. i + n - 1` taken and page `i + n - 1` taken and last.
pub open spec fn mark_run(f: Seq<u8>, i: int, n: int) -> Seq<u8> {
    Seq::new(
        f.len(),
        |k: int|
            if i <= k < i + n - 1 {
                TAKEN
            } else if k == i + n - 1 {
                TAKEN_LAST
            } else {
                f[k]
            },
    )
}

/// Index of the page that ends the run going on at page `i`: the first page
/// from `i` on that is not a taken, non-last page.
pub open spec fn run_end(f: Seq<u8>, i: int) -> int
    decreases f.len() - i,
{
    if i < 0 || i + 1 >= f.len() || f[i] != TAKEN {
        i
    } else {
        run_end(f, i + 1)
    }
}

/// `f` with pages `i ..= j` free.
pub open spec fn clear_run(f: Seq<u8>, i: int, j: int) -> Seq<u8> {
    Seq::new(f.len(), |k: int| if i <= k <= j { FREE } else { f[k] })
}

/// Descriptor tables in which every page is free, taken, or taken and last,
/// and every taken page that is not last is followed by another taken page.
/// Page `i` is the first page of an allocated run.
pub open spec fn is_run_base(f: Seq<u8>, i: int) -> bool {
    0 <= i < f.len() && f[i] != FREE && (i == 0 || f[i - 1] != TAKEN)
}

pub open spec fn flags_wf(f: Seq<u8>) -> bool {
    &&& forall|k: int| 0 <= k < f.len() ==> (f[k] == FREE || f[k] == TAKEN || f[k] == TAKEN_LAST)
    &&& forall|k: int|
        0 <= k < f.len() && #[trigger] f[k] == TAKEN ==> k + 1 < f.len() && f[k + 1] != FREE
}

/// The physical page allocator: one descriptor per page, and the bytes of
/// the pages it hands out, which start at `alloc_start`.
pub struct PageAllocator {
    pages: Vec<Page>,
    memory: Vec<u8>,
    alloc_start: u64,
}

impl PageAllocator {
    /// The flags of every page, in page order.
    pub closed spec fn flags(&self) -> Seq<u8> {
        flags_of(self.pages@)
    }

    /// Contents of the managed memory, from `start()` on.
    pub closed spec fn bytes(&self) -> Seq<u8> {
        self.memory@
    }

    /// Address of the first allocatable page.
    pub closed spec fn start(&self) -> u64 {
        self.alloc_start
    }

    /// Address of page `i`.
    pub open spec fn addr_of(&self, i: int) -> int {
        self.start() + i * PAGE_SIZE
    }

    /// The page that holds address `a`, if any.
    pub open spec fn page_of(&self, a: u64) -> int {
        (a - self.start()) / PAGE_SIZE as int
    }

    /// The descriptor table is well formed, the managed bytes cover every
    /// page, and the pages start on a page boundary and end within the
    /// address space.
    pub open spec fn wf(&self) -> bool {
        &&& flags_wf(self.flags())
        &&& self.bytes().len() == self.num_pages() * PAGE_SIZE
        &&& self.start() % PAGE_SIZE == 0
        &&& self.start() + self.num_pages() * PAGE_SIZE <= u64::MAX
    }

    pub open spec fn num_pages(&self) -> nat {
        self.flags().len()
    }

    /// Lay one descriptor per page over a heap of `heap_size` bytes at
    /// `heap_start`, all free; allocation starts at the first page boundary
    /// after the descriptor table.
    pub fn init(heap_start: u64, heap_size: u64) -> (r: PageAllocator)
        requires
            heap_start + 2 * heap_size + PAGE_SIZE <= u64::MAX,
            heap_size <= usize::MAX,
        ensures
            r.wf(),
            r.num_pages() == heap_size / PAGE_SIZE,
            forall|k: int| 0 <= k < r.num_pages() ==> r.flags()[k] == FREE,
            r.start() == align_up_spec((heap_start + heap_size / PAGE_SIZE) as u64, PAGE_SIZE),
    {
        let num_pages = heap_size / PAGE_SIZE;
        let mut pages: Vec<Page> = Vec::new();
        let mut i: u64 = 0;
        while i < num_pages
            invariant
                i <= num_pages,
                num_pages == heap_size / PAGE_SIZE,
                pages@.len() == i,
                forall|k: int| 0 <= k < i ==> pages@[k]@ == FREE,
            decreases num_pages - i,
        {
            pages.push(Page::new());
            i = i + 1;
        }
        let num_bytes = num_pages * PAGE_SIZE;
        let mut memory: Vec<u8> = Vec::new();
        let mut b: u64 = 0;
        while b < num_bytes
            invariant
                b <= num_bytes,
                num_bytes <= heap_size,
                memory@.len() == b,
            decreases num_bytes - b,
        {
            memory.push(0u8);
            b = b + 1;
        }
        assert(4096u64 & 4095u64 == 0) by (bit_vector);
        let alloc_start = align_up(heap_start + num_pages, PAGE_SIZE);
        assert(alloc_start % 4096 == 0) by (bit_vector)
            requires
                alloc_start & 4095u64 == 0,
        ;
        let r = PageAllocator { pages, memory, alloc_start };
        assert(flags_wf(r.flags()));
        r
    }

    /// Number of pages under management.
    pub fn page_count(&self) -> (r: usize)
        ensures
            r == self.num_pages(),
    {
        self.pages.len()
    }

    /// Address of the first allocatable page.
    pub fn alloc_start(&self) -> (r: u64)
        ensures
            r == self.start(),
    {
        self.alloc_start
    }

    /// Descriptor of page `i`.
    pub fn page(&self, i: usize) -> (r: Page)
        requires
            i < self.num_pages(),
        ensures
            r@ == self.flags()[i as int],
    {
        self.pages[i]
    }

    fn run_is_free(&self, i: usize, n: usize) -> (r: bool)
        requires
            self.wf(),
            i + n <= self.num_pages(),
        ensures
            r == run_free(self.flags(), i as int, n as int),
    {
        proof {
            lemma_flag_values();
        }
        assert(self.flags().len() == self.pages@.len());
        proof {
            assert(self.pages.len() == self.pages@.len());
        }
        let end = i + n;
        let mut k: usize = i;
        while k < end
            invariant
                self.wf(),
                end == i + n,
                i <= k <= end,
                end <= self.pages@.len(),
                forall|j: int| i <= j < k ==> self.flags()[j] == FREE,
            decreases end - k,
        {
            proof {
                lemma_flag_values();
            }
            if self.pages[k].is_taken() {
                assert(self.flags()[k as int] == self.pages@[k as int]@);
                return false;
            }
            assert(self.flags()[k as int] == self.pages@[k as int]@);
            k = k + 1;
        }
        true
    }

    fn set_page_flag(&mut self, k: usize, flag: PageBits)
        requires
            k < old(self).pages@.len(),
        ensures
            final(self).pages@.len() == old(self).pages@.len(),
            final(self).memory == old(self).memory,
            final(self).alloc_start == old(self).alloc_start,
            final(self).flags() == old(self).flags().update(k as int, old(self).flags()[k as int] | flag.spec_u8()),
    {
        let mut p = self.pages[k];
        p.set_flag(flag);
        self.pages.set(k, p);
        assert(self.flags() =~= old(self).flags().update(k as int, old(self).flags()[k as int] | flag.spec_u8()));
    }

    fn clear_page(&mut self, k: usize)
        requires
            k < old(self).pages@.len(),
        ensures
            final(self).pages@.len() == old(self).pages@.len(),
            final(self).memory == old(self).memory,
            final(self).alloc_start == old(self).alloc_start,
            final(self).flags() == old(self).flags().update(k as int, FREE),
    {
        let mut p = self.pages[k];
        p.clear();
        self.pages.set(k, p);
        assert(self.flags() =~= old(self).flags().update(k as int, FREE));
    }

    /// First-fit allocation of `n` contiguous pages. On success the run's
    /// pages are taken, its final page alone is also last, and the address of
    /// its first page is returned.
    pub fn alloc_pages(&mut self, n: usize) -> (r: Result<u64, AllocError>)
        requires
            old(self).wf(),
            n > 0,
        ensures
            final(self).wf(),
            final(self).start() == old(self).start(),
            final(self).bytes() == old(self).bytes(),
            match r {
                Ok(a) => {
                    let i = old(self).page_of(a);
                    &&& a == old(self).addr_of(i)
                    &&& run_free(old(self).flags(), i, n as int)
                    &&& forall|j: int| 0 <= j < i ==> !run_free(old(self).flags(), j, n as int)
                    &&& final(self).flags() == mark_run(old(self).flags(), i, n as int)
                },
                Err(e) => {
                    &&& e == AllocError::OutOfMemory
                    &&& forall|j: int| !run_free(old(self).flags(), j, n as int)
                    &&& final(self).flags() == old(self).flags()
                },
            },
    {
        let len = self.pages.len();
        if n > len {
            return Err(AllocError::OutOfMemory);
        }
        let mut i: usize = 0;
        while i <= len - n
            invariant
                self == old(self),
                self.wf(),
                n > 0,
                n <= len,
                len == self.pages@.len(),
                forall|j: int| 0 <= j < i ==> !run_free(self.flags(), j, n as int),
            decreases len - i,
        {
            if self.run_is_free(i, n) {
                let ghost f0 = self.flags();
                let mut k: usize = i;
                proof {
                    lemma_flag_values();
                }
                while k < i + n - 1
                    invariant
                        i <= k <= i + n - 1,
                        i + n <= len,
                        len == self.pages@.len(),
                        f0 == old(self).flags(),
                        run_free(f0, i as int, n as int),
                        self.memory == old(self).memory,
                        self.alloc_start == old(self).alloc_start,
                        self.flags() == Seq::new(f0.len(), |j: int| if i <= j < k { TAKEN } else { f0[j] }),
                    decreases i + n - 1 - k,
                {
                    proof {
                        lemma_flag_values();
                    }
                    self.set_page_flag(k, PageBits::Taken);
                    assert(self.flags() =~= Seq::new(f0.len(), |j: int| if i <= j < k + 1 { TAKEN } else { f0[j] }));
                    k = k + 1;
                }
                self.set_page_flag(i + n - 1, PageBits::Taken);
                self.set_page_flag(i + n - 1, PageBits::Last);
                assert(self.flags() =~= mark_run(f0, i as int, n as int));
                assert(flags_wf(self.flags()));
                let a = self.alloc_start + (i as u64) * PAGE_SIZE;
                proof {
                    let ii = i as int;
                    assert((ii * 4096) / 4096 == ii) by (nonlinear_arith);
                }
                return Ok(a);
            }
            i = i + 1;
        }
        Err(AllocError::OutOfMemory)
    }
    /// Return the run that starts at the page holding `addr`: its pages are
    /// cleared from there up to and including the first last-flagged page.
    /// Returns false, changing nothing, when `addr` is not inside the first
    /// page of an allocated run.
    pub fn dealloc(&mut self, addr: u64) -> (r: bool)
        requires
            old(self).wf(),
        ensures
            final(self).wf(),
            final(self).start() == old(self).start(),
            final(self).bytes() == old(self).bytes(),
            r == (old(self).start() <= addr && is_run_base(old(self).flags(), old(self).page_of(addr))),
            r ==> final(self).flags() == clear_run(
                old(self).flags(),
                old(self).page_of(addr),
                run_end(old(self).flags(), old(self).page_of(addr)),
            ),
            !r ==> final(self).flags() == old(self).flags(),
    {
        proof {
            lemma_flag_values();
        }
        let ghost f0 = self.flags();
        let len = self.pages.len();
        if addr < self.alloc_start {
            return false;
        }
        let i64 = (addr - self.alloc_start) / PAGE_SIZE;
        if i64 >= len as u64 {
            return false;
        }
        let i = i64 as usize;
        assert(self.flags()[i as int] == self.pages@[i as int]@);
        if self.pages[i].is_free() {
            return false;
        }
        if i > 0 {
            assert(self.flags()[i - 1] == self.pages@[i - 1]@);
            if self.pages[i - 1].is_taken() && !self.pages[i - 1].is_last() {
                return false;
            }
        }
        let mut j: usize = i;
        while self.pages[j].is_taken() && !self.pages[j].is_last()
            invariant
                i <= j < len,
                len == self.pages@.len(),
                f0.len() == len,
                flags_wf(f0),
                self.memory == old(self).memory,
                self.alloc_start == old(self).alloc_start,
                f0 == old(self).flags(),
                f0[j as int] != FREE,
                run_end(f0, i as int) == run_end(f0, j as int),
                forall|k: int| i <= k < j ==> f0[k] == TAKEN,
                self.flags() == clear_run(f0, i as int, j - 1),
            decreases len - j,
        {
            proof {
                lemma_flag_values();
            }
            assert(self.flags()[j as int] == self.pages@[j as int]@);
            assert(f0[j as int] == TAKEN);
            self.clear_page(j);
            assert(self.flags() =~= clear_run(f0, i as int, j as int));
            j = j + 1;
        }
        proof {
            lemma_flag_values();
        }
        assert(self.flags()[j as int] == self.pages@[j as int]@);
        assert(f0[j as int] == TAKEN_LAST);
        self.clear_page(j);
        assert(self.flags() =~= clear_run(f0, i as int, j as int));
        assert(flags_wf(self.flags()));
        true
    }

    /// Allocate `n` pages as `alloc_pages` does and fill every byte of them
    /// with zero.
    pub fn zalloc(&mut self, n: usize) -> (r: Result<u64, AllocError>)
        requires
            old(self).wf(),
            n > 0,
        ensures
            final(self).wf(),
            final(self).start() == old(self).start(),
            match r {
                Ok(a) => {
                    let i = old(self).page_of(a);
                    &&& a == old(self).addr_of(i)
                    &&& run_free(old(self).flags(), i, n as int)
                    &&& forall|j: int| 0 <= j < i ==> !run_free(old(self).flags(), j, n as int)
                    &&& final(self).flags() == mark_run(old(self).flags(), i, n as int)
                    &&& final(self).bytes().len() == old(self).bytes().len()
                    &&& forall|b: int| 0 <= b < old(self).bytes().len() ==>
                        #[trigger] final(self).bytes()[b] == if i * PAGE_SIZE <= b < (i + n) * PAGE_SIZE {
                            0u8
                        } else {
                            old(self).bytes()[b]
                        }
                },
                Err(e) => {
                    &&& e == AllocError::OutOfMemory
                    &&& forall|j: int| !run_free(old(self).flags(), j, n as int)
                    &&& final(self).flags() == old(self).flags()
                    &&& final(self).bytes() == old(self).bytes()
                },
            },
    {
        match self.alloc_pages(n) {
            Err(e) => Err(e),
            Ok(a) => {
                let i = ((a - self.alloc_start) / PAGE_SIZE) as usize;
                let ghost m0 = self.memory@;
                let ghost mid_pages = self.pages@;
                proof {
                    assert(self.memory.len() == self.memory@.len());
                }
                proof {
                    assert(i * 4096 + n * 4096 <= self.pages@.len() * 4096) by (nonlinear_arith)
                        requires i + n <= self.pages@.len();
                }
                let lo = i * 4096;
                let hi = lo + n * 4096;
                let mut b: usize = lo;
                while b < hi
                    invariant
                        lo <= b <= hi,
                        hi <= self.memory@.len(),
                        self.memory@.len() == m0.len(),
                        self.pages@ == mid_pages,
                        self.alloc_start == old(self).alloc_start,
                        forall|c: int| 0 <= c < m0.len() ==>
                            #[trigger] self.memory@[c] == if lo <= c < b { 0u8 } else { m0[c] },
                    decreases hi - b,
                {
                    self.memory.set(b, 0u8);
                    b = b + 1;
                }
                assert(i as int == old(self).page_of(a));
                assert(m0 == old(self).bytes());
                Ok(a)
            },
        }
    }

    /// The byte at address `addr` of the managed memory.
    pub fn read_byte(&self, addr: u64) -> (r: Option<u8>)
        requires
            self.wf(),
        ensures
            r == if self.start() <= addr < self.start() + self.bytes().len() {
                Some(self.bytes()[addr - self.start()])
            } else {
                None::<u8>
            },
    {
        if addr < self.alloc_start || addr - self.alloc_start >= self.memory.len() as u64 {
            return None;
        }
        Some(self.memory[(addr - self.alloc_start) as usize])
    }

    /// Store `value` at address `addr` of the managed memory; false, changing
    /// nothing, when the address is outside it.
    pub fn write_byte(&mut self, addr: u64, value: u8) -> (r: bool)
        requires
            old(self).wf(),
        ensures
            final(self).wf(),
            final(self).start() == old(self).start(),
            final(self).flags() == old(self).flags(),
            r == (old(self).start() <= addr < old(self).start() + old(self).bytes().len()),
            r ==> final(self).bytes() == old(self).bytes().update(addr - old(self).start(), value),
            !r ==> final(self).bytes() == old(self).bytes(),
    {
        if addr < self.alloc_start || addr - self.alloc_start >= self.memory.len() as u64 {
            return false;
        }
        self.memory.set((addr - self.alloc_start) as usize, value);
        true
    }
}

} // verus!

verus! {

/// A marked run has every page taken and exactly its final page last.
pub proof fn lemma_marked_run(f0: Seq<u8>, i: int, n: int)
    requires
        n > 0,
        run_free(f0, i, n),
    ensures
        forall|k: int|
            i <= k < i + n ==> flag_taken(#[trigger] mark_run(f0, i, n)[k]) && (flag_last(
                mark_run(f0, i, n)[k],
            ) <==> k == i + n - 1),
        forall|k: int|
            0 <= k < f0.len() && !(i <= k < i + n) ==> #[trigger] mark_run(f0, i, n)[k] == f0[k],
{
    lemma_flag_values();
}

/// An allocation never takes a page that a live allocation holds: every page
/// of the run it marks was free before, so no taken page lies in it.
pub proof fn lemma_alloc_avoids_taken(f0: Seq<u8>, i: int, n: int, k: int)
    requires
        run_free(f0, i, n),
        0 <= k < f0.len(),
        flag_taken(f0[k]),
    ensures
        !(i <= k < i + n),
{
    lemma_flag_values();
}

/// In a well-formed table, the scan from a taken page (the first page of a
/// run, as `dealloc` takes it) ends on a page that is taken and last, every
/// page before it being taken and not last.
pub proof fn lemma_run_scan_ends_at_last(f: Seq<u8>, i: int)
    requires
        flags_wf(f),
        0 <= i < f.len(),
        f[i] != FREE,
    ensures
        i <= run_end(f, i) < f.len(),
        f[run_end(f, i)] == TAKEN_LAST,
        forall|k: int| i <= k < run_end(f, i) ==> f[k] == TAKEN,
    decreases f.len() - i,
{
    if f[i] == TAKEN {
        lemma_run_scan_ends_at_last(f, i + 1);
    }
}

/// Two allocations made one after the other never share a page: the second
/// run was free once the first was marked, so it lies wholly before or
/// wholly after the first.
pub proof fn lemma_allocations_disjoint(f0: Seq<u8>, i: int, n: int, j: int, m: int)
    requires
        n > 0,
        m > 0,
        run_free(f0, i, n),
        run_free(mark_run(f0, i, n), j, m),
    ensures
        j + m <= i || i + n <= j,
{
    if !(j + m <= i || i + n <= j) {
        let k = if i < j { j } else { i };
        assert(mark_run(f0, i, n)[k] == FREE);
    }
}

/// Scan of a run: from the first page of an allocated run, the pages up to
/// the first last-flagged page are taken and not last, and the scan that
/// `dealloc` makes stops at that page.
pub proof fn lemma_run_end_at(f: Seq<u8>, k: int, e: int)
    requires
        0 <= k <= e < f.len(),
        forall|c: int| k <= c < e ==> f[c] == TAKEN,
        f[e] != TAKEN,
    ensures
        run_end(f, k) == e,
    decreases e - k,
{
    if k < e {
        lemma_run_end_at(f, k + 1, e);
    }
}

/// Freeing the run that an allocation has just marked, from its base page,
/// ends the scan at the run's last page and restores every descriptor as it
/// was before the allocation: exactly the run's pages are cleared.
pub proof fn lemma_dealloc_undoes_alloc(f0: Seq<u8>, i: int, n: int)
    requires
        flags_wf(f0),
        n > 0,
        run_free(f0, i, n),
    ensures
        is_run_base(mark_run(f0, i, n), i),
        run_end(mark_run(f0, i, n), i) == i + n - 1,
        clear_run(mark_run(f0, i, n), i, i + n - 1) == f0,
        flags_wf(mark_run(f0, i, n)),
{
    let f1 = mark_run(f0, i, n);
    lemma_flag_values();
    if i > 0 {
        assert(f0[i] == FREE);
        assert(f1[i - 1] == f0[i - 1]);
    }
    lemma_run_end_at(f1, i, i + n - 1);
    assert(clear_run(f1, i, i + n - 1) =~= f0);
    assert forall|k: int| 0 <= k < f1.len() && #[trigger] f1[k] == TAKEN implies k + 1 < f1.len()
        && f1[k + 1] != FREE by {
        if !(i <= k < i + n) {
            assert(f0[k] == TAKEN);
        }
    }
}

} // verus!

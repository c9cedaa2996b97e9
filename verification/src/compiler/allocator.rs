//! Bookkeeping for executable memory: pages that hand out consecutive
//! pieces of themselves, and an allocator that keeps a list of pages and
//! asks for a new one, sized in whole system pages, when none has room.
//!
//! Addresses are plain integers here; mapping the memory is left to the
//! caller, which hands each mapped region to [`ExecutablePage::new`].
use vstd::prelude::*;

verus! {

/// The granularity in which new pages are requested.
pub const PAGE_SIZE: usize = 4096;

/// A mapped region `[address, address + size)` that is handed out front to
/// back.
pub struct ExecutablePage {
    address: usize,
    size: usize,
    current_offset: usize,
}

impl ExecutablePage {
    #[verifier::type_invariant]
    spec fn inv(&self) -> bool {
        &&& self.current_offset <= self.size
        &&& self.address + self.size <= usize::MAX
    }

    /// The first address of the region.
    pub closed spec fn base(&self) -> int {
        self.address as int
    }

    /// The number of bytes in the region.
    pub closed spec fn capacity(&self) -> int {
        self.size as int
    }

    /// The number of bytes already handed out.
    pub closed spec fn used(&self) -> int {
        self.current_offset as int
    }

    /// A page over the region at `address`, or `None` where the mapping
    /// failed and `address` is null.
    pub fn new(address: usize, size: usize) -> (r: Option<ExecutablePage>)
        requires
            address + size <= usize::MAX,
        ensures
            r is None <==> address == 0,
            r matches Some(p) ==> p.base() == address && p.capacity() == size && p.used() == 0,
    {
        if address != 0 {
            Some(ExecutablePage { address, size, current_offset: 0 })
        } else {
            None
        }
    }

    /// The address of `size` fresh bytes of the page, or `None` where fewer
    /// than `size` bytes are left; only a success uses up room.
    pub fn try_allocate(&mut self, size: usize) -> (r: Option<usize>)
        ensures
            r is Some <==> fits(*old(self), size as int),
            r matches Some(a) ==> allocated_from(*old(self), size as int, a as int, *final(self)),
            r is None ==> *final(self) == *old(self),
    {
        proof {
            use_type_invariant(&*self);
        }
        let size_left = self.size - self.current_offset;
        if size_left >= size {
            let address = self.address + self.current_offset;
            self.current_offset = self.current_offset + size;
            Some(address)
        } else {
            None
        }
    }
}

/// Whether `page` has `size` bytes left.
pub open spec fn fits(page: ExecutablePage, size: int) -> bool {
    page.capacity() - page.used() >= size
}

/// `after` is `before` once `size` bytes were handed out of it at `address`.
pub open spec fn allocated_from(
    before: ExecutablePage,
    size: int,
    address: int,
    after: ExecutablePage,
) -> bool {
    &&& fits(before, size)
    &&& address == before.base() + before.used()
    &&& after.base() == before.base()
    &&& after.capacity() == before.capacity()
    &&& after.used() == before.used() + size
}

/// Pieces handed out one after the other from a page lie inside the page
/// and do not overlap.
pub proof fn lemma_page_allocations_disjoint(
    p0: ExecutablePage,
    s1: int,
    a1: int,
    p1: ExecutablePage,
    s2: int,
    a2: int,
    p2: ExecutablePage,
)
    requires
        p0.used() >= 0,
        s1 >= 0,
        s2 >= 0,
        allocated_from(p0, s1, a1, p1),
        allocated_from(p1, s2, a2, p2),
    ensures
        p0.base() <= a1,
        a1 + s1 <= a2,
        a2 + s2 <= p0.base() + p0.capacity(),
{
}

/// `size` rounded up to a whole number of pages.
pub open spec fn page_size_for(size: int) -> int {
    ((size + PAGE_SIZE - 1) / PAGE_SIZE as int) * PAGE_SIZE
}

/// The index of the first page in `pages` with `size` bytes left, if any.
pub open spec fn first_fitting(pages: Seq<ExecutablePage>, size: int) -> Option<int> {
    if exists|i: int| 0 <= i < pages.len() && fits(#[trigger] pages[i], size) {
        Some(
            choose|i: int|
                0 <= i < pages.len() && fits(#[trigger] pages[i], size) && (forall|j: int|
                    0 <= j < i ==> !fits(#[trigger] pages[j], size)),
        )
    } else {
        None
    }
}

/// What [`ExecutableMemoryAllocator::allocate`] decided.
#[derive(Debug, PartialEq, Eq, Structural)]
pub enum Allocation {
    /// The bytes were placed in an existing page, at this address.
    Placed(usize),
    /// No page has room: a page of this many bytes must be mapped and
    /// handed to [`ExecutableMemoryAllocator::add_page`].
    NeedsPage(usize),
}

/// The pages of executable memory that generated code is placed in.
pub struct ExecutableMemoryAllocator {
    pages: Vec<ExecutablePage>,
}

impl ExecutableMemoryAllocator {
    /// The pages, oldest first.
    pub closed spec fn pages(&self) -> Seq<ExecutablePage> {
        self.pages@
    }

    pub fn new() -> (r: ExecutableMemoryAllocator)
        ensures
            r.pages() == Seq::<ExecutablePage>::empty(),
    {
        ExecutableMemoryAllocator { pages: Vec::new() }
    }

    pub fn num_pages(&self) -> (r: usize)
        ensures
            r == self.pages().len(),
    {
        self.pages.len()
    }

    /// Places `size` bytes in the first page that has room for them; where
    /// none has, says how large the new page must be and changes nothing.
    pub fn allocate(&mut self, size: usize) -> (r: Allocation)
        requires
            first_fitting(old(self).pages(), size as int) is Some || size + PAGE_SIZE - 1 <= usize::MAX,
        ensures
            match first_fitting(old(self).pages(), size as int) {
                Some(i) => {
                    &&& 0 <= i < old(self).pages().len()
                    &&& final(self).pages().len() == old(self).pages().len()
                    &&& r matches Allocation::Placed(a) && allocated_from(
                        old(self).pages()[i],
                        size as int,
                        a as int,
                        final(self).pages()[i],
                    )
                    &&& forall|j: int|
                        0 <= j < old(self).pages().len() && j != i ==> final(self).pages()[j]
                            == old(self).pages()[j]
                },
                None => {
                    &&& r == Allocation::NeedsPage(page_size_for(size as int) as usize)
                    &&& final(self).pages() == old(self).pages()
                },
            },
    {
        let n = self.pages.len();
        let mut i: usize = 0;
        while i < n
            invariant
                n == self.pages.len(),
                n == old(self).pages().len(),
                i <= n,
                self.pages@ == old(self).pages(),
                forall|j: int| 0 <= j < i ==> !fits(#[trigger] self.pages@[j], size as int),
            decreases n - i,
        {
            let ghost before = self.pages@[i as int];
            let found = self.pages[i].try_allocate(size);
            match found {
                Some(address) => {
                    proof {
                        let k = i as int;
                        assert(fits(old(self).pages()[k], size as int));
                        assert(forall|j: int| 0 <= j < k ==> !fits(#[trigger] old(self).pages()[j], size as int));
                        let c = first_fitting(old(self).pages(), size as int);
                        assert(c is Some);
                        let m = c->0;
                        if m < k {
                            assert(!fits(old(self).pages()[m], size as int));
                        }
                        if k < m {
                            assert(!fits(old(self).pages()[k], size as int));
                        }
                        assert(m == k);
                    }
                    return Allocation::Placed(address);
                },
                None => {
                    assert(self.pages@ =~= old(self).pages());
                },
            }
            i = i + 1;
        }
        proof {
            assert(first_fitting(old(self).pages(), size as int) is None) by {
                if exists|k: int| 0 <= k < n && fits(#[trigger] old(self).pages()[k], size as int) {
                    let k = choose|k: int| 0 <= k < n && fits(#[trigger] old(self).pages()[k], size as int);
                    assert(!fits(self.pages@[k], size as int));
                }
            }
        }
        let q = (size + (PAGE_SIZE - 1)) / PAGE_SIZE;
        assert(q * 4096 <= size + 4095) by (nonlinear_arith)
            requires
                q == (size + 4095) / 4096,
        ;
        Allocation::NeedsPage(q * PAGE_SIZE)
    }

    /// Adds a freshly mapped page and places `size` bytes at its start,
    /// returning their address.
    pub fn add_page(&mut self, page: ExecutablePage, size: usize) -> (r: usize)
        requires
            page.used() == 0,
            page.capacity() >= size,
        ensures
            r == page.base(),
            final(self).pages().len() == old(self).pages().len() + 1,
            final(self).pages().drop_last() == old(self).pages(),
            allocated_from(page, size as int, r as int, final(self).pages().last()),
    {
        let mut page = page;
        let address = page.try_allocate(size).unwrap();
        self.pages.push(page);
        address
    }
}

} // verus!

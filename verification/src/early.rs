//! A dual-ended bump allocator for the earliest stage of kernel boot.
//!
//! The allocator owns one contiguous address range `[start, end)`:
//!
//! ```text
//! [ bytes-used | free gap | pages-used ]
//! start     byte_ptr   page_ptr     end
//! ```
//!
//! Byte allocations bump `byte_ptr` forward; page allocations bump `page_ptr`
//! backward in multiples of `PAGE_SIZE`. The free gap `[byte_ptr, page_ptr)`
//! shrinks from both ends and the two zones never overlap. Bytes are
//! reclaimed only in bulk: a counter tracks outstanding byte allocations and
//! the whole byte zone is reset once it returns to zero. Pages are never
//! reclaimed.

use vstd::prelude::*;
use vstd::arithmetic::div_mod::lemma_fundamental_div_mod;
use vstd::arithmetic::div_mod::lemma_mod_bound;
use vstd::arithmetic::div_mod::lemma_mod_multiples_basic;
use vstd::arithmetic::mul::lemma_mul_is_commutative;
use vstd::arithmetic::mul::lemma_mul_is_distributive_add;

verus! {

/// The recoverable failure signal: the requested allocation does not fit in
/// the free gap between the byte zone and the page zone.
#[derive(Clone, Copy, Debug, PartialEq, Eq, Structural)]
pub enum AllocError {
    NoMemory,
}

/// `n` is a power of two.
pub open spec fn is_power_of_two(n: int) -> bool
    decreases n,
{
    if n <= 0 {
        false
    } else if n == 1 {
        true
    } else {
        n % 2 == 0 && is_power_of_two(n / 2)
    }
}

/// The smallest multiple of `align` that is at least `addr`.
pub open spec fn spec_align_up(addr: int, align: int) -> int
    recommends
        align >= 1,
        addr >= 0,
{
    ((addr + align - 1) / align) * align
}

/// `spec_align_up` rounds up to a multiple of `align` and moves the address
/// forward by less than one whole `align`.
pub proof fn lemma_align_up(addr: int, align: int)
    requires
        align >= 1,
        addr >= 0,
    ensures
        addr <= spec_align_up(addr, align) < addr + align,
        spec_align_up(addr, align) % align == 0,
{
    let x = addr + align - 1;
    let q = x / align;
    let r = x % align;
    lemma_fundamental_div_mod(x, align);
    lemma_mod_bound(x, align);
    assert(q * align == x - r) by (nonlinear_arith)
        requires
            x == align * q + r,
    ;
    lemma_mod_multiples_basic(q, align);
}

/// Relies on `memory_addr::align_up`: rounds `addr` up to the next multiple
/// of `align`, which must be a power of two. The precondition keeps even the
/// intermediate sum `addr + align` within `usize`, so no step of the callee's
/// `(addr + align - 1) & !(align - 1)` can wrap or trip an overflow check.
#[verifier::external_body]
fn align_up_usize(addr: usize, align: usize) -> (r: usize)
    requires
        is_power_of_two(align as int),
        addr + align <= usize::MAX,
    ensures
        r == spec_align_up(addr as int, align as int),
{
    memory_addr::align_up(addr, align)
}

/// The early allocator. `PAGE_SIZE` is the configured page granularity; all
/// page arithmetic uses it consistently.
pub struct EarlyAllocator<const PAGE_SIZE: usize> {
    /// First address of the managed region.
    pub start: usize,
    /// One past the last address of the managed region.
    pub end: usize,
    /// Number of outstanding byte allocations.
    pub count: usize,
    /// Next free address for forward byte allocation.
    pub byte_ptr: usize,
    /// Next free address for backward page allocation.
    pub page_ptr: usize,
}

impl<const PAGE_SIZE: usize> EarlyAllocator<PAGE_SIZE> {
    /// The invariant that every operation preserves: the four pointers stay
    /// ordered, and whenever no byte allocation is outstanding the byte zone
    /// is fully reclaimed.
    pub open spec fn wf(self) -> bool {
        &&& self.start <= self.byte_ptr
        &&& self.byte_ptr <= self.page_ptr
        &&& self.page_ptr <= self.end
        &&& self.count == 0 ==> self.byte_ptr == self.start
    }

    /// An allocator in the inert, all-zero state, to be initialized once by
    /// the boot path.
    pub fn new() -> (r: Self)
        ensures
            r == (EarlyAllocator::<PAGE_SIZE> {
                start: 0,
                end: 0,
                count: 0,
                byte_ptr: 0,
                page_ptr: 0,
            }),
            r.wf(),
    {
        EarlyAllocator { start: 0, end: 0, count: 0, byte_ptr: 0, page_ptr: 0 }
    }

    /// Adopt the region `[start, start + size)`: the byte zone and the page
    /// zone both start out empty. Re-initialization simply replaces any prior
    /// state.
    pub fn init(&mut self, start: usize, size: usize)
        requires
            1 <= size,
            start + size <= usize::MAX,
        ensures
            final(self).start == start,
            final(self).end == start + size,
            final(self).count == 0,
            final(self).byte_ptr == start,
            final(self).page_ptr == start + size,
            final(self).wf(),
    {
        *self = EarlyAllocator {
            start,
            end: start + size,
            count: 0,
            byte_ptr: start,
            page_ptr: start + size,
        };
    }

    /// Size of the whole managed region in bytes.
    pub fn total_bytes(&self) -> (r: usize)
        requires
            self.wf(),
        ensures
            r == self.end - self.start,
    {
        self.end - self.start
    }

    /// Size of the byte zone, i.e. of everything handed out by `allocate`
    /// since the last bulk reclamation.
    pub fn used_bytes(&self) -> (r: usize)
        requires
            self.wf(),
        ensures
            r == self.byte_ptr - self.start,
    {
        self.byte_ptr - self.start
    }

    /// Size of the free gap between the byte zone and the page zone.
    pub fn available_bytes(&self) -> (r: usize)
        requires
            self.wf(),
        ensures
            r == self.page_ptr - self.byte_ptr,
    {
        self.page_ptr - self.byte_ptr
    }

    /// Whether a byte allocation of `size` bytes aligned to `align` fits:
    /// the rounding computation `byte_ptr + align` must stay within `usize`,
    /// and the reserved block must end at or before `page_ptr`.
    pub open spec fn byte_alloc_fits(self, size: usize, align: usize) -> bool {
        &&& self.byte_ptr + align <= usize::MAX
        &&& spec_align_up(self.byte_ptr as int, align as int) + size <= self.page_ptr
    }

    /// The address a fitting byte allocation returns: `byte_ptr` rounded up
    /// to `align`, the start of the reserved block.
    pub open spec fn byte_alloc_addr(self, align: usize) -> int {
        spec_align_up(self.byte_ptr as int, align as int)
    }

    /// Allocate `size` bytes aligned to `align` from the forward-growing
    /// byte zone. On success the returned address is the aligned start of
    /// the reserved block and `byte_ptr` advances to the block's end; on
    /// `NoMemory` nothing changes.
    ///
    /// A note on the convention: some bump-allocator interfaces hand the
    /// caller the *post-bump* pointer — the end of the reserved block — and
    /// leave `byte_ptr` at the aligned candidate. Here that is deliberately
    /// not done: the result is the block's usable start address, and
    /// `byte_ptr` moves past the block so that consecutive allocations never
    /// overlap. Callers expecting the end-pointer convention must adjust.
    pub fn allocate(&mut self, size: usize, align: usize) -> (r: Result<usize, AllocError>)
        requires
            old(self).wf(),
            is_power_of_two(align as int),
            old(self).count < usize::MAX,
        ensures
            final(self).wf(),
            r is Ok <==> old(self).byte_alloc_fits(size, align),
            (r matches Ok(addr) ==> {
                &&& addr == old(self).byte_alloc_addr(align)
                &&& final(self).byte_ptr == addr + size
                &&& final(self).count == old(self).count + 1
                &&& final(self).start == old(self).start
                &&& final(self).end == old(self).end
                &&& final(self).page_ptr == old(self).page_ptr
            }),
            (r matches Err(e) ==> e == AllocError::NoMemory && *final(self) == *old(self)),
    {
        assert(align >= 1);
        if align - 1 < usize::MAX - self.byte_ptr {
            let candidate = align_up_usize(self.byte_ptr, align);
            proof {
                lemma_align_up(self.byte_ptr as int, align as int);
            }
            if candidate <= self.page_ptr && size <= self.page_ptr - candidate {
                self.byte_ptr = candidate + size;
                self.count = self.count + 1;
                Ok(candidate)
            } else {
                Err(AllocError::NoMemory)
            }
        } else {
            Err(AllocError::NoMemory)
        }
    }

    /// Return one byte allocation. The address and layout are ignored: no
    /// per-allocation bookkeeping exists, so only the counter drops, and
    /// when it reaches zero the whole byte zone is reclaimed at once.
    pub fn deallocate(&mut self, _pos: usize, _size: usize, _align: usize)
        requires
            old(self).wf(),
            1 <= old(self).count,
        ensures
            final(self).wf(),
            final(self).count == old(self).count - 1,
            final(self).byte_ptr == if old(self).count == 1 {
                old(self).start
            } else {
                old(self).byte_ptr
            },
            final(self).start == old(self).start,
            final(self).end == old(self).end,
            final(self).page_ptr == old(self).page_ptr,
    {
        self.count = self.count - 1;
        if self.count == 0 {
            self.byte_ptr = self.start;
        }
    }

    /// Whether `num_pages` pages fit in the free gap: at least one page is
    /// requested and the whole span stays at or above `byte_ptr`.
    pub open spec fn page_alloc_fits(self, num_pages: usize) -> bool {
        &&& 1 <= num_pages
        &&& num_pages * PAGE_SIZE <= self.page_ptr - self.byte_ptr
    }

    /// The state after a fitting page allocation of `num_pages` pages:
    /// `page_ptr` moves down by exactly that many pages and nothing else
    /// changes.
    pub open spec fn take_pages(self, num_pages: usize) -> Self
        recommends
            self.page_alloc_fits(num_pages),
    {
        EarlyAllocator { page_ptr: (self.page_ptr - num_pages * PAGE_SIZE) as usize, ..self }
    }

    /// Allocate `num_pages` pages from the backward-growing page zone. The
    /// alignment request is accepted but, beyond the page-size granularity
    /// itself, not separately enforced. On success the returned address is
    /// the base of the reserved span, `num_pages * PAGE_SIZE` bytes below
    /// the old `page_ptr`; on `NoMemory` nothing changes. Pages are never
    /// given back: `page_ptr` only ever decreases.
    pub fn allocate_pages(&mut self, num_pages: usize, _align_pow2: usize) -> (r: Result<
        usize,
        AllocError,
    >)
        requires
            old(self).wf(),
            1 <= PAGE_SIZE,
        ensures
            final(self).wf(),
            r is Ok <==> old(self).page_alloc_fits(num_pages),
            (r matches Ok(addr) ==> {
                &&& addr == old(self).page_ptr - num_pages * PAGE_SIZE
                &&& *final(self) == old(self).take_pages(num_pages)
            }),
            (r matches Err(e) ==> e == AllocError::NoMemory && *final(self) == *old(self)),
    {
        let avail = self.page_ptr - self.byte_ptr;
        if 1 <= num_pages && num_pages <= avail / PAGE_SIZE {
            proof {
                assert(num_pages * PAGE_SIZE <= avail) by (nonlinear_arith)
                    requires
                        num_pages <= avail as int / PAGE_SIZE as int,
                        1 <= PAGE_SIZE,
                        0 <= avail,
                ;
            }
            let bytes = num_pages * PAGE_SIZE;
            let addr = self.page_ptr - bytes;
            self.page_ptr = addr;
            Ok(addr)
        } else {
            proof {
                if 1 <= num_pages {
                    assert(num_pages * PAGE_SIZE > avail) by (nonlinear_arith)
                        requires
                            num_pages > avail as int / PAGE_SIZE as int,
                            1 <= PAGE_SIZE,
                            0 <= avail,
                    ;
                }
            }
            Err(AllocError::NoMemory)
        }
    }

    /// Total pages in the managed region.
    pub fn total_pages(&self) -> (r: usize)
        requires
            self.wf(),
            1 <= PAGE_SIZE,
        ensures
            r == (self.end - self.start) as int / PAGE_SIZE as int,
    {
        (self.end - self.start) / PAGE_SIZE
    }

    /// Pages handed out so far.
    pub fn used_pages(&self) -> (r: usize)
        requires
            self.wf(),
            1 <= PAGE_SIZE,
        ensures
            r == (self.end - self.page_ptr) as int / PAGE_SIZE as int,
    {
        (self.end - self.page_ptr) / PAGE_SIZE
    }

    /// Pages still available in the free gap.
    pub fn available_pages(&self) -> (r: usize)
        requires
            self.wf(),
            1 <= PAGE_SIZE,
        ensures
            r == (self.page_ptr - self.byte_ptr) as int / PAGE_SIZE as int,
    {
        (self.page_ptr - self.byte_ptr) / PAGE_SIZE
    }

    /// Law (bulk reclamation): whenever the outstanding byte-allocation
    /// count is zero — in particular after `n` successful byte allocations
    /// followed by `n` deallocations in any order — the whole byte zone is
    /// reclaimed at once: the byte pointer is back at `start` and no bytes
    /// are in use.
    pub proof fn lemma_bulk_reclamation(self)
        requires
            self.wf(),
            self.count == 0,
        ensures
            self.byte_ptr == self.start,
    {
    }

    /// Law (a reclaimed allocator allocates like a fresh one): a well-formed
    /// allocator with no outstanding byte allocations and an untouched page
    /// zone is exactly the state that initialization over its region
    /// produces, so every later allocation returns the same addresses as on
    /// a freshly initialized allocator.
    pub proof fn lemma_reclaimed_behaves_as_fresh(self)
        requires
            self.wf(),
            self.count == 0,
            self.page_ptr == self.end,
        ensures
            self == (EarlyAllocator::<PAGE_SIZE> {
                start: self.start,
                end: self.end,
                count: 0,
                byte_ptr: self.start,
                page_ptr: self.end,
            }),
    {
    }

    /// The state after performing the page allocations in `reqs`, in order.
    pub open spec fn run_page_allocs(self, reqs: Seq<usize>) -> Self
        decreases reqs.len(),
    {
        if reqs.len() == 0 {
            self
        } else {
            self.run_page_allocs(reqs.drop_last()).take_pages(reqs.last())
        }
    }

    /// Every page allocation in `reqs` fits when performed in order.
    pub open spec fn page_allocs_all_fit(self, reqs: Seq<usize>) -> bool
        decreases reqs.len(),
    {
        reqs.len() == 0 || {
            &&& self.page_allocs_all_fit(reqs.drop_last())
            &&& self.run_page_allocs(reqs.drop_last()).page_alloc_fits(reqs.last())
        }
    }

    /// Law (page monotonicity): after a run of successful page allocations
    /// of `p1..pk` pages, the page pointer sits exactly
    /// `PAGE_SIZE * (p1 + ... + pk)` bytes below where it started, and the
    /// byte side of the allocator is untouched. A request that does not fit
    /// fails with `NoMemory` and changes nothing (see `alloc_pages`).
    pub proof fn lemma_page_monotonicity(self, reqs: Seq<usize>)
        requires
            self.wf(),
            self.page_allocs_all_fit(reqs),
        ensures
            self.run_page_allocs(reqs).wf(),
            self.run_page_allocs(reqs).page_ptr == self.page_ptr - PAGE_SIZE * sum_pages(reqs),
            self.run_page_allocs(reqs).byte_ptr == self.byte_ptr,
            self.run_page_allocs(reqs).start == self.start,
            self.run_page_allocs(reqs).end == self.end,
            self.run_page_allocs(reqs).count == self.count,
        decreases reqs.len(),
    {
        if reqs.len() > 0 {
            let prefix = reqs.drop_last();
            let n = reqs.last();
            self.lemma_page_monotonicity(prefix);
            let mid = self.run_page_allocs(prefix);
            assert(mid.page_alloc_fits(n));
            assert(0 <= n * PAGE_SIZE) by (nonlinear_arith)
                requires
                    0 <= n,
                    0 <= PAGE_SIZE,
            ;
            lemma_mul_is_distributive_add(PAGE_SIZE as int, sum_pages(prefix), n as int);
            lemma_mul_is_commutative(n as int, PAGE_SIZE as int);
        }
    }
}

/// The total number of pages over a run of page-allocation requests.
pub open spec fn sum_pages(reqs: Seq<usize>) -> int
    decreases reqs.len(),
{
    if reqs.len() == 0 {
        0
    } else {
        sum_pages(reqs.drop_last()) + reqs.last()
    }
}

} // verus!

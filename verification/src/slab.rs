//! A slab-style index allocator with index recycling.
//!
//! Freed indices collect in a compressed bitmap and are handed out
//! again lowest-first before any fresh index is used.  The peak number
//! of simultaneously allocated indices is tracked for monitoring.

use vstd::prelude::*;

use vstd::set_lib::lemma_int_range;

use roaring::RoaringBitmap;

verus! {

#[verifier::external_type_specification]
#[verifier::external_body]
pub struct ExRoaringBitmap(RoaringBitmap);

/// The set of integers a compressed bitmap holds.
pub uninterp spec fn bitmap_set(b: RoaringBitmap) -> Set<int>;

/// Relies on `RoaringBitmap::new`: the fresh bitmap holds nothing.
#[verifier::external_body]
fn bitmap_new() -> (r: RoaringBitmap)
    ensures
        bitmap_set(r) == Set::<int>::empty(),
        bitmap_set(r).finite(),
{
    RoaringBitmap::new()
}

/// Relies on `RoaringBitmap::insert`: adds the value to the set and
/// reports whether it was absent.
#[verifier::external_body]
fn bitmap_insert(b: &mut RoaringBitmap, value: u32) -> (r: bool)
    ensures
        bitmap_set(*final(b)) == bitmap_set(*old(b)).insert(value as int),
        r == !bitmap_set(*old(b)).contains(value as int),
{
    b.insert(value)
}

/// Relies on `RoaringBitmap::remove`: takes the value out of the set
/// and reports whether it was present.
#[verifier::external_body]
fn bitmap_remove(b: &mut RoaringBitmap, value: u32) -> (r: bool)
    ensures
        bitmap_set(*final(b)) == bitmap_set(*old(b)).remove(value as int),
        r == bitmap_set(*old(b)).contains(value as int),
{
    b.remove(value)
}

/// Relies on `RoaringBitmap::contains`.
#[verifier::external_body]
fn bitmap_contains(b: &RoaringBitmap, value: u32) -> (r: bool)
    ensures
        r == bitmap_set(*b).contains(value as int),
{
    b.contains(value)
}

/// Relies on `RoaringBitmap::min`: the smallest element of a non-empty
/// set, `None` otherwise.
#[verifier::external_body]
fn bitmap_min(b: &RoaringBitmap) -> (r: Option<u32>)
    ensures
        match r {
            Some(m) => bitmap_set(*b).contains(m as int) && forall|y: int|
                bitmap_set(*b).contains(y) ==> m as int <= y,
            None => bitmap_set(*b) == Set::<int>::empty(),
        },
{
    b.min()
}

/// Relies on `RoaringBitmap::len`: the number of distinct integers in
/// the set.
#[verifier::external_body]
fn bitmap_len(b: &RoaringBitmap) -> (r: u64)
    ensures
        bitmap_set(*b).finite() ==> r == bitmap_set(*b).len(),
{
    b.len()
}

pub struct FakeSlabAllocator {
    next_free: usize,
    free_list: RoaringBitmap,
    max_allocated: usize,
}

/// A finite set of indices below `bound` holds at most `bound` ones.
proof fn lemma_bounded_set_len(s: Set<int>, bound: int)
    requires
        s.finite(),
        bound >= 0,
        forall|n: int| #[trigger] s.contains(n) ==> 0 <= n < bound,
    ensures
        s.len() <= bound,
{
    lemma_int_range(0, bound);
    assert(s.subset_of(vstd::set_lib::set_int_range(0, bound)));
    vstd::set_lib::lemma_len_subset(s, vstd::set_lib::set_int_range(0, bound));
}

impl FakeSlabAllocator {
    /// The set of freed, reusable indices.
    pub closed spec fn free_set(&self) -> Set<int> {
        bitmap_set(self.free_list)
    }

    /// The lowest never-allocated index.
    pub closed spec fn fresh_bound(&self) -> int {
        self.next_free as int
    }

    /// Peak number of simultaneously allocated indices.
    pub closed spec fn peak(&self) -> int {
        self.max_allocated as int
    }

    /// Number of currently allocated indices: all below the fresh
    /// bound except the freed ones.
    pub open spec fn spec_allocated_count(&self) -> int {
        self.fresh_bound() - self.free_set().len()
    }

    pub closed spec fn wf(&self) -> bool {
        &&& self.free_set().finite()
        &&& forall|n: int| #[trigger] self.free_set().contains(n) ==> 0 <= n < self.next_free
        &&& self.next_free <= u32::MAX
    }

    /// A fresh allocator starting from index 0.
    pub fn new() -> (r: Self)
        ensures
            r.wf(),
            r.fresh_bound() == 0,
            r.free_set() == Set::<int>::empty(),
            r.peak() == 0,
    {
        Self { next_free: 0, free_list: bitmap_new(), max_allocated: 0 }
    }

    /// A fresh allocator with a specific starting index.
    pub fn with_starting_index(start: usize) -> (r: Self)
        requires
            start <= u32::MAX,
        ensures
            r.wf(),
            r.fresh_bound() == start,
            r.free_set() == Set::<int>::empty(),
            r.peak() == 0,
    {
        Self { next_free: start, free_list: bitmap_new(), max_allocated: 0 }
    }

    /// Allocate and return the next available index: the lowest freed
    /// index if any exists, a fresh one otherwise.  The peak statistic
    /// follows the allocated count.  The returned index is allocated
    /// afterwards: it lies below the fresh bound and is not free.
    pub fn allocate(&mut self) -> (index: usize)
        requires
            old(self).wf(),
            old(self).fresh_bound() < u32::MAX,
        ensures
            final(self).wf(),
            final(self).free_set().finite(),
            index < final(self).fresh_bound(),
            !final(self).free_set().contains(index as int),
            old(self).free_set().len() > 0 ==> {
                &&& old(self).free_set().contains(index as int)
                &&& forall|y: int| old(self).free_set().contains(y) ==> index as int <= y
                &&& final(self).free_set() == old(self).free_set().remove(index as int)
                &&& final(self).fresh_bound() == old(self).fresh_bound()
            },
            old(self).free_set().len() == 0 ==> {
                &&& index as int == old(self).fresh_bound()
                &&& final(self).fresh_bound() == old(self).fresh_bound() + 1
                &&& final(self).free_set() == old(self).free_set()
            },
            final(self).spec_allocated_count() == old(self).spec_allocated_count() + 1,
            final(self).peak() == (if final(self).spec_allocated_count() > old(self).peak() {
                final(self).spec_allocated_count()
            } else {
                old(self).peak()
            }),
    {
        let index = match bitmap_min(&self.free_list) {
            Some(free_index) => {
                bitmap_remove(&mut self.free_list, free_index);
                free_index as usize
            },
            None => {
                let index = self.next_free;
                self.next_free = self.next_free + 1;
                index
            },
        };
        proof {
            if old(self).free_set().len() == 0 {
                if old(self).free_set().contains(old(self).free_set().choose()) {
                    assert(old(self).free_set().len() > 0);
                }
            }
        }
        let current_allocated = self.allocated_count();
        if current_allocated > self.max_allocated {
            self.max_allocated = current_allocated;
        }
        index
    }

    /// Make a previously allocated index available for reuse; an index
    /// that was never allocated, or is already free, is left alone.
    /// The free set stays finite, so freeing a live index lowers the
    /// allocated count by exactly one.
    pub fn deallocate(&mut self, index: usize) -> (r: ())
        requires
            old(self).wf(),
        ensures
            final(self).wf(),
            old(self).free_set().finite(),
            final(self).free_set().finite(),
            final(self).fresh_bound() == old(self).fresh_bound(),
            final(self).peak() == old(self).peak(),
            final(self).free_set() == (if index < old(self).fresh_bound() && !old(
                self,
            ).free_set().contains(index as int) {
                old(self).free_set().insert(index as int)
            } else {
                old(self).free_set()
            }),
    {
        if index < self.next_free && !bitmap_contains(&self.free_list, index as u32) {
            bitmap_insert(&mut self.free_list, index as u32);
        }
    }

    /// Whether an index is currently allocated.
    pub fn is_allocated(&self, index: usize) -> (r: bool)
        requires
            self.wf(),
        ensures
            r == (index < self.fresh_bound() && !self.free_set().contains(index as int)),
    {
        index < self.next_free && !bitmap_contains(&self.free_list, index as u32)
    }

    /// The count of currently allocated slots.
    pub fn allocated_count(&self) -> (r: usize)
        requires
            self.wf(),
        ensures
            r == self.spec_allocated_count(),
    {
        proof {
            lemma_bounded_set_len(self.free_set(), self.next_free as int);
        }
        self.next_free - bitmap_len(&self.free_list) as usize
    }

    /// The total number of indices ever allocated, recycled ones
    /// counted once.
    pub fn total_allocated(&self) -> (r: usize)
        ensures
            r == self.fresh_bound(),
    {
        self.next_free
    }

    /// The peak number of simultaneously allocated slots.
    pub fn max_allocated_concurrently(&self) -> (r: usize)
        ensures
            r == self.peak(),
    {
        self.max_allocated
    }

    /// Restart peak tracking from the current allocation count.
    pub fn reset_max_allocated(&mut self) -> (r: ())
        requires
            old(self).wf(),
        ensures
            final(self).wf(),
            final(self).fresh_bound() == old(self).fresh_bound(),
            final(self).free_set() == old(self).free_set(),
            final(self).peak() == old(self).spec_allocated_count(),
    {
        self.max_allocated = self.allocated_count();
    }
}

} // verus!

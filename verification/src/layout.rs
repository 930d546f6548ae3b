//! How a byte range of an object falls onto the object's pages.
//!
//! A request for the bytes `start..end` of an object of `size` bytes can be
//! served up to `stop`, the smaller of `end` and `size`. The pages it touches
//! are numbered here from 0, the first being the page that holds `start`.
//! From each touched page the request takes one part; the parts follow each
//! other without a gap from `start` to `stop`.

use vstd::prelude::*;

verus! {

/// A byte range asked of an object, the object's size and the page size.
#[derive(Debug, Clone, Copy)]
pub struct ReadRequest {
    /// The first byte asked for.
    pub start: usize,
    /// The byte after the last one asked for.
    pub end: usize,
    /// The size of a page, in bytes.
    pub page_size: usize,
    /// The size of the object, in bytes.
    pub size: usize,
}

impl ReadRequest {
    /// A request can be cut into pages when the page size is not zero.
    pub open spec fn valid(&self) -> bool {
        self.page_size > 0
    }

    /// Where the served bytes end: at `end`, or at the object's end if that
    /// comes first.
    pub open spec fn stop(&self) -> int {
        if self.end <= self.size {
            self.end as int
        } else {
            self.size as int
        }
    }

    /// The number of bytes served.
    pub open spec fn served_len(&self) -> int {
        if self.start < self.stop() {
            self.stop() - self.start
        } else {
            0
        }
    }

    /// The number of pages that the request touches.
    pub open spec fn page_count(&self) -> int {
        if self.start < self.stop() {
            (self.stop() - 1) / (self.page_size as int) - self.page_index(0) + 1
        } else {
            0
        }
    }

    /// The page id of the `i`-th touched page.
    pub open spec fn page_index(&self, i: int) -> int {
        (self.start as int) / (self.page_size as int) + i
    }

    /// The offset in the object at which the `i`-th touched page begins.
    pub open spec fn page_offset(&self, i: int) -> int {
        self.page_index(i) * self.page_size
    }

    /// The offset in the object at which the `i`-th touched page ends: one
    /// page size on, or at the object's end if that comes first.
    pub open spec fn page_end(&self, i: int) -> int {
        if self.page_offset(i) + self.page_size <= self.size {
            self.page_offset(i) + self.page_size
        } else {
            self.size as int
        }
    }

    /// Where the part taken from the `i`-th touched page begins.
    pub open spec fn part_start(&self, i: int) -> int {
        if self.page_offset(i) >= self.start {
            self.page_offset(i)
        } else {
            self.start as int
        }
    }

    /// Where the part taken from the `i`-th touched page ends.
    pub open spec fn part_end(&self, i: int) -> int {
        if self.page_offset(i) + self.page_size <= self.stop() {
            self.page_offset(i) + self.page_size
        } else {
            self.stop()
        }
    }

    /// The part taken from each touched page is not empty and lies within
    /// the page; the first part begins at `start`, each later one where the
    /// one before it ended, and the last one ends at `stop`.
    pub proof fn lemma_parts(&self, i: int)
        requires
            self.valid(),
            0 <= i < self.page_count(),
        ensures
            0 <= self.page_index(i),
            0 <= self.page_offset(i) <= self.part_start(i) < self.part_end(i) <= self.page_end(i)
                <= self.size,
            self.page_end(i) <= self.page_offset(i) + self.page_size,
            self.start <= self.part_start(i),
            self.part_end(i) <= self.stop(),
            i == 0 ==> self.part_start(i) == self.start,
            i > 0 ==> self.part_start(i) == self.page_offset(i) && self.part_start(i)
                == self.part_end(i - 1),
            i == self.page_count() - 1 ==> self.part_end(i) == self.stop(),
            i < self.page_count() - 1 ==> self.part_end(i) == self.page_offset(i) + self.page_size,
    {
        let p = self.page_size as int;
        let first = self.page_index(0);
        let last = (self.stop() - 1) / p;
        lemma_page_of(self.start as int, p);
        lemma_page_of(self.stop() - 1, p);
        let index = first + i;
        assert(first * p <= index * p && index * p <= last * p) by (nonlinear_arith)
            requires
                first <= index <= last,
                p > 0,
        ;
        assert((index + 1) * p == index * p + p) by (nonlinear_arith);
        if i > 0 {
            assert((first + 1) * p <= index * p) by (nonlinear_arith)
                requires
                    first + 1 <= index,
                    p > 0,
            ;
            assert((first + 1) * p == first * p + p) by (nonlinear_arith);
            assert((index - 1 + 1) * p == (index - 1) * p + p) by (nonlinear_arith);
            assert((index - 1 + 1) * p <= last * p) by (nonlinear_arith)
                requires
                    index <= last,
                    p > 0,
            ;
        }
        if index < last {
            assert((index + 1) * p <= last * p) by (nonlinear_arith)
                requires
                    index + 1 <= last,
                    p > 0,
            ;
        }
    }

    /// A request touches no page exactly when it is served no byte.
    pub proof fn lemma_page_count(&self)
        requires
            self.valid(),
        ensures
            0 <= self.page_count(),
            self.page_count() == 0 <==> self.served_len() == 0,
            self.page_count() == 0 <==> self.start >= self.stop(),
    {
        if self.start < self.stop() {
            lemma_page_of(self.start as int, self.page_size as int);
        }
    }

    /// The `i`-th touched page of a request is the page that holds the first
    /// byte of the part taken from it.
    pub proof fn lemma_page_holds_part(&self, i: int)
        requires
            self.valid(),
            0 <= i < self.page_count(),
        ensures
            self.page_index(i) == self.part_start(i) / (self.page_size as int),
    {
        self.lemma_parts(i);
        let p = self.page_size as int;
        let index = self.page_index(i);
        lemma_page_is(self.part_start(i), p, index);
    }
}

/// A byte at `x` lies in the page `x / p`, which begins at or before `x` and
/// ends after it. Pages do not run backwards: a later byte lies in the same
/// page or in a later one.
pub proof fn lemma_page_of(x: int, p: int)
    requires
        0 <= x,
        0 < p,
    ensures
        0 <= x / p,
        (x / p) * p <= x < (x / p) * p + p,
        forall|y: int| x <= y ==> x / p <= #[trigger] (y / p),
{
    vstd::arithmetic::div_mod::lemma_fundamental_div_mod(x, p);
    vstd::arithmetic::div_mod::lemma_mod_bound(x, p);
    vstd::arithmetic::div_mod::lemma_div_pos_is_pos(x, p);
    assert((x / p) * p == p * (x / p)) by (nonlinear_arith);
    assert forall|y: int| x <= y implies x / p <= #[trigger] (y / p) by {
        vstd::arithmetic::div_mod::lemma_div_is_ordered(x, y, p);
    }
}

/// The page that begins at or before `x` and ends after it is the page
/// `x / p`.
pub proof fn lemma_page_is(x: int, p: int, index: int)
    requires
        0 < p,
        index * p <= x < index * p + p,
    ensures
        x / p == index,
{
    vstd::arithmetic::div_mod::lemma_fundamental_div_mod_converse(x, p, index, x - index * p);
}

} // verus!

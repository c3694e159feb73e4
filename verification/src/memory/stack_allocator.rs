//! Kernel stacks and the allocator that carves them out of a range of pages.

use vstd::prelude::*;
use crate::interrupts::trapframe::TrapFrame;
use crate::memory::address::VirtualAddress;
use crate::paging::{Page, PageIter};

verus! {

/// The number of bytes that a saved trap frame takes on a stack: twenty-two
/// registers of eight bytes.
pub const TRAP_FRAME_SIZE: u64 = 176;

/// A kernel stack, given by the addresses of its top and its bottom. The
/// stack grows from the top down.
///
/// The stack keeps the trap frame that was pushed at its top, from which the
/// thread that owns the stack is resumed.
#[derive(Debug)]
pub struct Stack {
    top: VirtualAddress,
    bottom: VirtualAddress,
    saved: Option<TrapFrame>,
}

impl Stack {
    /// The address just above the stack.
    pub closed spec fn spec_top(&self) -> VirtualAddress {
        self.top
    }

    /// The address of the lowest byte of the stack.
    pub closed spec fn spec_bottom(&self) -> VirtualAddress {
        self.bottom
    }

    /// The trap frame at the top of the stack, where one was pushed.
    pub closed spec fn spec_saved(&self) -> Option<TrapFrame> {
        self.saved
    }

    /// The stack has room for a trap frame.
    pub open spec fn wf(&self) -> bool {
        self.spec_bottom() + TRAP_FRAME_SIZE <= self.spec_top()
    }

    /// A stack from `bottom` up to `top`, with nothing on it.
    pub fn new(top: VirtualAddress, bottom: VirtualAddress) -> (stack: Stack)
        requires
            top > bottom,
        ensures
            stack.spec_top() == top,
            stack.spec_bottom() == bottom,
            stack.spec_saved().is_none(),
    {
        Stack { top, bottom, saved: None }
    }

    /// The address just above the stack.
    pub fn top(&self) -> (top: VirtualAddress)
        ensures
            top == self.spec_top(),
    {
        self.top
    }

    /// The address of the lowest byte of the stack.
    pub fn bottom(&self) -> (bottom: VirtualAddress)
        ensures
            bottom == self.spec_bottom(),
    {
        self.bottom
    }

    /// The trap frame at the top of the stack, where one was pushed.
    pub fn saved(&self) -> (frame: Option<TrapFrame>)
        ensures
            frame == self.spec_saved(),
    {
        self.saved
    }

    /// Puts `frame` at the top of the stack and hands back the address at
    /// which it lies: the stack pointer from which the thread is resumed.
    pub fn push_at_top(&mut self, frame: TrapFrame) -> (rsp: VirtualAddress)
        requires
            old(self).wf(),
        ensures
            rsp == old(self).spec_top() - TRAP_FRAME_SIZE,
            final(self).spec_top() == old(self).spec_top(),
            final(self).spec_bottom() == old(self).spec_bottom(),
            final(self).spec_saved() == Some(frame),
    {
        self.saved = Some(frame);
        self.top - TRAP_FRAME_SIZE
    }
}

/// Hands out kernel stacks from a range of pages. Below every stack one
/// page is left out as a guard.
pub struct StackAllocator {
    range: PageIter,
}

impl StackAllocator {
    /// The number of the page that is taken next.
    pub closed spec fn next_page(&self) -> int {
        self.range.start.number as int
    }

    /// The number of the last page of the range.
    pub closed spec fn last_page(&self) -> int {
        self.range.end.number as int
    }

    /// The number of pages that are left.
    pub open spec fn remaining(&self) -> int {
        if self.next_page() <= self.last_page() {
            self.last_page() - self.next_page() + 1
        } else {
            0
        }
    }

    /// The pages of the range are valid.
    pub closed spec fn wf(&self) -> bool {
        self.range.start.number <= self.range.end.number ==> same_half(
            self.range.start,
            self.range.end,
        ) && self.range.end.number < 0x000f_ffff_ffff_ffff
    }

    /// An allocator over the pages of `range`, which lie in one half of the
    /// address space and do not reach its very last page.
    pub fn new(range: PageIter) -> (allocator: StackAllocator)
        requires
            range.start.number <= range.end.number ==> same_half(range.start, range.end)
                && range.end.number < 0x000f_ffff_ffff_ffff,
        ensures
            allocator.wf(),
            allocator.next_page() == range.start.number,
            allocator.last_page() == range.end.number,
    {
        StackAllocator { range }
    }

    /// The number of pages that are left.
    pub fn pages_left(&self) -> (count: u64)
        requires
            self.wf(),
        ensures
            count == self.remaining(),
    {
        if self.range.start.number <= self.range.end.number {
            self.range.end.number - self.range.start.number + 1
        } else {
            0
        }
    }

    /// Hands out a stack of `size_in_pages` pages, or `None` where the
    /// request is for no page or where the range has not one page more than
    /// asked for left.
    ///
    /// The lowest page left is passed over as the guard; the stack takes the
    /// pages above it. The range shrinks by all of them.
    pub fn alloc_stacks(&mut self, size_in_pages: usize) -> (stack: Option<Stack>)
        requires
            old(self).wf(),
        ensures
            final(self).wf(),
            final(self).last_page() == old(self).last_page(),
            stack.is_some() <==> size_in_pages > 0 && old(self).remaining() > size_in_pages,
            stack matches Some(s) ==> {
                &&& s.spec_bottom() == (old(self).next_page() + 1) * 4096
                &&& s.spec_top() == (old(self).next_page() + 1 + size_in_pages) * 4096
                &&& s.spec_saved().is_none()
                &&& s.wf()
                &&& final(self).next_page() == old(self).next_page() + 1 + size_in_pages
            },
            stack.is_none() ==> *final(self) == *old(self),
    {
        if size_in_pages == 0 {
            return None;
        }
        let start = self.range.start.number;
        let end = self.range.end.number;
        if start > end || (size_in_pages as u64) > end - start {
            return None;
        }
        // `start` is the guard page, the stack is `start + 1 ..= last`.
        let bottom_page = Page { number: start + 1 };
        let last = start + size_in_pages as u64;
        proof {
            lemma_pages_between_are_valid(self.range.start, self.range.end, bottom_page);
            lemma_pages_between_are_valid(self.range.start, self.range.end, Page { number: last });
        }
        let bottom = bottom_page.start_address();
        let top_page = Page { number: last };
        let top = top_page.start_address() + 4096;
        self.range.start = Page { number: last + 1 };
        proof {
            if last + 1 <= end {
                lemma_pages_between_are_valid(
                    old(self).range.start,
                    old(self).range.end,
                    Page { number: (last + 1) as u64 },
                );
            }
        }
        Some(Stack::new(top, bottom))
    }
}

/// The two pages are valid and lie in the same half of the address space.
pub open spec fn same_half(first: Page, last: Page) -> bool {
    &&& first.valid()
    &&& last.valid()
    &&& (first.number < 0x0000_0008_0000_0000) == (last.number < 0x0000_0008_0000_0000)
}

/// A page between two pages of one half of the address space is valid and
/// lies in that half.
pub proof fn lemma_pages_between_are_valid(first: Page, last: Page, page: Page)
    requires
        same_half(first, last),
        first.number <= page.number <= last.number,
    ensures
        page.valid(),
        same_half(page, last),
        same_half(first, page),
{
}

} // verus!

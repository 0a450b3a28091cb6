//! DMA memory backed by huge pages, and the translation of its virtual address
//! into a physical one through `/proc/self/pagemap`.
//!
//! The mapping itself is made and undone by the caller; this module holds what
//! the driver knows of a region (where it lies, how large it is, and the
//! physical address once it has been looked up) and decodes pagemap entries.

use vstd::prelude::*;
use crate::le::{le_value, read_le_u64};

verus! {

/// Size of a huge page; DMA regions are made of whole huge pages.
pub const HUGE_PAGE_SIZE: usize = 0x20_0000;

/// Size of a base page, the unit that `/proc/self/pagemap` describes.
pub const PAGE_SIZE: u64 = 4096;

/// Size of one `/proc/self/pagemap` entry in bytes.
pub const PAGEMAP_ENTRY_SIZE: u64 = 8;

/// Whether a pagemap entry says that the page is present in RAM (bit 63).
pub open spec fn entry_present(entry: u64) -> bool {
    entry >= 0x8000_0000_0000_0000
}

/// The physical address that a pagemap entry gives: the entry shifted left
/// by the page shift of 12, keeping the low 64 bits.
pub open spec fn entry_phys_addr(entry: u64) -> u64 {
    ((entry as nat % 0x10_0000_0000_0000) * 4096) as u64
}

/// Byte offset in `/proc/self/pagemap` of the entry for the page holding `va`.
pub open spec fn pagemap_offset_of(va: usize) -> u64 {
    ((va as nat / 4096) * 8) as u64
}

/// Whether a DMA region of `size` bytes can be allocated: a whole number of
/// huge pages.
pub open spec fn dma_size_ok(size: usize) -> bool {
    size % HUGE_PAGE_SIZE == 0
}

/// The present bit of a pagemap entry, as the number 0 or 1.
pub fn present_bit(entry: u64) -> (b: u64)
    ensures
        b == (if entry_present(entry) { 1u64 } else { 0u64 }),
{
    let b = (entry & (1u64 << 63u64)) >> 63u64;
    assert(b == (if entry >= 0x8000_0000_0000_0000u64 { 1u64 } else { 0u64 })) by (bit_vector)
        requires
            b == (entry & (1u64 << 63u64)) >> 63u64,
    ;
    b
}

/// Whether a pagemap entry says that the page is present.
pub fn page_present(entry: u64) -> (r: bool)
    ensures
        r == entry_present(entry),
{
    present_bit(entry) != 0
}

/// The physical address that a pagemap entry gives; it is page aligned.
pub fn phys_addr_from_entry(entry: u64) -> (p: u64)
    ensures
        p == entry_phys_addr(entry),
        p % 4096 == 0,
{
    let p = entry << 12u64;
    assert(p == ((entry % 0x10_0000_0000_0000u64) * 4096) as u64 && p % 4096 == 0) by (bit_vector)
        requires
            p == entry << 12u64,
    ;
    p
}

/// Byte offset in `/proc/self/pagemap` of the entry that describes `va`.
pub fn pagemap_offset(va: usize) -> (off: u64)
    ensures
        off == pagemap_offset_of(va),
        off as nat == (va as nat / 4096) * 8,
{
    let page: u64 = (va as u64) / PAGE_SIZE;
    assert(page <= 0x10_0000_0000_0000) by {
        assert(va as u64 <= 0xffff_ffff_ffff_ffffu64);
    }
    page * PAGEMAP_ENTRY_SIZE
}

/// A pagemap entry as read from the file: eight bytes, little-endian.
pub fn pagemap_entry(bytes: &[u8; 8]) -> (entry: u64)
    ensures
        entry as nat == le_value(bytes@),
{
    let s: &[u8] = bytes.as_slice();
    assert(s@.take(8) == bytes@);
    read_le_u64(s)
}

/// Whether `size` bytes of DMA memory can be requested.
pub fn dma_size_is_valid(size: usize) -> (r: bool)
    ensures
        r == dma_size_ok(size),
        r == (size % 0x20_0000 == 0),
{
    size % HUGE_PAGE_SIZE == 0
}

/// What the driver knows of a DMA region.
#[derive(Clone, Copy, Debug, PartialEq, Eq)]
pub struct MemoryView {
    pub va: usize,
    pub size: usize,
    pub pa: Option<usize>,
}

/// A region of DMA memory: its virtual address, its size, and its physical
/// address once that has been looked up.
#[derive(Debug)]
pub struct Memory {
    va: usize,
    size: usize,
    pa: Option<usize>,
}

/// What `get_phys_addr` needs next: either the cached physical address, or
/// the pagemap entry at the given byte offset.
#[derive(Clone, Copy, Debug, PartialEq, Eq)]
pub enum PhysAddrRequest {
    Cached(usize),
    Lookup(u64),
}

/// What holds of every DMA region: it is made of whole huge pages, it is not
/// empty, and a physical address it has cached is page aligned.
pub open spec fn region_ok(m: MemoryView) -> bool {
    &&& dma_size_ok(m.size)
    &&& m.size > 0
    &&& (m.pa matches Some(a) ==> a % 4096 == 0)
}

/// The answer to a physical-address request in a given state.
pub open spec fn request_of(m: MemoryView) -> PhysAddrRequest {
    match m.pa {
        Some(a) => PhysAddrRequest::Cached(a),
        None => PhysAddrRequest::Lookup(pagemap_offset_of(m.va)),
    }
}

/// The state after the pagemap entry `entry` has been recorded.
pub open spec fn recorded(m: MemoryView, entry: u64) -> MemoryView {
    MemoryView { va: m.va, size: m.size, pa: Some(entry_phys_addr(entry) as usize) }
}

impl View for Memory {
    type V = MemoryView;

    closed spec fn view(&self) -> MemoryView {
        MemoryView { va: self.va, size: self.size, pa: self.pa }
    }
}

impl Memory {
    /// Every region keeps `region_ok`.
    #[verifier::type_invariant]
    spec fn inv(self) -> bool {
        region_ok(self@)
    }

    /// The region of `size` bytes mapped at `va`, with no physical address
    /// known yet. A mapping of no bytes cannot be made, so `size` is not 0.
    pub fn new(va: usize, size: usize) -> (m: Memory)
        requires
            dma_size_ok(size),
            size > 0,
        ensures
            m@ == (MemoryView { va, size, pa: None }),
            region_ok(m@),
    {
        Memory { va, size, pa: None }
    }

    /// The virtual address of the region.
    pub fn va(&self) -> (va: usize)
        ensures
            va == self@.va,
            region_ok(self@),
    {
        proof {
            use_type_invariant(self);
        }
        self.va
    }

    /// The size of the region in bytes, a whole number of huge pages.
    pub fn size(&self) -> (size: usize)
        ensures
            size == self@.size,
            dma_size_ok(size),
            size > 0,
            region_ok(self@),
    {
        proof {
            use_type_invariant(self);
        }
        self.size
    }

    /// The first step of looking up the physical address: the cached one if
    /// it is known, else the pagemap entry of the region's first page.
    pub fn phys_addr_request(&self) -> (r: PhysAddrRequest)
        ensures
            r == request_of(self@),
            region_ok(self@),
            r matches PhysAddrRequest::Cached(a) ==> a % 4096 == 0,
    {
        proof {
            use_type_invariant(self);
        }
        match self.pa {
            Some(a) => PhysAddrRequest::Cached(a),
            None => PhysAddrRequest::Lookup(pagemap_offset(self.va)),
        }
    }

    /// Records the physical address that the pagemap entry `entry` gives and
    /// returns it. The entry must say that the page is present.
    pub fn record_phys_addr(&mut self, entry: u64) -> (pa: usize)
        requires
            entry_present(entry),
        ensures
            pa == entry_phys_addr(entry) as usize,
            pa % 4096 == 0,
            final(self)@ == recorded(old(self)@, entry),
            final(self)@.pa == Some(pa),
            final(self)@.va == old(self)@.va,
            final(self)@.size == old(self)@.size,
            region_ok(final(self)@),
    {
        proof {
            use_type_invariant(&*self);
        }
        let p = phys_addr_from_entry(entry);
        let pa = #[verifier::truncate] (p as usize);
        proof {
            lemma_usize_cast_keeps_page_alignment(p);
        }
        self.pa = Some(pa);
        pa
    }
}

/// Once a physical address has been recorded, every later request is answered
/// from the cache with that address, and asking again changes nothing.
pub proof fn lemma_phys_addr_is_cached(m: MemoryView, entry: u64)
    ensures
        request_of(recorded(m, entry)) == PhysAddrRequest::Cached(entry_phys_addr(entry) as usize),
        recorded(m, entry).va == m.va,
        recorded(m, entry).size == m.size,
{
}

/// Recording a present pagemap entry keeps a region's address and size and
/// leaves it well formed: the cached address is page aligned.
pub proof fn lemma_recorded_region_ok(m: MemoryView, entry: u64)
    requires
        region_ok(m),
    ensures
        region_ok(recorded(m, entry)),
        recorded(m, entry).va == m.va,
        recorded(m, entry).size == m.size,
        (entry_phys_addr(entry) as usize) % 4096 == 0,
{
    let p = entry_phys_addr(entry);
    assert(p % 4096 == 0) by (bit_vector)
        requires
            p == ((entry % 0x10_0000_0000_0000u64) * 4096) as u64,
    ;
    lemma_usize_cast_keeps_page_alignment(p);
}

/// A page-aligned 64-bit address stays page aligned when cast to `usize`.
proof fn lemma_usize_cast_keeps_page_alignment(p: u64)
    requires
        p % 4096 == 0,
    ensures
        (p as usize) % 4096 == 0,
{
    let q: usize = p as usize;
    assert(p & 0xfffu64 == 0) by (bit_vector)
        requires
            p % 4096 == 0,
    ;
    assert(q & 0xfffusize == 0) by (bit_vector)
        requires
            p & 0xfffu64 == 0,
            q == p as usize,
    ;
    assert(q % 4096 == 0) by (bit_vector)
        requires
            q & 0xfffusize == 0,
    ;
}

/// A region whose physical address is not known yet asks for the pagemap
/// entry of the page that holds its first byte.
pub proof fn lemma_lookup_reads_first_page(m: MemoryView)
    requires
        m.pa is None,
    ensures
        request_of(m) == PhysAddrRequest::Lookup(pagemap_offset_of(m.va)),
        pagemap_offset_of(m.va) % 8 == 0,
{
    assert(((m.va as nat / 4096) * 8) % 8 == 0) by (nonlinear_arith);
    assert(((m.va as nat / 4096) * 8) <= 0xffff_ffff_ffff_ffff) by (nonlinear_arith)
        requires m.va <= 0xffff_ffff_ffff_ffffnat;
}

/// A DMA size is accepted exactly when it is a whole number of 2 MiB huge
/// pages: it is that number times 2 MiB, and any size that leaves a remainder
/// modulo 2 MiB is refused.
pub proof fn lemma_dma_size_whole_huge_pages(size: usize)
    ensures
        HUGE_PAGE_SIZE == 2 * 1024 * 1024,
        dma_size_ok(size) <==> size as nat % 2097152 == 0,
        dma_size_ok(size) ==> size == (size / 0x20_0000) * 0x20_0000,
        dma_size_ok(size) && size + 0x20_0000 <= usize::MAX ==> dma_size_ok(
            (size + 0x20_0000) as usize,
        ),
        forall|k: usize| 0 < k < 0x20_0000 && dma_size_ok(size) && size + k <= usize::MAX
            ==> !dma_size_ok(#[trigger] ((size + k) as usize)),
{
    assert(dma_size_ok(size) ==> size == (size / 0x20_0000) * 0x20_0000) by (nonlinear_arith);
}

/// The present flag of a pagemap entry is its top bit: every entry below
/// 2^63 is absent, and setting bit 63 makes it present.
pub proof fn lemma_present_is_top_bit(entry: u64)
    ensures
        entry < 0x8000_0000_0000_0000 ==> !entry_present(entry) && entry_present(
            (entry + 0x8000_0000_0000_0000) as u64,
        ),
        entry_present(entry) ==> !entry_present((entry - 0x8000_0000_0000_0000) as u64),
{
}

/// The physical address of an entry is its page frame number (the low 52
/// bits) times the page size: page aligned, and dividing it by the page size
/// gives the frame number back. Entries with the same frame number give the
/// same address.
pub proof fn lemma_phys_addr_is_frame_times_page(entry: u64, other: u64)
    ensures
        entry_phys_addr(entry) % 4096 == 0,
        entry_phys_addr(entry) / 4096 == entry % 0x10_0000_0000_0000,
        entry % 0x10_0000_0000_0000 == other % 0x10_0000_0000_0000 ==> entry_phys_addr(entry)
            == entry_phys_addr(other),
{
    let f = entry as nat % 0x10_0000_0000_0000;
    assert(f * 4096 <= 0xffff_ffff_ffff_ffff) by (nonlinear_arith)
        requires
            f < 0x10_0000_0000_0000,
    ;
    assert((f * 4096) % 4096 == 0 && (f * 4096) / 4096 == f) by (nonlinear_arith);
}

/// Addresses in the same page share a pagemap entry, and the entry of the
/// next page is the next one in the file, eight bytes on.
pub proof fn lemma_pagemap_offset_per_page(va: usize)
    ensures
        pagemap_offset_of((va - va % 4096) as usize) == pagemap_offset_of(va),
        va + 4096 <= usize::MAX ==> pagemap_offset_of((va + 4096) as usize) == pagemap_offset_of(
            va,
        ) + 8,
        pagemap_offset_of(va) % 8 == 0,
{
    let p = va as nat / 4096;
    let r = va as nat % 4096;
    assert(va as nat == p * 4096 + r && r < 4096) by (nonlinear_arith)
        requires
            p == va as nat / 4096,
            r == va as nat % 4096,
    ;
    assert(((va - va % 4096) as nat) == p * 4096);
    assert((p * 4096) / 4096 == p) by (nonlinear_arith);
    assert((p * 4096 + r + 4096) / 4096 == p + 1) by (nonlinear_arith)
        requires
            0 <= r < 4096,
    ;
    assert(p * 8 <= 0xffff_ffff_ffff_ffff && (p + 1) * 8 <= 0xffff_ffff_ffff_ffff)
        by (nonlinear_arith)
        requires
            p == va as nat / 4096,
            va <= 0xffff_ffff_ffff_ffffnat,
    ;
    assert((p * 8) % 8 == 0) by (nonlinear_arith);
}

} // verus!

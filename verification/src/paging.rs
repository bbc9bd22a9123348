//! Identity page-table construction: a multi-level hierarchy mapping the
//! first 64 GiB of physical address space 1:1 with 2 MiB pages.
//!
//! One top-level entry points at a pointer table whose entries fan out into
//! page directories. This module computes every table's contents; the
//! embedding program places them at page-aligned physical addresses, feeds
//! those addresses back in, and loads the root into the page-table base
//! register.

use vstd::prelude::*;

verus! {

/// Page directories in the hierarchy; each maps 1 GiB.
pub const PAGE_DIRECTORY_COUNT: usize = 64;

/// Entries per page table.
pub const PAGE_TABLE_ENTRY_COUNT: usize = 512;

/// Size of a 4 KiB page.
pub const PAGE_SIZE_4K: u64 = 4096;

/// Size of a 2 MiB page.
pub const PAGE_SIZE_2M: u64 = 512 * 4096;

/// Size of a 1 GiB page.
pub const PAGE_SIZE_1G: u64 = 512 * 512 * 4096;

/// Flags of a present, writable table entry.
pub const PAGE_FLAGS_TABLE: u64 = 0x003;

/// Flags of a present, writable 2 MiB page entry.
pub const PAGE_FLAGS_2M_PAGE: u64 = 0x083;

/// Entry `j` of page directory `i`: identity-maps the 2 MiB page at
/// `i` GiB + `j` * 2 MiB, present, writable, with the page-size flag.
pub open spec fn page_directory_entry_spec(i: int, j: int) -> u64 {
    ((i * PAGE_SIZE_1G + j * PAGE_SIZE_2M) as u64) | PAGE_FLAGS_2M_PAGE
}

/// Builds page directory `i`: 512 entries identity-mapping its 1 GiB slice
/// with 2 MiB pages.
pub fn make_page_directory(i: usize) -> (pd: Vec<u64>)
    requires
        i < PAGE_DIRECTORY_COUNT,
    ensures
        pd@.len() == PAGE_TABLE_ENTRY_COUNT,
        forall|j: int|
            0 <= j < PAGE_TABLE_ENTRY_COUNT ==> pd@[j] == page_directory_entry_spec(i as int, j),
{
    let mut pd: Vec<u64> = Vec::new();
    let mut j: usize = 0;
    while j < PAGE_TABLE_ENTRY_COUNT
        invariant
            i < PAGE_DIRECTORY_COUNT,
            j <= PAGE_TABLE_ENTRY_COUNT,
            pd@.len() == j,
            forall|k: int| 0 <= k < j ==> pd@[k] == page_directory_entry_spec(i as int, k),
        decreases PAGE_TABLE_ENTRY_COUNT - j,
    {
        proof {
            let gi = i as u64;
            let gj = j as u64;
            assert(PAGE_SIZE_1G == 0x4000_0000u64 && PAGE_SIZE_2M == 0x20_0000u64);
            assert(gi * 0x4000_0000u64 + gj * 0x20_0000u64 < 0x10_0000_0000u64)
                by (nonlinear_arith)
                requires
                    gi < 64u64 && gj < 512u64,
            ;
        }
        pd.push((i as u64) * PAGE_SIZE_1G + (j as u64) * PAGE_SIZE_2M | PAGE_FLAGS_2M_PAGE);
        j = j + 1;
    }
    pd
}

/// Builds the page-directory pointer table over the physical addresses of
/// the page directories: one present entry per directory, the rest empty.
pub fn make_pdp_table(directory_addrs: &Vec<u64>) -> (t: Vec<u64>)
    requires
        directory_addrs@.len() == PAGE_DIRECTORY_COUNT,
    ensures
        t@.len() == PAGE_TABLE_ENTRY_COUNT,
        forall|i: int|
            0 <= i < PAGE_DIRECTORY_COUNT ==> t@[i] == (directory_addrs@[i] | PAGE_FLAGS_TABLE),
        forall|i: int| PAGE_DIRECTORY_COUNT <= i < PAGE_TABLE_ENTRY_COUNT ==> t@[i] == 0u64,
{
    let mut t: Vec<u64> = Vec::new();
    let mut i: usize = 0;
    while i < PAGE_TABLE_ENTRY_COUNT
        invariant
            i <= PAGE_TABLE_ENTRY_COUNT,
            t@.len() == i,
            directory_addrs@.len() == PAGE_DIRECTORY_COUNT,
            forall|k: int|
                0 <= k < i && k < PAGE_DIRECTORY_COUNT ==> t@[k] == (directory_addrs@[k]
                    | PAGE_FLAGS_TABLE),
            forall|k: int| PAGE_DIRECTORY_COUNT <= k < i ==> t@[k] == 0u64,
        decreases PAGE_TABLE_ENTRY_COUNT - i,
    {
        if i < PAGE_DIRECTORY_COUNT {
            let addr = directory_addrs[i];
            t.push(addr | PAGE_FLAGS_TABLE);
        } else {
            t.push(0);
        }
        i = i + 1;
    }
    t
}

/// Builds the top-level table: its first entry points at the
/// page-directory pointer table, every other entry is empty.
pub fn make_pml4_table(pdp_addr: u64) -> (t: Vec<u64>)
    ensures
        t@.len() == PAGE_TABLE_ENTRY_COUNT,
        t@[0] == (pdp_addr | PAGE_FLAGS_TABLE),
        forall|i: int| 1 <= i < PAGE_TABLE_ENTRY_COUNT ==> t@[i] == 0u64,
{
    let mut t: Vec<u64> = Vec::new();
    t.push(pdp_addr | PAGE_FLAGS_TABLE);
    let mut i: usize = 1;
    while i < PAGE_TABLE_ENTRY_COUNT
        invariant
            1 <= i <= PAGE_TABLE_ENTRY_COUNT,
            t@.len() == i,
            t@[0] == (pdp_addr | PAGE_FLAGS_TABLE),
            forall|k: int| 1 <= k < i ==> t@[k] == 0u64,
        decreases PAGE_TABLE_ENTRY_COUNT - i,
    {
        t.push(0);
        i = i + 1;
    }
    t
}

} // verus!

//! The FAT16 driver's in-memory state: boot-sector header, root directory
//! and allocation table, with the directory and cluster-chain logic.
//!
//! Sector transfers (loading and saving the table and the directory, and
//! writing file data) are done by the caller with the addresses computed
//! here.
use vstd::prelude::*;

verus! {

pub const ENTRY_COUNT: usize = 1024;
pub const FAT_START: u16 = 36864;
pub const FAT_SIZE: usize = 32768;
/// End-of-chain marker.
pub const FAT_EOC: u16 = 0xFFFF;

/// The FAT16 boot sector.
#[derive(Copy, Clone, Debug)]
pub struct Header {
    pub boot_jump_instructions: [u8; 3],
    pub oem_identifier: [u8; 8],
    pub bytes_per_sector: u16,
    pub sectors_per_cluster: u8,
    pub reserved_sectors: u16,
    pub fat_count: u8,
    pub dir_entries_count: u16,
    pub total_sectors: u16,
    pub media_descriptor_type: u8,
    pub sectors_per_fat: u16,
    pub sectors_per_track: u16,
    pub heads: u16,
    pub hidden_sectors: u32,
    pub large_sector_count: u32,
    pub drive_number: u8,
    pub reserved: u8,
    pub signature: u8,
    pub volume_id: u32,
    pub volume_label: [u8; 11],
    pub system_id: [u8; 8],
    pub zero: [u8; 460],
}

/// A root-directory entry.
#[derive(Copy, Clone, Debug)]
pub struct Entry {
    pub name: [u8; 11],
    pub attributes: u8,
    pub reserved: u8,
    pub created_time_tenths: u8,
    pub created_time: u16,
    pub created_date: u16,
    pub accessed_date: u16,
    pub first_cluster_high: u16,
    pub modified_time: u16,
    pub modified_date: u16,
    pub first_cluster_low: u16,
    pub size: u32,
}

pub fn null_entry() -> (r: Entry)
    ensures
        r.name@ == Seq::new(11, |i: int| 0u8),
        r.size == 0,
        r.first_cluster_low == 0,
{
    let e = Entry {
        name: [0u8; 11],
        attributes: 0,
        reserved: 0,
        created_time_tenths: 0,
        created_time: 0,
        created_date: 0,
        accessed_date: 0,
        first_cluster_high: 0,
        modified_time: 0,
        modified_date: 0,
        first_cluster_low: 0,
        size: 0,
    };
    assert(e.name@ =~= Seq::new(11, |i: int| 0u8));
    e
}

pub struct FatDriver {
    pub header: Header,
    pub entries: Vec<Entry>,
    pub table: Vec<u16>,
    pub buffer: Vec<u8>,
}

/// ASCII upper case.
pub open spec fn upper(b: u8) -> u8 {
    if 0x61 <= b <= 0x7A { (b - 32) as u8 } else { b }
}

/// Index of the first `.` in `s`.
pub open spec fn first_dot(s: Seq<u8>, k: int) -> bool {
    0 <= k < s.len() && s[k] == 0x2E && forall|j: int| 0 <= j < k ==> s[j] != 0x2E
}

pub open spec fn has_dot(s: Seq<u8>) -> bool {
    exists|k: int| 0 <= k < s.len() && s[k] == 0x2E
}

/// The 8.3 directory name of a file name: upper case, the part before the
/// first dot (at most 8 bytes) then the part after it (at most 3 bytes),
/// padded with spaces; without a dot, the first 11 bytes.
pub open spec fn spec_fat_name(s: Seq<u8>) -> Seq<u8> {
    if has_dot(s) {
        let d = choose|k: int| first_dot(s, k);
        Seq::new(11, |i: int| if i < 8 {
            if i < d && i < s.len() { upper(s[i]) } else { 0x20u8 }
        } else {
            if d + 1 + (i - 8) < s.len() { upper(s[d + 1 + (i - 8)]) } else { 0x20u8 }
        })
    } else {
        Seq::new(11, |i: int| if i < s.len() { upper(s[i]) } else { 0x20u8 })
    }
}

fn upper_byte(b: u8) -> (r: u8)
    ensures
        r == upper(b),
{
    if 0x61 <= b && b <= 0x7A { b - 32 } else { b }
}

/// Clusters from `start` on are all in use before `end`.
pub open spec fn none_free_between(t: Seq<u16>, start: int, end: int) -> bool {
    forall|i: int| start <= i < end ==> #[trigger] t[i] != 0
}

/// Free clusters (index at least 2) below `m`, in ascending order.
pub open spec fn free_upto(t: Seq<u16>, m: int) -> Seq<int>
    decreases m,
{
    if m <= 0 {
        Seq::empty()
    } else {
        let s = free_upto(t, m - 1);
        if m - 1 >= 2 && m - 1 < t.len() && t[m - 1] == 0 { s.push(m - 1) } else { s }
    }
}

/// Every free cluster of the table, ascending.
pub open spec fn free_clusters(t: Seq<u16>) -> Seq<int> {
    free_upto(t, t.len() as int)
}

/// Every cluster link is another cluster of the table or the end marker.
pub open spec fn table_links_ok(t: Seq<u16>) -> bool {
    forall|i: int| 0 <= i < t.len() ==> (#[trigger] t[i] as int) < FAT_SIZE || t[i] == FAT_EOC
}

/// The table after linking `c[0] -> c[1] -> ... -> c[n-1]`, and marking the
/// last one as end of chain when `eoc`.
pub open spec fn linked(t: Seq<u16>, c: Seq<int>, eoc: bool) -> Seq<u16> {
    Seq::new(t.len(), |i: int| {
        if exists|k: int| 0 <= k < c.len() - 1 && c[k] == i {
            c[(choose|k: int| 0 <= k < c.len() - 1 && c[k] == i) + 1] as u16
        } else if eoc && c.len() > 0 && i == c.last() {
            FAT_EOC
        } else {
            t[i]
        }
    })
}

proof fn lemma_free_upto_bounds(t: Seq<u16>, m: int)
    ensures
        forall|k: int| 0 <= k < free_upto(t, m).len() ==> 2 <= #[trigger] free_upto(t, m)[k] < m
            && free_upto(t, m)[k] < t.len() && t[free_upto(t, m)[k]] == 0,
        forall|a: int, b: int| 0 <= a < b < free_upto(t, m).len() ==> free_upto(t, m)[a] < free_upto(t, m)[b],
        free_upto(t, m).len() <= if m > 0 { m } else { 0 },
    decreases m,
{
    if m > 0 {
        lemma_free_upto_bounds(t, m - 1);
    }
}

proof fn lemma_free_upto_skip(t: Seq<u16>, p: int, c: int)
    requires
        0 <= p <= c,
        forall|i: int| p <= i < c && 2 <= i < t.len() ==> t[i] != 0,
    ensures
        free_upto(t, c) == free_upto(t, p),
    decreases c - p,
{
    if c > p {
        lemma_free_upto_skip(t, p, c - 1);
    }
}

proof fn lemma_free_upto_same(t: Seq<u16>, u: Seq<u16>, m: int)
    requires
        t.len() == u.len(),
        forall|i: int| 0 <= i < m && i < t.len() ==> t[i] == u[i],
    ensures
        free_upto(t, m) == free_upto(u, m),
    decreases m,
{
    if m > 0 {
        lemma_free_upto_same(t, u, m - 1);
    }
}

/// Clusters that `k` more allocations take after the first ones, `m` onward.
proof fn lemma_free_upto_mono(t: Seq<u16>, a: int, b: int)
    requires
        0 <= a <= b,
    ensures
        free_upto(t, a).len() <= free_upto(t, b).len(),
        free_upto(t, b).subrange(0, free_upto(t, a).len() as int) == free_upto(t, a),
    decreases b - a,
{
    if b > a {
        lemma_free_upto_mono(t, a, b - 1);
        assert(free_upto(t, b).subrange(0, free_upto(t, a).len() as int) =~= free_upto(t, b - 1).subrange(0, free_upto(t, a).len() as int));
    } else {
        assert(free_upto(t, b).subrange(0, free_upto(t, a).len() as int) =~= free_upto(t, a));
    }
}

impl FatDriver {
    pub open spec fn wf(&self) -> bool {
        &&& self.entries@.len() == ENTRY_COUNT
        &&& self.table@.len() == FAT_SIZE
    }

    /// The 8.3 name of `filename`.
    pub fn string_to_fat_name(filename: &[u8]) -> (r: [u8; 11])
        ensures
            r@ == spec_fat_name(filename@),
    {
        let mut fat_name = [0x20u8; 11];
        let s = filename;
        let mut dot: usize = 0;
        while dot < s.len() && s[dot] != 0x2E
            invariant
                0 <= dot <= s@.len(),
                forall|j: int| 0 <= j < dot ==> s@[j] != 0x2E,
            decreases s@.len() - dot,
        {
            dot = dot + 1;
        }
        if dot < s.len() {
            proof {
                assert(first_dot(s@, dot as int));
                let d = choose|k: int| first_dot(s@, k);
                assert(d == dot as int) by {
                    if d < dot as int {
                        assert(s@[d] != 0x2E);
                    } else if d > dot as int {
                        assert(s@[dot as int] != 0x2E);
                    }
                }
            }
            let mut i: usize = 0;
            while i < 8
                invariant
                    0 <= i <= 8,
                    dot < s@.len(),
                    forall|k: int| 0 <= k < i ==> fat_name@[k] == (if k < dot && k < s@.len() { upper(s@[k]) } else { 0x20u8 }),
                    forall|k: int| i <= k < 11 ==> fat_name@[k] == 0x20u8,
                decreases 8 - i,
            {
                if i < dot && i < s.len() {
                    fat_name[i] = upper_byte(s[i]);
                }
                i = i + 1;
            }
            let mut j: usize = 0;
            while j < 3
                invariant
                    0 <= j <= 3,
                    dot < s@.len(),
                    forall|k: int| 0 <= k < 8 ==> fat_name@[k] == (if k < dot && k < s@.len() { upper(s@[k]) } else { 0x20u8 }),
                    forall|k: int| 8 <= k < 8 + j ==> fat_name@[k] == (if dot + 1 + (k - 8) < s@.len() { upper(s@[dot + 1 + (k - 8)]) } else { 0x20u8 }),
                    forall|k: int| 8 + j <= k < 11 ==> fat_name@[k] == 0x20u8,
                decreases 3 - j,
            {
                let rest = s.len() - dot - 1;
                if j < rest {
                    fat_name[8 + j] = upper_byte(s[dot + 1 + j]);
                }
                j = j + 1;
            }
            assert(fat_name@ =~= spec_fat_name(s@));
        } else {
            proof {
                assert(!has_dot(s@));
            }
            let mut i: usize = 0;
            while i < 11
                invariant
                    0 <= i <= 11,
                    forall|k: int| 0 <= k < i ==> fat_name@[k] == (if k < s@.len() { upper(s@[k]) } else { 0x20u8 }),
                    forall|k: int| i <= k < 11 ==> fat_name@[k] == 0x20u8,
                decreases 11 - i,
            {
                if i < s.len() {
                    fat_name[i] = upper_byte(s[i]);
                }
                i = i + 1;
            }
            assert(fat_name@ =~= spec_fat_name(s@));
        }
        fat_name
    }

    /// First directory slot that is free (name starts with 0x00) or deleted
    /// (0xE5).
    pub fn find_free_entry(&self) -> (r: Option<usize>)
        requires
            self.wf(),
        ensures
            r matches Some(i) ==> i < ENTRY_COUNT && slot_free(self.entries@[i as int])
                && forall|j: int| 0 <= j < i ==> !slot_free(#[trigger] self.entries@[j]),
            r is None ==> forall|j: int| 0 <= j < ENTRY_COUNT ==> !slot_free(#[trigger] self.entries@[j]),
    {
        let mut i: usize = 0;
        while i < self.entries.len()
            invariant
                0 <= i <= self.entries@.len(),
                self.wf(),
                forall|j: int| 0 <= j < i ==> !slot_free(#[trigger] self.entries@[j]),
            decreases self.entries@.len() - i,
        {
            let n0 = self.entries[i].name[0];
            assert(n0 == self.entries@[i as int].name@[0]);
            if n0 == 0x00 || n0 == 0xE5 {
                return Some(i);
            }
            i = i + 1;
        }
        None
    }

    /// First free cluster at or after `max(start, 2)`.
    pub fn find_free_cluster(&self, start: u16) -> (r: Option<u16>)
        requires
            self.wf(),
        ensures
            ({
                let s = if start < 2 { 2int } else { start as int };
                &&& r matches Some(c) ==> s <= c < FAT_SIZE && self.table@[c as int] == 0
                    && none_free_between(self.table@, s, c as int)
                &&& r is None ==> none_free_between(self.table@, s, FAT_SIZE as int)
            }),
    {
        let lo: u16 = if start < 2 { 2 } else { start };
        let n = self.table.len() as u16;
        let mut i = lo;
        while i < n
            invariant
                lo <= i,
                lo as int == (if start < 2 { 2int } else { start as int }),
                n == FAT_SIZE,
                self.wf(),
                none_free_between(self.table@, lo as int, i as int),
            decreases n - i,
        {
            if self.table[i as usize] == 0 {
                return Some(i);
            }
            i = i + 1;
        }
        None
    }

    /// Link the `num_clusters` lowest free clusters into a chain ending in
    /// the end marker and return its first cluster. Without enough free
    /// clusters nothing is returned and the free clusters found so far are
    /// left linked to each other (the last one still free).
    pub fn allocate_clusters(&mut self, num_clusters: usize) -> (r: Option<u16>)
        requires
            old(self).wf(),
        ensures
            final(self).wf(),
            final(self).entries@ == old(self).entries@,
            final(self).header == old(self).header,
            ({
                let f = free_clusters(old(self).table@);
                if num_clusters == 0 {
                    r is None && final(self).table@ == old(self).table@
                } else if f.len() < num_clusters {
                    r is None && final(self).table@ == linked(old(self).table@, f, false)
                } else {
                    &&& r == Some(f[0] as u16)
                    &&& final(self).table@ == linked(old(self).table@, f.subrange(0, num_clusters as int), true)
                }
            }),
    {
        let (first, _chain) = self.allocate_chain(num_clusters);
        first
    }

    /// `allocate_clusters`, also handing back the clusters of the chain.
    fn allocate_chain(&mut self, num_clusters: usize) -> (r: (Option<u16>, Vec<u16>))
        requires
            old(self).wf(),
        ensures
            final(self).wf(),
            final(self).entries@ == old(self).entries@,
            final(self).header == old(self).header,
            ({
                let f = free_clusters(old(self).table@);
                if num_clusters == 0 {
                    r.0 is None && final(self).table@ == old(self).table@
                } else if f.len() < num_clusters {
                    r.0 is None && final(self).table@ == linked(old(self).table@, f, false)
                } else {
                    &&& r.0 == Some(f[0] as u16)
                    &&& final(self).table@ == linked(old(self).table@, f.subrange(0, num_clusters as int), true)
                    &&& r.1@.len() == num_clusters
                    &&& forall|k: int| 0 <= k < num_clusters ==> #[trigger] r.1@[k] as int == f[k]
                }
            }),
    {
        let ghost t0 = self.table@;
        let ghost f = free_clusters(t0);
        proof {
            lemma_free_upto_bounds(t0, t0.len() as int);
        }
        if num_clusters == 0 {
            return (None, Vec::new());
        }
        let mut chain: Vec<u16> = Vec::new();
        let mut prev: u16 = 0;
        let mut i: usize = 0;
        proof {
            assert(free_upto(t0, 0) =~= Seq::<int>::empty());
            assert(free_upto(t0, 1) =~= Seq::<int>::empty());
            assert(f.subrange(0, 0) =~= Seq::<int>::empty());
            assert(linked(t0, Seq::<int>::empty(), false) =~= t0);
        }
        while i < num_clusters
            invariant
                self.wf(),
                self.entries@ == old(self).entries@,
                self.header == old(self).header,
                t0 == old(self).table@,
                t0.len() == FAT_SIZE,
                f == free_clusters(t0),
                forall|k: int| 0 <= k < f.len() ==> 2 <= #[trigger] f[k] < FAT_SIZE && t0[f[k]] == 0,
                forall|a: int, b: int| 0 <= a < b < f.len() ==> f[a] < f[b],
                0 <= i <= num_clusters,
                chain@.len() == i,
                i <= f.len(),
                forall|k: int| 0 <= k < i ==> #[trigger] chain@[k] as int == f[k],
                i > 0 ==> prev as int == f[i - 1],
                i == 0 ==> prev == 0,
                free_upto(t0, prev as int + 1) == f.subrange(0, i as int),
                self.table@ == linked(t0, f.subrange(0, i as int), false),
            decreases num_clusters - i,
        {
            let start: u16 = if i == 0 { 2 } else { prev + 1 };
            proof {
                let c = f.subrange(0, i as int);
                assert forall|j: int| start <= j < FAT_SIZE implies self.table@[j] == t0[j] by {
                    if exists|k: int| 0 <= k < c.len() - 1 && c[k] == j {
                        let k = choose|k: int| 0 <= k < c.len() - 1 && c[k] == j;
                        assert(c[k] < c[c.len() - 1]);
                    }
                    if c.len() > 0 && j == c.last() {
                        assert(c.last() == prev);
                    }
                }
                if i == 0 {
                    assert(free_upto(t0, 2) =~= free_upto(t0, 1));
                }
                assert(free_upto(t0, start as int) == f.subrange(0, i as int));
            }
            let cluster = match self.find_free_cluster(start) {
                Some(c) => c,
                None => {
                    proof {
                        assert forall|j: int| start <= j < FAT_SIZE && 2 <= j < t0.len() implies t0[j] != 0 by {
                            assert(self.table@[j] == t0[j]);
                        }
                        lemma_free_upto_skip(t0, start as int, FAT_SIZE as int);
                        assert(f =~= f.subrange(0, i as int));
                    }
                    return (None, chain);
                },
            };
            proof {
                assert forall|j: int| start <= j < cluster && 2 <= j < t0.len() implies t0[j] != 0 by {
                    assert(self.table@[j] == t0[j]);
                }
                lemma_free_upto_skip(t0, start as int, cluster as int);
                assert(t0[cluster as int] == self.table@[cluster as int]);
                assert(free_upto(t0, cluster as int + 1) =~= f.subrange(0, i as int).push(cluster as int));
                lemma_free_upto_mono(t0, cluster as int + 1, FAT_SIZE as int);
                assert(free_upto(t0, cluster as int + 1).len() == i + 1);
                assert(f.subrange(0, i + 1) == free_upto(t0, cluster as int + 1));
                assert(f[i as int] == f.subrange(0, i + 1)[i as int]);
                assert(f[i as int] == cluster as int);
                assert(f.subrange(0, i + 1) =~= f.subrange(0, i as int).push(cluster as int));
            }
            if prev != 0 {
                self.table.set(prev as usize, cluster);
                proof {
                    lemma_linked_push(t0, f.subrange(0, i as int), cluster as int);
                }
            } else {
                proof {
                    assert(i == 0);
                    lemma_linked_single(t0, cluster as int);
                }
            }
            chain.push(cluster);
            prev = cluster;
            i = i + 1;
        }
        proof {
            lemma_linked_eoc(t0, f.subrange(0, i as int));
        }
        self.table.set(prev as usize, FAT_EOC);
        (Some(chain[0]), chain)
    }
}

proof fn lemma_linked_single(t: Seq<u16>, x: int)
    ensures
        linked(t, seq![x], false) == t,
{
    assert(linked(t, seq![x], false) =~= t);
}

proof fn lemma_linked_push(t: Seq<u16>, c: Seq<int>, x: int)
    requires
        c.len() > 0,
        forall|a: int, b: int| 0 <= a < b < c.len() ==> c[a] < c[b],
        c.last() < x,
        forall|k: int| 0 <= k < c.len() ==> 0 <= #[trigger] c[k] < t.len(),
        x < t.len(),
        0 <= x < 0x10000,
    ensures
        linked(t, c.push(x), false) == linked(t, c, false).update(c.last(), x as u16),
{
    let d = c.push(x);
    assert forall|i: int| 0 <= i < t.len() implies #[trigger] linked(t, d, false)[i] == linked(t, c, false).update(c.last(), x as u16)[i] by {
        if exists|k: int| 0 <= k < d.len() - 1 && d[k] == i {
            let k = choose|k: int| 0 <= k < d.len() - 1 && d[k] == i;
            if k == c.len() - 1 {
                assert(i == c.last());
            } else {
                assert(c[k] == i);
                let k2 = choose|k2: int| 0 <= k2 < c.len() - 1 && c[k2] == i;
                assert(k2 == k) by {
                    if k2 < k {
                        assert(c[k2] < c[k]);
                    } else if k2 > k {
                        assert(c[k] < c[k2]);
                    }
                }
                assert(i != c.last()) by {
                    assert(c[k] < c[c.len() - 1]);
                }
            }
        } else {
            assert(i != c.last()) by {
                assert(d[c.len() - 1] == c.last());
            }
            if exists|k: int| 0 <= k < c.len() - 1 && c[k] == i {
                let k = choose|k: int| 0 <= k < c.len() - 1 && c[k] == i;
                assert(d[k] == i);
            }
        }
    }
    assert(linked(t, d, false) =~= linked(t, c, false).update(c.last(), x as u16));
}

proof fn lemma_linked_eoc(t: Seq<u16>, c: Seq<int>)
    requires
        c.len() > 0,
        forall|a: int, b: int| 0 <= a < b < c.len() ==> c[a] < c[b],
        forall|k: int| 0 <= k < c.len() ==> 0 <= #[trigger] c[k] < t.len(),
    ensures
        linked(t, c, true) == linked(t, c, false).update(c.last(), FAT_EOC),
{
    assert forall|i: int| 0 <= i < t.len() implies #[trigger] linked(t, c, true)[i] == linked(t, c, false).update(c.last(), FAT_EOC)[i] by {
        if exists|k: int| 0 <= k < c.len() - 1 && c[k] == i {
            let k = choose|k: int| 0 <= k < c.len() - 1 && c[k] == i;
            assert(c[k] < c[c.len() - 1]);
        }
    }
    assert(linked(t, c, true) =~= linked(t, c, false).update(c.last(), FAT_EOC));
}

/// The `k`-th cluster met when following links from `c` (-1 once a link
/// leaves the table).
pub open spec fn walk(t: Seq<u16>, c: int, k: nat) -> int
    decreases k,
{
    if k == 0 {
        c
    } else {
        let p = walk(t, c, (k - 1) as nat);
        if 0 <= p < t.len() { t[p] as int } else { -1 }
    }
}

/// The first `k` clusters of the walk are neither free (0) nor the end
/// marker.
pub open spec fn live(t: Seq<u16>, c: int, k: nat) -> bool {
    forall|j: nat| j < k ==> #[trigger] walk(t, c, j) != 0 && walk(t, c, j) != FAT_EOC
}

/// Cluster `i` belongs to the chain that starts at `c`.
pub open spec fn on_chain(t: Seq<u16>, c: int, i: int) -> bool {
    i != 0 && i != FAT_EOC && exists|k: nat| live(t, c, k) && #[trigger] walk(t, c, k) == i
}

/// Cluster `i` is among the first `k` clusters of the walk.
pub open spec fn visited(t: Seq<u16>, c: int, k: nat, i: int) -> bool {
    exists|j: nat| j < k && #[trigger] walk(t, c, j) == i
}

/// Clusters in use.
pub open spec fn nz(t: Seq<u16>) -> nat
    decreases t.len(),
{
    if t.len() == 0 { 0 } else { nz(t.drop_last()) + if t.last() != 0 { 1nat } else { 0nat } }
}

proof fn lemma_nz_clear(t: Seq<u16>, i: int)
    requires
        0 <= i < t.len(),
    ensures
        nz(t.update(i, 0)) + (if t[i] != 0 { 1nat } else { 0nat }) == nz(t),
    decreases t.len(),
{
    if i < t.len() - 1 {
        assert(t.update(i, 0).drop_last() =~= t.drop_last().update(i, 0));
        lemma_nz_clear(t.drop_last(), i);
    } else {
        assert(t.update(i, 0).drop_last() =~= t.drop_last());
    }
}

proof fn lemma_walk_step(t: Seq<u16>, c: int, k: nat)
    ensures
        walk(t, c, k + 1) == ({
            let p = walk(t, c, k);
            if 0 <= p < t.len() { t[p] as int } else { -1 }
        }),
{
    assert(((k + 1) as nat - 1) as nat == k);
}

proof fn lemma_walk_period(t: Seq<u16>, c: int, j: nat, k: nat, m: nat)
    requires
        j < k,
        walk(t, c, j) == walk(t, c, k),
        m >= j,
    ensures
        walk(t, c, m) == walk(t, c, (m + (k - j)) as nat),
    decreases m - j,
{
    if m > j {
        lemma_walk_period(t, c, j, k, (m - 1) as nat);
        assert(walk(t, c, m) == {
            let p = walk(t, c, (m - 1) as nat);
            if 0 <= p < t.len() { t[p] as int } else { -1 }
        });
        assert(walk(t, c, (m + (k - j)) as nat) == {
            let p = walk(t, c, (m + (k - j) - 1) as nat);
            if 0 <= p < t.len() { t[p] as int } else { -1 }
        });
    }
}

proof fn lemma_walk_reduce(t: Seq<u16>, c: int, j: nat, k: nat, m: nat)
    requires
        j < k,
        walk(t, c, j) == walk(t, c, k),
    ensures
        exists|m2: nat| m2 < k && #[trigger] walk(t, c, m2) == walk(t, c, m),
    decreases m,
{
    if m < k {
        assert(walk(t, c, m) == walk(t, c, m));
    } else {
        let p = (k - j) as nat;
        let m1 = (m - p) as nat;
        lemma_walk_period(t, c, j, k, m1);
        lemma_walk_reduce(t, c, j, k, m1);
    }
}

/// Location of a cluster: the data area follows the reserved sectors, the
/// allocation tables and the root directory.
pub open spec fn spec_cluster_lba(h: Header, cluster: u16) -> int {
    FAT_START + h.reserved_sectors + h.sectors_per_fat * h.fat_count
        + (h.dir_entries_count * 32) / (h.bytes_per_sector as int) + (cluster - 2) * h.sectors_per_cluster
}

/// First sector of the root directory, where its entries are loaded from
/// and saved to: right after the reserved sectors and the allocation tables.
pub open spec fn root_dir_first_sector(h: Header) -> int {
    FAT_START + h.reserved_sectors + h.sectors_per_fat * h.fat_count
}

/// Whole sectors taken by the root directory's entries, 32 bytes each.
pub open spec fn root_dir_sector_count(h: Header) -> int {
    (h.dir_entries_count * 32) / (h.bytes_per_sector as int)
}

/// The data area starts right after the root directory: cluster 2, the
/// first data cluster, is the first sector past it, no cluster lies on
/// the root directory, and clusters follow one another
/// `sectors_per_cluster` sectors apart, so no two of them share a sector.
pub proof fn law_data_clusters_follow_the_root_directory(h: Header, c: u16, d: u16)
    requires
        h.bytes_per_sector > 0,
        c >= 2,
        d >= 2,
    ensures
        spec_cluster_lba(h, 2) == root_dir_first_sector(h) + root_dir_sector_count(h),
        spec_cluster_lba(h, c) >= root_dir_first_sector(h) + root_dir_sector_count(h),
        spec_cluster_lba(h, c) - spec_cluster_lba(h, 2) == (c - 2) * h.sectors_per_cluster,
        c < d ==> spec_cluster_lba(h, c) + h.sectors_per_cluster <= spec_cluster_lba(h, d),
{
    assert((c - 2) * h.sectors_per_cluster >= 0) by (nonlinear_arith)
        requires
            c >= 2,
    ;
    if c < d {
        assert((c - 2) * h.sectors_per_cluster + h.sectors_per_cluster <= (d - 2) * h.sectors_per_cluster)
            by (nonlinear_arith)
            requires
                2 <= c < d,
        ;
    }
}

/// One cluster-sized piece of file data: bytes `offset..offset + len` of
/// the data go to the cluster at sector `lba`.
#[derive(Debug, Clone, Copy, PartialEq, Eq, Structural)]
pub struct ClusterWrite {
    pub lba: u64,
    pub offset: usize,
    pub len: usize,
}

/// `name` matches the directory name `n` position by position, upper-cased,
/// NUL characters matching anything.
pub open spec fn name_matches(name: Seq<char>, n: Seq<u8>) -> bool {
    forall|i: int| 0 <= i < name.len() ==> name[i] == '\0' || upper_char(#[trigger] name[i]) == n[i] as char
}

pub open spec fn upper_char(c: char) -> char {
    if 'a' <= c <= 'z' { ((c as u32) - 32) as char } else { c }
}

/// The entry a fresh write leaves in the directory.
pub open spec fn written_entry(e: Entry, name: Seq<u8>, first: u16, size: u32) -> bool {
    &&& e.name@ == name
    &&& e.attributes == 0x20
    &&& e.reserved == 0
    &&& e.created_time_tenths == 0
    &&& e.created_time == 0
    &&& e.created_date == 0x21C0
    &&& e.accessed_date == 0x21C0
    &&& e.first_cluster_high == 0
    &&& e.modified_time == 0
    &&& e.modified_date == 0x21C0
    &&& e.first_cluster_low == first
    &&& e.size == size
}

impl FatDriver {
    /// Every cluster link stays inside the table, and so does every
    /// directory entry's first cluster (or it is the end marker).
    pub open spec fn links_ok(&self) -> bool {
        &&& table_links_ok(self.table@)
        &&& forall|i: int| 0 <= i < self.entries@.len() ==> (#[trigger] self.entries@[i]).first_cluster_low < FAT_SIZE
            || self.entries@[i].first_cluster_low == FAT_EOC
    }

    /// First sector of data cluster `cluster`.
    pub fn cluster_to_lba(&self, cluster: u16) -> (r: u64)
        requires
            cluster >= 2,
            self.header.bytes_per_sector > 0,
        ensures
            r == spec_cluster_lba(self.header, cluster),
    {
        let h = &self.header;
        let root_dir_sectors = ((h.dir_entries_count as u32 * 32) / h.bytes_per_sector as u32) as u64;
        let spf = h.sectors_per_fat as u64;
        let fc = h.fat_count as u64;
        assert(spf * fc <= 0xFFFF * 0xFF) by (nonlinear_arith)
            requires
                spf <= 0xFFFF,
                fc <= 0xFF,
        ;
        let data_start_lba = FAT_START as u64 + h.reserved_sectors as u64 + spf * fc + root_dir_sectors;
        assert((cluster as u64 - 2) * h.sectors_per_cluster as u64 <= 0xFFFF * 0xFF) by (nonlinear_arith)
            requires
                cluster <= 0xFFFF,
                h.sectors_per_cluster <= 0xFF,
                cluster >= 2,
        ;
        assert(root_dir_sectors <= 0xFFFF * 32);
        data_start_lba + ((cluster as u64 - 2) * h.sectors_per_cluster as u64)
    }

    /// First directory entry whose name matches `name` (see
    /// `name_matches`), or an all-zero entry.
    pub fn search_file(&self, name: &[char]) -> (r: Entry)
        requires
            self.wf(),
            name@.len() <= 11,
        ensures
            (exists|i: int| 0 <= i < ENTRY_COUNT && name_matches(name@, (#[trigger] self.entries@[i]).name@)) ==> exists|i: int| {
                &&& 0 <= i < ENTRY_COUNT
                &&& name_matches(name@, (#[trigger] self.entries@[i]).name@)
                &&& forall|j: int| 0 <= j < i ==> !name_matches(name@, (#[trigger] self.entries@[j]).name@)
                &&& r == self.entries@[i]
            },
            (forall|i: int| 0 <= i < ENTRY_COUNT ==> !name_matches(name@, (#[trigger] self.entries@[i]).name@))
                ==> r.name@ == Seq::new(11, |i: int| 0u8) && r.size == 0 && r.first_cluster_low == 0,
    {
        let mut e: usize = 0;
        while e < self.entries.len()
            invariant
                0 <= e <= self.entries@.len(),
                self.wf(),
                name@.len() <= 11,
                forall|j: int| 0 <= j < e ==> !name_matches(name@, (#[trigger] self.entries@[j]).name@),
            decreases self.entries@.len() - e,
        {
            let entry = self.entries[e];
            let mut found = true;
            let mut i: usize = 0;
            while i < name.len()
                invariant
                    0 <= i <= name@.len(),
                    name@.len() <= 11,
                    entry == self.entries@[e as int],
                    found == forall|k: int| 0 <= k < i ==> name@[k] == '\0' || upper_char(#[trigger] name@[k]) == entry.name@[k] as char,
                decreases name@.len() - i,
            {
                let mut c = name[i];
                if 'a' <= c && c <= 'z' {
                    c = ((c as u32) - 32) as u8 as char;
                    assert(c == upper_char(name@[i as int]));
                }
                if c != entry.name[i] as char && name[i] != '\0' {
                    found = false;
                }
                i = i + 1;
            }
            if found {
                return entry;
            }
            e = e + 1;
        }
        null_entry()
    }

    /// Free every cluster of the chain that starts at `first`: the clusters
    /// met following links, until a free cluster, the end marker or a
    /// cluster already freed.
    fn free_chain(&mut self, first: u16)
        requires
            old(self).wf(),
            table_links_ok(old(self).table@),
            first >= 2,
            first < FAT_SIZE || first == FAT_EOC,
        ensures
            final(self).wf(),
            final(self).entries@ == old(self).entries@,
            final(self).header == old(self).header,
            table_links_ok(final(self).table@),
            forall|i: int| 0 <= i < FAT_SIZE ==> #[trigger] final(self).table@[i]
                == if on_chain(old(self).table@, first as int, i) { 0u16 } else { old(self).table@[i] },
    {
        let ghost t0 = self.table@;
        let ghost f = first as int;
        let ghost mut k: nat = 0;
        let mut cluster = first;
        while cluster != FAT_EOC && cluster != 0
            invariant
                self.wf(),
                self.entries@ == old(self).entries@,
                self.header == old(self).header,
                t0 == old(self).table@,
                t0.len() == FAT_SIZE,
                table_links_ok(t0),
                f == first as int,
                (cluster as int) < FAT_SIZE || cluster == FAT_EOC,
                forall|i: int| 0 <= i < FAT_SIZE ==> #[trigger] self.table@[i] == if visited(t0, f, k, i) { 0u16 } else { t0[i] },
                live(t0, f, k),
                cluster as int == walk(t0, f, k) || (cluster == 0 && forall|i: int| on_chain(t0, f, i) ==> visited(t0, f, k, i)),
            decreases nz(self.table@) + if cluster != 0 && cluster != FAT_EOC { 1nat } else { 0nat },
        {
            let c = cluster as usize;
            let next = self.table[c];
            let ghost before = self.table@;
            proof {
                lemma_nz_clear(before, c as int);
                lemma_walk_step(t0, f, k);
                assert(cluster as int == walk(t0, f, k));
                assert((t0[c as int] as int) < FAT_SIZE || t0[c as int] == FAT_EOC);
                if visited(t0, f, k, c as int) {
                    let j = choose|j: nat| j < k && #[trigger] walk(t0, f, j) == c as int;
                    assert(next == 0);
                    assert forall|i: int| on_chain(t0, f, i) implies visited(t0, f, k, i) by {
                        let m = choose|m: nat| live(t0, f, m) && #[trigger] walk(t0, f, m) == i;
                        lemma_walk_reduce(t0, f, j, k, m);
                    }
                } else {
                    assert(next == t0[c as int]);
                }
            }
            self.table.set(c, 0);
            cluster = next;
            proof {
                assert forall|j: nat| j < k + 1 implies #[trigger] walk(t0, f, j) != 0 && walk(t0, f, j) != FAT_EOC by {
                    if j < k {
                        assert(walk(t0, f, j) != 0);
                    }
                }
                assert forall|i: int| 0 <= i < FAT_SIZE implies #[trigger] self.table@[i]
                    == if visited(t0, f, k + 1, i) { 0u16 } else { t0[i] } by {
                    if i == c as int {
                        assert(walk(t0, f, k) == i);
                    } else if visited(t0, f, k + 1, i) {
                        let j = choose|j: nat| j < k + 1 && #[trigger] walk(t0, f, j) == i;
                        assert(j < k);
                    }
                }
                if visited(t0, f, k, c as int) {
                    assert forall|i: int| on_chain(t0, f, i) implies visited(t0, f, k + 1, i) by {
                        assert(visited(t0, f, k, i));
                        let j = choose|j: nat| j < k && #[trigger] walk(t0, f, j) == i;
                        assert(j < k + 1);
                    }
                }
                k = k + 1;
            }
        }
        proof {
            assert forall|i: int| 0 <= i < FAT_SIZE implies #[trigger] self.table@[i]
                == if on_chain(t0, f, i) { 0u16 } else { t0[i] } by {
                if visited(t0, f, k, i) {
                    let j = choose|j: nat| j < k && #[trigger] walk(t0, f, j) == i;
                    assert(live(t0, f, j));
                    assert(on_chain(t0, f, i));
                } else if on_chain(t0, f, i) {
                    let m = choose|m: nat| live(t0, f, m) && #[trigger] walk(t0, f, m) == i;
                    if cluster as int == walk(t0, f, k) {
                        if m > k {
                            assert(walk(t0, f, k) != 0 && walk(t0, f, k) != FAT_EOC);
                        } else if m == k {
                        } else {
                            assert(visited(t0, f, k, i));
                        }
                    }
                }
            }
            assert forall|i: int| 0 <= i < self.table@.len() implies (#[trigger] self.table@[i] as int) < FAT_SIZE
                || self.table@[i] == FAT_EOC by {
                assert((t0[i] as int) < FAT_SIZE || t0[i] == FAT_EOC);
            }
        }
    }
}

fn names_equal(a: &[u8; 11], b: &[u8; 11]) -> (r: bool)
    ensures
        r == (a@ == b@),
{
    let mut i: usize = 0;
    while i < 11
        invariant
            0 <= i <= 11,
            forall|k: int| 0 <= k < i ==> a@[k] == b@[k],
        decreases 11 - i,
    {
        if a[i] != b[i] {
            return false;
        }
        i = i + 1;
    }
    assert(a@ =~= b@);
    true
}

/// `i` is the first directory entry called `name`.
pub open spec fn first_named(es: Seq<Entry>, name: Seq<u8>, i: int) -> bool {
    &&& 0 <= i < es.len()
    &&& es[i].name@ == name
    &&& forall|j: int| 0 <= j < i ==> (#[trigger] es[j]).name@ != name
}

pub open spec fn has_named(es: Seq<Entry>, name: Seq<u8>) -> bool {
    exists|i: int| 0 <= i < es.len() && (#[trigger] es[i]).name@ == name
}

/// Number of clusters `len` bytes take.
pub open spec fn clusters_for(len: int, bpc: int) -> int {
    if len == 0 { 0 } else { (len + bpc - 1) / bpc }
}

impl FatDriver {
    fn find_named(&self, name: &[u8; 11]) -> (r: Option<usize>)
        requires
            self.wf(),
        ensures
            r matches Some(i) ==> first_named(self.entries@, name@, i as int),
            r is None ==> !has_named(self.entries@, name@),
    {
        let mut i: usize = 0;
        while i < self.entries.len()
            invariant
                0 <= i <= self.entries@.len(),
                forall|j: int| 0 <= j < i ==> (#[trigger] self.entries@[j]).name@ != name@,
            decreases self.entries@.len() - i,
        {
            if names_equal(&self.entries[i].name, name) {
                return Some(i);
            }
            i = i + 1;
        }
        None
    }

    /// Delete the file called `filename` from the root directory: its chain
    /// of clusters is freed and its entry marked deleted. False when there
    /// is no such file.
    pub fn delete_file(&mut self, filename: &[u8]) -> (r: bool)
        requires
            old(self).wf(),
            old(self).links_ok(),
        ensures
            final(self).wf(),
            final(self).links_ok(),
            r == has_named(old(self).entries@, spec_fat_name(filename@)),
            !r ==> final(self).entries@ == old(self).entries@ && final(self).table@ == old(self).table@,
            r ==> exists|i: int| {
                &&& #[trigger] first_named(old(self).entries@, spec_fat_name(filename@), i)
                &&& final(self).entries@ == old(self).entries@.update(i, Entry {
                    name: final(self).entries@[i].name,
                    size: 0,
                    first_cluster_low: 0,
                    ..old(self).entries@[i]
                })
                &&& final(self).entries@[i].name@ == old(self).entries@[i].name@.update(0, 0xE5u8)
                &&& forall|c: int| 0 <= c < FAT_SIZE ==> #[trigger] final(self).table@[c]
                    == if old(self).entries@[i].first_cluster_low >= 2
                        && on_chain(old(self).table@, old(self).entries@[i].first_cluster_low as int, c) {
                        0u16
                    } else {
                        old(self).table@[c]
                    }
            },
    {
        let fat_name = Self::string_to_fat_name(filename);
        let idx = match self.find_named(&fat_name) {
            Some(i) => i,
            None => return false,
        };
        let mut e = self.entries[idx];
        let first = e.first_cluster_low;
        if first >= 2 {
            assert(self.entries@[idx as int].first_cluster_low < FAT_SIZE || self.entries@[idx as int].first_cluster_low == FAT_EOC);
            self.free_chain(first);
        }
        let ghost old_name = e.name@;
        e.name[0] = 0xE5;
        e.size = 0;
        e.first_cluster_low = 0;
        self.entries.set(idx, e);
        proof {
            assert(e.name@ =~= old_name.update(0, 0xE5u8));
            assert forall|i: int| 0 <= i < self.entries@.len() implies (#[trigger] self.entries@[i]).first_cluster_low < FAT_SIZE
                || self.entries@[i].first_cluster_low == FAT_EOC by {
                if i != idx as int {
                    assert(self.entries@[i] == old(self).entries@[i]);
                }
            }
        }
        true
    }

    /// Create or overwrite `filename` with `data`: the first entry with that
    /// name, else the first free slot, gets a fresh chain of the lowest free
    /// clusters. Returns whether it succeeded and the cluster writes that
    /// put the data on disk.
    pub fn write_file(&mut self, filename: &[u8], data: &[u8]) -> (r: (bool, Vec<ClusterWrite>))
        requires
            old(self).wf(),
            data@.len() > 0 ==> old(self).header.sectors_per_cluster > 0 && old(self).header.bytes_per_sector > 0,
            data@.len() + old(self).header.sectors_per_cluster * old(self).header.bytes_per_sector <= usize::MAX,
        ensures
            final(self).wf(),
            ({
                let name = spec_fat_name(filename@);
                let es = old(self).entries@;
                let h = old(self).header;
                let bpc = h.sectors_per_cluster * h.bytes_per_sector;
                let n = clusters_for(data@.len() as int, bpc);
                let f = free_clusters(old(self).table@);
                if !has_named(es, name) && forall|j: int| 0 <= j < ENTRY_COUNT ==> !slot_free(#[trigger] es[j]) {
                    &&& !r.0
                    &&& final(self).entries@ == es
                    &&& final(self).table@ == old(self).table@
                } else if n > 0 && f.len() < n {
                    &&& !r.0
                    &&& final(self).entries@ == es
                    &&& final(self).table@ == linked(old(self).table@, f, false)
                } else {
                    let first: u16 = if n > 0 { f[0] as u16 } else { 0 };
                    &&& r.0
                    &&& final(self).table@ == (if n > 0 { linked(old(self).table@, f.subrange(0, n), true) } else { old(self).table@ })
                    &&& exists|i: int| {
                        &&& #[trigger] final(self).entries@[i] == final(self).entries@[i]
                        &&& (if has_named(es, name) { first_named(es, name, i) } else {
                            0 <= i < ENTRY_COUNT && slot_free(es[i]) && forall|j: int| 0 <= j < i ==> !slot_free(#[trigger] es[j])
                        })
                        &&& final(self).entries@ == es.update(i, final(self).entries@[i])
                        &&& written_entry(final(self).entries@[i], name, first, data@.len() as u32)
                    }
                    &&& r.1@.len() == n
                    &&& forall|k: int| 0 <= k < n ==> {
                        &&& (#[trigger] r.1@[k]).lba == spec_cluster_lba(h, f[k] as u16)
                        &&& r.1@[k].offset == k * bpc
                        &&& r.1@[k].len == (if data@.len() - k * bpc < bpc { data@.len() - k * bpc } else { bpc as int })
                    }
                }
            }),
    {
        let fat_name = Self::string_to_fat_name(filename);
        let idx = match self.find_named(&fat_name) {
            Some(i) => i,
            None => match self.find_free_entry() {
                Some(i) => i,
                None => return (false, Vec::new()),
            },
        };
        let spc = self.header.sectors_per_cluster as usize;
        let bps = self.header.bytes_per_sector as usize;
        assert(spc * bps <= 0xFF * 0xFFFF) by (nonlinear_arith)
            requires
                spc <= 0xFF,
                bps <= 0xFFFF,
        ;
        let bpc: usize = spc * bps;
        let len = data.len();
        proof {
            if len > 0 {
                assert(bpc > 0) by (nonlinear_arith)
                    requires
                        spc > 0,
                        bps > 0,
                        bpc == spc * bps,
                ;
            }
        }
        let num_clusters: usize = if len == 0 { 0 } else { (len + bpc - 1) / bpc };
        let ghost t0 = self.table@;
        let ghost f = free_clusters(t0);
        let mut first: u16 = 0;
        let mut writes: Vec<ClusterWrite> = Vec::new();
        if num_clusters > 0 {
            let (got, chain) = self.allocate_chain(num_clusters);
            match got {
                Some(c) => {
                    first = c;
                },
                None => return (false, Vec::new()),
            }
            proof {
                lemma_free_upto_bounds(t0, t0.len() as int);
            }
            let mut k: usize = 0;
            while k < num_clusters
                invariant
                    0 <= k <= num_clusters,
                    num_clusters == clusters_for(len as int, bpc as int),
                    num_clusters > 0,
                    bpc > 0,
                    len == data@.len(),
                    len + bpc <= usize::MAX,
                    bpc == self.header.sectors_per_cluster * self.header.bytes_per_sector,
                    self.header.bytes_per_sector > 0,
                    self.header == old(self).header,
                    chain@.len() == num_clusters,
                    num_clusters <= f.len(),
                    forall|j: int| 0 <= j < num_clusters ==> #[trigger] chain@[j] as int == f[j],
                    forall|j: int| 0 <= j < f.len() ==> 2 <= #[trigger] f[j] < FAT_SIZE,
                    writes@.len() == k,
                    forall|j: int| 0 <= j < k ==> {
                        &&& (#[trigger] writes@[j]).lba == spec_cluster_lba(old(self).header, f[j] as u16)
                        &&& writes@[j].offset == j * bpc
                        &&& writes@[j].len == (if len - j * bpc < bpc { len - j * bpc } else { bpc as int })
                    },
                decreases num_clusters - k,
            {
                let c = chain[k];
                assert(c >= 2);
                let lba = self.cluster_to_lba(c);
                proof {
                    assert(k * bpc < len) by (nonlinear_arith)
                        requires
                            k < num_clusters,
                            num_clusters == (len + bpc - 1) / (bpc as int),
                            bpc > 0,
                            len > 0,
                    ;
                }
                let offset = k * bpc;
                let rest = len - offset;
                let n = if rest < bpc { rest } else { bpc };
                writes.push(ClusterWrite { lba, offset, len: n });
                k = k + 1;
            }
        }
        let e = Entry {
            name: fat_name,
            attributes: 0x20,
            reserved: 0,
            created_time_tenths: 0,
            created_time: 0,
            created_date: 0x21C0,
            accessed_date: 0x21C0,
            first_cluster_high: 0,
            modified_time: 0,
            modified_date: 0x21C0,
            first_cluster_low: first,
            size: len as u32,
        };
        let ghost es = old(self).entries@;
        let ghost name = spec_fat_name(filename@);
        self.entries.set(idx, e);
        proof {
            assert(self.entries@ =~= es.update(idx as int, self.entries@[idx as int]));
            assert(written_entry(self.entries@[idx as int], name, first, data@.len() as u32));
            if has_named(es, name) {
                assert(first_named(es, name, idx as int));
            }
            if num_clusters > 0 {
                assert(first as int == f[0]);
            }
        }
        (true, writes)
    }
}

/// A directory slot that is unused or deleted.
pub open spec fn slot_free(e: Entry) -> bool {
    e.name@[0] == 0x00 || e.name@[0] == 0xE5
}

} // verus!

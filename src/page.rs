use vstd::prelude::*;

verus! {

/// Entries in one translation table.
pub const ENTRIES: usize = 512;

/// Most tables one address space may hold, root included.
pub const MAX_TABLES: usize = 0x10_0000;

/// Bits of a page-table entry.
#[derive(Clone, Copy, Debug, PartialEq, Eq, Structural)]
pub enum EntryBits {
    Empty,
    Valid,
    Read,
    Write,
    Execute,
    User,
    Global,
    Access,
    Dirty,
    ReadWrite,
    ReadExecute,
    ReadWriteExecute,
    UserRead,
    UserReadWrite,
    UserReadExecute,
    UserReadWriteExecute,
}

impl EntryBits {
    pub open spec fn spec_val(self) -> u64 {
        match self {
            EntryBits::Empty => 0,
            EntryBits::Valid => 1,
            EntryBits::Read => 2,
            EntryBits::Write => 4,
            EntryBits::Execute => 8,
            EntryBits::User => 16,
            EntryBits::Global => 32,
            EntryBits::Access => 64,
            EntryBits::Dirty => 128,
            EntryBits::ReadWrite => 6,
            EntryBits::ReadExecute => 10,
            EntryBits::ReadWriteExecute => 14,
            EntryBits::UserRead => 18,
            EntryBits::UserReadWrite => 22,
            EntryBits::UserReadExecute => 26,
            EntryBits::UserReadWriteExecute => 30,
        }
    }

    /// The bits as they stand in an entry.
    pub fn val(self) -> (r: u64)
        ensures
            r == self.spec_val(),
    {
        match self {
            EntryBits::Empty => 0,
            EntryBits::Valid => 1,
            EntryBits::Read => 2,
            EntryBits::Write => 4,
            EntryBits::Execute => 8,
            EntryBits::User => 16,
            EntryBits::Global => 32,
            EntryBits::Access => 64,
            EntryBits::Dirty => 128,
            EntryBits::ReadWrite => 6,
            EntryBits::ReadExecute => 10,
            EntryBits::ReadWriteExecute => 14,
            EntryBits::UserRead => 18,
            EntryBits::UserReadWrite => 22,
            EntryBits::UserReadExecute => 26,
            EntryBits::UserReadWriteExecute => 30,
        }
    }
}

pub open spec fn entry_valid(e: u64) -> bool {
    e & 1 != 0
}

/// A valid entry with any of read, write or execute set maps memory;
/// one with none of them points to the next-level table.
pub open spec fn entry_leaf(e: u64) -> bool {
    e & 0xe != 0
}

/// The table that a pointer entry designates.
pub open spec fn entry_child(e: u64) -> int {
    (e >> 10u64) as int
}

/// The nine-bit index that virtual address `v` selects at `level`.
pub open spec fn vpn(v: u64, level: int) -> int {
    if level == 0 {
        ((v >> 12u64) & 0x1ff) as int
    } else if level == 1 {
        ((v >> 21u64) & 0x1ff) as int
    } else {
        ((v >> 30u64) & 0x1ff) as int
    }
}

/// The page-offset bits of an address translated by a leaf at `level`.
pub open spec fn offset_mask(level: int) -> u64 {
    if level == 0 {
        0xfff
    } else if level == 1 {
        0x1f_ffff
    } else {
        0x3fff_ffff
    }
}

/// The physical address that leaf `e` at `level` gives for `v`.
pub open spec fn leaf_addr(e: u64, v: u64, level: int) -> u64 {
    ((e << 2u64) & !offset_mask(level)) | (v & offset_mask(level))
}

/// The leaf entry that maps to physical address `p` with permission `bits`.
pub open spec fn leaf_entry(p: u64, bits: u64) -> u64 {
    (((p >> 12u64) & 0xfff_ffff_ffff) << 10u64) | bits | 0xc1
}

/// The entry that points to table `c`.
pub open spec fn pointer_entry(c: int) -> u64 {
    ((c as u64) << 10u64) | 1
}

/// Translation of `v` by the walk that starts in table `t` at `level`.
pub open spec fn walk(s: Seq<u64>, t: int, v: u64, level: int) -> Option<u64>
    decreases level,
{
    let e = s[t * 512 + vpn(v, level)];
    if !entry_valid(e) {
        None
    } else if entry_leaf(e) {
        Some(leaf_addr(e, v, level))
    } else if level <= 0 {
        None
    } else {
        walk(s, entry_child(e), v, level - 1)
    }
}

/// The level of the leaf that the walk for `v` from table `t` at `level`
/// ends on; -1 when it ends on no leaf.
pub open spec fn leaf_level(s: Seq<u64>, t: int, v: u64, level: int) -> int
    decreases level,
{
    let e = s[t * 512 + vpn(v, level)];
    if !entry_valid(e) {
        -1
    } else if entry_leaf(e) {
        level
    } else if level <= 0 {
        -1
    } else {
        leaf_level(s, entry_child(e), v, level - 1)
    }
}

/// A valid leaf lies on the walk for `v` above level `target`.
pub open spec fn path_blocked(s: Seq<u64>, t: int, v: u64, cur: int, target: int) -> bool
    decreases cur - target,
{
    let e = s[t * 512 + vpn(v, cur)];
    if cur <= target {
        false
    } else if !entry_valid(e) {
        false
    } else if entry_leaf(e) {
        true
    } else {
        path_blocked(s, entry_child(e), v, cur - 1, target)
    }
}

/// Tables that mapping `v` at level `target` has to create.
pub open spec fn tables_needed(s: Seq<u64>, t: int, v: u64, cur: int, target: int) -> int
    decreases cur - target,
{
    let e = s[t * 512 + vpn(v, cur)];
    if cur <= target {
        0
    } else if !entry_valid(e) {
        cur - target
    } else if entry_leaf(e) {
        0
    } else {
        tables_needed(s, entry_child(e), v, cur - 1, target)
    }
}

/// Why a mapping could not be installed.
#[derive(Clone, Copy, Debug, PartialEq, Eq, Structural)]
pub enum MapError {
    /// A larger page already maps the region.
    LeafInPath,
    /// The address space holds as many tables as it may.
    OutOfMemory,
}

/// A three-level translation tree. Its tables are stored one after the other,
/// root first; a pointer entry holds the number of the table it designates,
/// always one stored after its own.
pub struct PageTable {
    entries: Vec<u64>,
    /// For each table, the indices that lead to it from the root.
    prefixes: Ghost<Seq<Seq<int>>>,
}

impl PageTable {
    pub closed spec fn view(&self) -> Seq<u64> {
        self.entries@
    }

    pub open spec fn num_tables(&self) -> int {
        self.view().len() as int / 512
    }

    pub closed spec fn wf(&self) -> bool {
        tables_wf(self.entries@) && prefixes_wf(self.entries@, self.prefixes@)
    }

    /// Translation of virtual address `v`.
    pub open spec fn translate(&self, v: u64) -> Option<u64> {
        walk(self.view(), 0, v, 2)
    }

    /// A tree made of an empty root table.
    pub fn new() -> (r: PageTable)
        ensures
            r.wf(),
            r.num_tables() == 1,
            forall|v: u64| r.translate(v).is_none(),
    {
        let mut entries: Vec<u64> = Vec::new();
        let mut k: usize = 0;
        while k < ENTRIES
            invariant
                k <= ENTRIES,
                entries@.len() == k,
                forall|j: int| 0 <= j < k ==> entries@[j] == 0,
            decreases ENTRIES - k,
        {
            entries.push(0);
            k = k + 1;
        }
        assert(0u64 & 1 == 0) by (bit_vector);
        let ghost m = seq![Seq::<int>::empty()];
        let r = PageTable { entries, prefixes: Ghost(m) };
        assert forall|v: u64| r.translate(v).is_none() by {
            assert(0 <= vpn(v, 2) < 512) by {
                assert((v >> 30u64) & 0x1ff < 512) by (bit_vector);
            }
        }
        r
    }
}

pub open spec fn is_pointer(e: u64) -> bool {
    entry_valid(e) && !entry_leaf(e)
}

/// The indices that lead from the root to the table that translates `v` at
/// `level`.
pub open spec fn prefix_of(v: u64, level: int) -> Seq<int> {
    if level >= 2 {
        Seq::empty()
    } else if level == 1 {
        seq![vpn(v, 2)]
    } else {
        seq![vpn(v, 2), vpn(v, 1)]
    }
}

/// Each table records the path of indices from the root to it: the root's
/// is empty, and a pointer entry at index `k` of a table above the lowest
/// level leads to a table whose path is its own followed by `k`.
pub open spec fn prefixes_wf(s: Seq<u64>, m: Seq<Seq<int>>) -> bool {
    &&& m.len() == s.len() / 512
    &&& m[0] == Seq::<int>::empty()
    &&& forall|t: int| 0 <= t < m.len() ==> (#[trigger] m[t]).len() <= 2
    &&& forall|t: int, k: int|
        0 <= t && 0 <= k < 512 && t * 512 + k < s.len() && is_pointer(#[trigger] s[t * 512 + k]) ==> m[t].len() <= 1
            && m[entry_child(s[t * 512 + k])] == m[t].push(k)
}

/// Tables that fill whole blocks of 512 entries, at most `MAX_TABLES` of
/// them, whose pointer entries each designate a later table.
pub open spec fn tables_wf(s: Seq<u64>) -> bool {
    &&& s.len() % 512 == 0
    &&& 512 <= s.len() <= 512 * MAX_TABLES
    &&& forall|t: int, k: int|
        0 <= t && 0 <= k < 512 && t * 512 + k < s.len() && entry_valid(#[trigger] s[t * 512 + k])
            && !entry_leaf(s[t * 512 + k]) ==> t < entry_child(s[t * 512 + k]) && entry_child(
            s[t * 512 + k],
        ) < s.len() / 512
}

proof fn lemma_pointer_entry(c: u64)
    requires
        c < 0x100_0000_0000,
    ensures
        entry_valid(pointer_entry(c as int)),
        !entry_leaf(pointer_entry(c as int)),
        entry_child(pointer_entry(c as int)) == c,
{
    assert(((c << 10u64) | 1) & 1 != 0) by (bit_vector);
    assert(((c << 10u64) | 1) & 0xe == 0) by (bit_vector);
    assert(((c << 10u64) | 1) >> 10u64 == c) by (bit_vector)
        requires c < 0x100_0000_0000;
}

proof fn lemma_leaf_entry(p: u64, bits: u64)
    requires
        bits & 0xe != 0,
    ensures
        entry_valid(leaf_entry(p, bits)),
        entry_leaf(leaf_entry(p, bits)),
{
    assert(((((p >> 12u64) & 0xfff_ffff_ffff) << 10u64) | bits | 0xc1) & 1 != 0) by (bit_vector);
    assert(((((p >> 12u64) & 0xfff_ffff_ffff) << 10u64) | bits | 0xc1) & 0xe != 0) by (bit_vector)
        requires bits & 0xe != 0;
}

/// A leaf installed for a physical address aligned to its level gives back
/// that address with the page-offset bits of the virtual address.
pub proof fn lemma_leaf_addr(p: u64, bits: u64, v: u64, level: int)
    requires
        0 <= level <= 2,
        p & offset_mask(level) == 0,
        p < 0x100_0000_0000_0000,
        bits <= 0x3ff,
    ensures
        leaf_addr(leaf_entry(p, bits), v, level) == p | (v & offset_mask(level)),
{
    let m = offset_mask(level);
    assert(m == 0xfff || m == 0x1f_ffff || m == 0x3fff_ffff);
    assert((((((p >> 12u64) & 0xfff_ffff_ffff) << 10u64) | bits | 0xc1) << 2u64) & !m == p) by (bit_vector)
        requires
            p & m == 0,
            p < 0x100_0000_0000_0000,
            bits <= 0x3ff,
            m == 0xfff || m == 0x1f_ffff || m == 0x3fff_ffff;
}

proof fn lemma_pos_inj(a: int, b: int, t: int, k: int)
    requires
        a * 512 + b == t * 512 + k,
        0 <= b < 512,
        0 <= k < 512,
        0 <= a,
        0 <= t,
    ensures
        a == t,
        b == k,
{
    assert(a == t && b == k) by (nonlinear_arith)
        requires
            a * 512 + b == t * 512 + k,
            0 <= b < 512,
            0 <= k < 512,
            0 <= a,
            0 <= t,
    ;
}

/// `w` and `v` select the same index at every level from `cur` down to
/// `target`.
pub open spec fn same_path(w: u64, v: u64, cur: int, target: int) -> bool {
    forall|l: int| target <= l <= cur ==> #[trigger] vpn(w, l) == vpn(v, l)
}

/// The walk for `w` reads the entry that maps `v` at `level`.
pub open spec fn hits(w: u64, v: u64, level: int) -> bool {
    prefix_of(w, level) == prefix_of(v, level) && vpn(w, level) == vpn(v, level)
}

proof fn lemma_prefix_len(v: u64, l: int)
    requires
        0 <= l <= 2,
    ensures
        prefix_of(v, l).len() == 2 - l,
{
}

proof fn lemma_prefix_step(v: u64, l: int)
    requires
        1 <= l <= 2,
    ensures
        prefix_of(v, l - 1) == prefix_of(v, l).push(vpn(v, l)),
{
    assert(prefix_of(v, l - 1) =~= prefix_of(v, l).push(vpn(v, l)));
}

proof fn lemma_hits_same_path(w: u64, v: u64, level: int)
    requires
        0 <= level <= 2,
    ensures
        hits(w, v, level) <==> same_path(w, v, 2, level),
{
    if hits(w, v, level) {
        assert forall|l: int| level <= l <= 2 implies #[trigger] vpn(w, l) == vpn(v, l) by {
            if l == 2 && level < 2 {
                assert(prefix_of(w, level)[0] == prefix_of(v, level)[0]);
            }
            if l == 1 && level < 1 {
                assert(prefix_of(w, level)[1] == prefix_of(v, level)[1]);
            }
        }
    }
    if same_path(w, v, 2, level) {
        assert(vpn(w, 2) == vpn(v, 2));
        assert(vpn(w, level) == vpn(v, level));
        if level == 0 {
            assert(vpn(w, 1) == vpn(v, 1));
        }
        assert(prefix_of(w, level) =~= prefix_of(v, level));
    }
}

proof fn lemma_push_frame(s: Seq<u64>, s1: Seq<u64>, t: int, w: u64, l: int)
    requires
        tables_wf(s),
        s1.len() >= s.len(),
        forall|j: int| 0 <= j < s.len() ==> s1[j] == s[j],
        0 <= t < s.len() / 512,
        0 <= l <= 2,
    ensures
        walk(s1, t, w, l) == walk(s, t, w, l),
    decreases l,
{
    let k = vpn(w, l);
    lemma_vpn_bound(w, l);
    lemma_pos_in_range(s, t, k);
    let e = s[t * 512 + k];
    assert(s1[t * 512 + k] == e);
    if is_pointer(e) && l > 0 {
        lemma_push_frame(s, s1, entry_child(e), w, l - 1);
    }
}

proof fn lemma_pos_in_range(s: Seq<u64>, t: int, k: int)
    requires
        s.len() % 512 == 0,
        0 <= t < s.len() / 512,
        0 <= k < 512,
    ensures
        t * 512 + k < s.len(),
{
    assert(t * 512 + k < s.len()) by (nonlinear_arith)
        requires
            t < s.len() as int / 512,
            0 <= k < 512,
            s.len() % 512 == 0,
    ;
}

proof fn lemma_fresh_pointer_frame(s: Seq<u64>, pt: int, pk: int, c: int, t: int, w: u64, l: int)
    requires
        tables_wf(s),
        0 <= pt < s.len() / 512,
        0 <= pk < 512,
        !entry_valid(s[pt * 512 + pk]),
        0 <= c < s.len() / 512,
        c != pt,
        c < 0x100_0000_0000,
        forall|j: int| c * 512 <= j < c * 512 + 512 ==> s[j] == 0,
        0 <= t < s.len() / 512,
        0 <= l <= 2,
    ensures
        walk(s.update(pt * 512 + pk, pointer_entry(c)), t, w, l) == walk(s, t, w, l),
    decreases l,
{
    let s2 = s.update(pt * 512 + pk, pointer_entry(c));
    let k = vpn(w, l);
    lemma_vpn_bound(w, l);
    lemma_pos_in_range(s, t, k);
    lemma_pos_in_range(s, pt, pk);
    if t * 512 + k == pt * 512 + pk {
        lemma_pointer_entry(c as u64);
        assert(walk(s, t, w, l) is None);
        assert(s2[t * 512 + k] == pointer_entry(c));
        if l > 0 {
            let k1 = vpn(w, l - 1);
            lemma_vpn_bound(w, l - 1);
            lemma_pos_in_range(s, c, k1);
            if c * 512 + k1 == pt * 512 + pk {
                lemma_pos_inj(c, k1, pt, pk);
            }
            assert(s[c * 512 + k1] == 0);
            assert(s2[c * 512 + k1] == 0);
            assert(0u64 & 1 == 0) by (bit_vector);
            assert(walk(s2, c, w, l - 1) is None);
            assert(walk(s2, t, w, l) == walk(s2, c, w, l - 1));
        }
    } else {
        let e = s[t * 512 + k];
        if is_pointer(e) && l > 0 {
            lemma_fresh_pointer_frame(s, pt, pk, c, entry_child(e), w, l - 1);
        }
    }
}

proof fn lemma_leaf_update_frame(
    s: Seq<u64>,
    m: Seq<Seq<int>>,
    x: int,
    v: u64,
    e: u64,
    level: int,
    t: int,
    w: u64,
    l: int,
)
    requires
        tables_wf(s),
        prefixes_wf(s, m),
        0 <= x < s.len() / 512,
        0 <= level <= 2,
        m[x] == prefix_of(v, level),
        0 <= t < s.len() / 512,
        0 <= l <= 2,
        m[t] == prefix_of(w, l),
        !(l >= level && hits(w, v, level)),
    ensures
        walk(s.update(x * 512 + vpn(v, level), e), t, w, l) == walk(s, t, w, l),
    decreases l,
{
    let s2 = s.update(x * 512 + vpn(v, level), e);
    let k = vpn(w, l);
    lemma_vpn_bound(w, l);
    lemma_vpn_bound(v, level);
    lemma_pos_in_range(s, t, k);
    lemma_pos_in_range(s, x, vpn(v, level));
    lemma_prefix_len(w, l);
    lemma_prefix_len(v, level);
    if t * 512 + k == x * 512 + vpn(v, level) {
        lemma_pos_inj(t, k, x, vpn(v, level));
        assert(false);
    }
    let e0 = s[t * 512 + k];
    assert(s2[t * 512 + k] == e0);
    if is_pointer(e0) && l > 0 {
        lemma_prefix_step(w, l);
        lemma_leaf_update_frame(s, m, x, v, e, level, entry_child(e0), w, l - 1);
    }
}

proof fn lemma_vpn_bound(v: u64, level: int)
    ensures
        0 <= vpn(v, level) < 512,
{
    assert((v >> 12u64) & 0x1ff < 512) by (bit_vector);
    assert((v >> 21u64) & 0x1ff < 512) by (bit_vector);
    assert((v >> 30u64) & 0x1ff < 512) by (bit_vector);
}

fn vpn_of(v: u64, level: usize) -> (r: usize)
    requires
        level <= 2,
    ensures
        r == vpn(v, level as int),
        r < 512,
{
    proof {
        lemma_vpn_bound(v, level as int);
    }
    if level == 0 {
        ((v >> 12u64) & 0x1ff) as usize
    } else if level == 1 {
        ((v >> 21u64) & 0x1ff) as usize
    } else {
        ((v >> 30u64) & 0x1ff) as usize
    }
}

fn offset_mask_of(level: usize) -> (r: u64)
    requires
        level <= 2,
    ensures
        r == offset_mask(level as int),
{
    if level == 0 {
        0xfff
    } else if level == 1 {
        0x1f_ffff
    } else {
        0x3fff_ffff
    }
}

impl PageTable {
    proof fn lemma_entry(&self, t: int, k: int)
        requires
            self.wf(),
            0 <= t < self.num_tables(),
            0 <= k < 512,
        ensures
            t * 512 + k < self@.len(),
            entry_valid(self@[t * 512 + k]) && !entry_leaf(self@[t * 512 + k]) ==> t < entry_child(
                self@[t * 512 + k],
            ) < self.num_tables(),
    {
        assert(t * 512 + k < self@.len()) by (nonlinear_arith)
            requires
                t < self@.len() as int / 512,
                0 <= k < 512,
                self@.len() % 512 == 0,
        ;
        assert(self.entries@[t * 512 + k] == self@[t * 512 + k]);
    }

    fn walk_from(&self, t: usize, v: u64, level: usize) -> (r: Option<u64>)
        requires
            self.wf(),
            t < self.num_tables(),
            level <= 2,
        ensures
            r == walk(self@, t as int, v, level as int),
        decreases level,
    {
        let k = vpn_of(v, level);
        proof {
            self.lemma_entry(t as int, k as int);
        }
        let e = self.entries[t * 512 + k];
        if e & 1 == 0 {
            None
        } else if e & 0xe != 0 {
            let m = offset_mask_of(level);
            Some(((e << 2u64) & !m) | (v & m))
        } else if level == 0 {
            None
        } else {
            self.walk_from((e >> 10u64) as usize, v, level - 1)
        }
    }

    fn push_table(&mut self, Ghost(path): Ghost<Seq<int>>) -> (c: usize)
        requires
            old(self).wf(),
            old(self).num_tables() < MAX_TABLES,
            path.len() <= 2,
        ensures
            final(self).wf(),
            final(self).prefixes@ == old(self).prefixes@.push(path),
            c == old(self).num_tables(),
            final(self).num_tables() == c + 1,
            final(self)@.len() == old(self)@.len() + 512,
            forall|j: int| 0 <= j < old(self)@.len() ==> final(self)@[j] == old(self)@[j],
            forall|j: int| old(self)@.len() <= j < final(self)@.len() ==> final(self)@[j] == 0,
    {
        let c = self.entries.len() / 512;
        let mut k: usize = 0;
        while k < ENTRIES
            invariant
                k <= ENTRIES,
                self.entries@.len() == old(self)@.len() + k,
                forall|j: int| 0 <= j < old(self)@.len() ==> self.entries@[j] == old(self)@[j],
                forall|j: int| old(self)@.len() <= j < self.entries@.len() ==> self.entries@[j] == 0,
                old(self)@.len() + 512 <= 512 * MAX_TABLES,
                self.prefixes == old(self).prefixes,
            decreases ENTRIES - k,
        {
            self.entries.push(0);
            k = k + 1;
        }
        assert(0u64 & 1 == 0) by (bit_vector);
        self.prefixes = Ghost(self.prefixes@.push(path));
        let ghost s = self.entries@;
        let ghost o = old(self)@;
        let ghost m = self.prefixes@;
        assert(s.len() / 512 == o.len() / 512 + 1);
        assert forall|t: int, k: int|
            0 <= t && 0 <= k < 512 && t * 512 + k < s.len() && is_pointer(#[trigger] s[t * 512 + k]) implies m[t].len() <= 1
                && m[entry_child(s[t * 512 + k])] == m[t].push(k) by {
            assert(t * 512 + k < o.len());
            assert(s[t * 512 + k] == o[t * 512 + k]);
            assert(t < o.len() / 512);
        }
        assert forall|t: int, k: int|
            0 <= t && 0 <= k < 512 && t * 512 + k < s.len() && entry_valid(#[trigger] s[t * 512 + k])
                && !entry_leaf(s[t * 512 + k]) implies t < entry_child(s[t * 512 + k])
            && entry_child(s[t * 512 + k]) < s.len() / 512 by {
            assert(t * 512 + k < o.len());
            assert(s[t * 512 + k] == o[t * 512 + k]);
        }
        c
    }

    fn set_entry(&mut self, t: usize, k: usize, e: u64)
        requires
            old(self).wf(),
            t < old(self).num_tables(),
            k < 512,
            entry_valid(e) && !entry_leaf(e) ==> t < entry_child(e) < old(self).num_tables(),
            is_pointer(e) ==> old(self).prefixes@[t as int].len() <= 1 && old(self).prefixes@[entry_child(e)]
                == old(self).prefixes@[t as int].push(k as int),
        ensures
            final(self).wf(),
            final(self).prefixes@ == old(self).prefixes@,
            final(self)@ == old(self)@.update(t * 512 + k, e),
    {
        proof {
            self.lemma_entry(t as int, k as int);
        }
        self.entries.set(t * 512 + k, e);
        let ghost s = self.entries@;
        let ghost o = old(self)@;
        assert forall|a: int, b: int|
            0 <= a && 0 <= b < 512 && a * 512 + b < s.len() && entry_valid(#[trigger] s[a * 512 + b])
                && !entry_leaf(s[a * 512 + b]) implies a < entry_child(s[a * 512 + b])
            && entry_child(s[a * 512 + b]) < s.len() / 512 by {
            if a * 512 + b == t * 512 + k {
                lemma_pos_inj(a, b, t as int, k as int);
            }
        }
        let ghost m = self.prefixes@;
        assert forall|a: int, b: int|
            0 <= a && 0 <= b < 512 && a * 512 + b < s.len() && is_pointer(#[trigger] s[a * 512 + b]) implies m[a].len() <= 1
                && m[entry_child(s[a * 512 + b])] == m[a].push(b) by {
            if a * 512 + b == t * 512 + k {
                lemma_pos_inj(a, b, t as int, k as int);
            }
        }
    }

    fn map_from(&mut self, t: usize, v: u64, p: u64, bits: u64, cur: usize, target: usize) -> (r: Result<(), MapError>)
        requires
            old(self).wf(),
            t < old(self).num_tables(),
            target <= cur <= 2,
            bits & 0xe != 0,
            old(self).prefixes@[t as int] == prefix_of(v, cur as int),
        ensures
            final(self).wf(),
            r is Ok <==> !path_blocked(old(self)@, t as int, v, cur as int, target as int)
                && old(self).num_tables() + tables_needed(old(self)@, t as int, v, cur as int, target as int) <= MAX_TABLES,
            r == Err::<(), MapError>(MapError::LeafInPath) <==> path_blocked(old(self)@, t as int, v, cur as int, target as int),
            r is Ok ==> forall|w: u64| same_path(w, v, cur as int, target as int) ==> walk(final(self)@, t as int, w, cur as int)
                == Some(leaf_addr(leaf_entry(p, bits), w, target as int)),
            forall|tt: int, w: u64, l: int|
                0 <= tt < old(self).num_tables() && 0 <= l <= 2 && old(self).prefixes@[tt] == prefix_of(w, l) && !(r is Ok
                    && l >= target && hits(w, v, target as int)) ==> #[trigger] walk(final(self)@, tt, w, l) == walk(
                    old(self)@,
                    tt,
                    w,
                    l,
                ),
            final(self)@.len() >= old(self)@.len(),
            forall|j: int| 0 <= j < t * 512 ==> final(self)@[j] == old(self)@[j],
            forall|tt: int| 0 <= tt < old(self).num_tables() ==> final(self).prefixes@[tt] == old(self).prefixes@[tt],
        decreases cur,
    {
        let k = vpn_of(v, cur);
        proof {
            self.lemma_entry(t as int, k as int);
            lemma_leaf_entry(p, bits);
            lemma_prefix_len(v, cur as int);
        }
        let e = self.entries[t * 512 + k];
        if cur == target {
            let leaf = (((p >> 12u64) & 0xfff_ffff_ffff) << 10u64) | bits | 0xc1;
            self.set_entry(t, k, leaf);
            proof {
                let o = old(self);
                assert forall|tt: int, w: u64, l: int|
                    0 <= tt < o.num_tables() && 0 <= l <= 2 && o.prefixes@[tt] == prefix_of(w, l) && !(l >= target
                        && hits(w, v, target as int)) implies #[trigger] walk(self@, tt, w, l) == walk(o@, tt, w, l) by {
                    lemma_leaf_update_frame(o@, o.prefixes@, t as int, v, leaf, target as int, tt, w, l);
                }
                assert forall|w: u64| same_path(w, v, cur as int, target as int) implies walk(self@, t as int, w, cur as int)
                    == Some(leaf_addr(leaf_entry(p, bits), w, target as int)) by {
                    assert(vpn(w, cur as int) == vpn(v, cur as int));
                }
            }
            return Ok(());
        }
        if e & 1 == 0 {
            if self.entries.len() / 512 >= MAX_TABLES {
                return Err(MapError::OutOfMemory);
            }
            proof {
                lemma_prefix_step(v, cur as int);
                lemma_prefix_len(v, cur - 1);
            }
            let ghost s0 = self@;
            let c = self.push_table(Ghost(prefix_of(v, cur - 1)));
            let ghost s1 = self@;
            proof {
                lemma_pointer_entry(c as u64);
            }
            self.set_entry(t, k, ((c as u64) << 10u64) | 1);
            let ghost s2 = self@;
            let ghost m2 = self.prefixes@;
            proof {
                let k1 = vpn(v, cur - 1);
                lemma_vpn_bound(v, cur - 1);
                self.lemma_entry(c as int, k1);
                assert(s2[c * 512 + k1] == 0);
                assert(0u64 & 1 == 0) by (bit_vector);
            }
            let r = self.map_from(c, v, p, bits, cur - 1, target);
            proof {
                assert(self@[t * 512 + k] == s2[t * 512 + k]);
                let o = old(self);
                assert forall|tt: int, w: u64, l: int|
                    0 <= tt < o.num_tables() && 0 <= l <= 2 && o.prefixes@[tt] == prefix_of(w, l) && !(r is Ok
                        && l >= target && hits(w, v, target as int)) implies #[trigger] walk(self@, tt, w, l) == walk(o@, tt, w, l) by {
                    assert(walk(self@, tt, w, l) == walk(s2, tt, w, l));
                    lemma_fresh_pointer_frame(s1, t as int, k as int, c as int, tt, w, l);
                    lemma_push_frame(s0, s1, tt, w, l);
                }
                if r is Ok {
                    assert forall|w: u64| same_path(w, v, cur as int, target as int) implies walk(self@, t as int, w, cur as int)
                        == Some(leaf_addr(leaf_entry(p, bits), w, target as int)) by {
                        assert(vpn(w, cur as int) == vpn(v, cur as int));
                        assert(same_path(w, v, cur - 1, target as int));
                    }
                }
            }
            r
        } else if e & 0xe != 0 {
            Err(MapError::LeafInPath)
        } else {
            let c = (e >> 10u64) as usize;
            proof {
                lemma_prefix_step(v, cur as int);
            }
            let r = self.map_from(c, v, p, bits, cur - 1, target);
            proof {
                assert(self@[t * 512 + k] == old(self)@[t * 512 + k]);
                if r is Ok {
                    assert forall|w: u64| same_path(w, v, cur as int, target as int) implies walk(self@, t as int, w, cur as int)
                        == Some(leaf_addr(leaf_entry(p, bits), w, target as int)) by {
                        assert(vpn(w, cur as int) == vpn(v, cur as int));
                        assert(same_path(w, v, cur - 1, target as int));
                    }
                }
            }
            r
        }
    }

    fn path_check(&self, t: usize, v: u64, cur: usize, target: usize) -> (r: (bool, usize))
        requires
            self.wf(),
            t < self.num_tables(),
            target <= cur <= 2,
        ensures
            r.0 == path_blocked(self@, t as int, v, cur as int, target as int),
            r.1 == tables_needed(self@, t as int, v, cur as int, target as int),
            r.1 <= 2,
        decreases cur,
    {
        let k = vpn_of(v, cur);
        proof {
            self.lemma_entry(t as int, k as int);
        }
        let e = self.entries[t * 512 + k];
        if cur == target {
            (false, 0)
        } else if e & 1 == 0 {
            (false, cur - target)
        } else if e & 0xe != 0 {
            (true, 0)
        } else {
            let (b, n) = self.path_check((e >> 10u64) as usize, v, cur - 1, target);
            proof {
                assert(tables_needed(self@, t as int, v, cur as int, target as int) == n);
            }
            (b, n)
        }
    }

    fn unmap_from(&mut self, t: usize, v: u64, level: usize) -> (r: (bool, Ghost<int>))
        requires
            old(self).wf(),
            t < old(self).num_tables(),
            level <= 2,
            old(self).prefixes@[t as int] == prefix_of(v, level as int),
        ensures
            final(self).wf(),
            r.0 == walk(old(self)@, t as int, v, level as int) is Some,
            walk(final(self)@, t as int, v, level as int) is None,
            final(self)@.len() == old(self)@.len(),
            final(self).prefixes@ == old(self).prefixes@,
            forall|j: int| 0 <= j < t * 512 ==> final(self)@[j] == old(self)@[j],
            r.0 ==> 0 <= r.1@ <= level,
            r.0 ==> r.1@ == leaf_level(old(self)@, t as int, v, level as int),
            r.0 ==> forall|w: u64| same_path(w, v, level as int, r.1@) ==> walk(final(self)@, t as int, w, level as int) is None,
            forall|tt: int, w: u64, l: int|
                0 <= tt < old(self).num_tables() && 0 <= l <= 2 && old(self).prefixes@[tt] == prefix_of(w, l) && !(r.0
                    && l >= r.1@ && hits(w, v, r.1@)) ==> #[trigger] walk(final(self)@, tt, w, l) == walk(
                    old(self)@,
                    tt,
                    w,
                    l,
                ),
        decreases level,
    {
        let k = vpn_of(v, level);
        proof {
            self.lemma_entry(t as int, k as int);
            lemma_prefix_len(v, level as int);
        }
        let e = self.entries[t * 512 + k];
        if e & 1 == 0 {
            (false, Ghost(0))
        } else if e & 0xe != 0 {
            assert(0u64 & 1 == 0) by (bit_vector);
            self.set_entry(t, k, 0);
            proof {
                let o = old(self);
                assert forall|tt: int, w: u64, l: int|
                    0 <= tt < o.num_tables() && 0 <= l <= 2 && o.prefixes@[tt] == prefix_of(w, l) && !(l >= level
                        && hits(w, v, level as int)) implies #[trigger] walk(self@, tt, w, l) == walk(o@, tt, w, l) by {
                    lemma_leaf_update_frame(o@, o.prefixes@, t as int, v, 0, level as int, tt, w, l);
                }
                assert forall|w: u64| same_path(w, v, level as int, level as int) implies walk(self@, t as int, w, level as int) is None by {
                    assert(vpn(w, level as int) == vpn(v, level as int));
                }
            }
            (true, Ghost(level as int))
        } else if level == 0 {
            (false, Ghost(0))
        } else {
            let c = (e >> 10u64) as usize;
            proof {
                lemma_prefix_step(v, level as int);
            }
            let r = self.unmap_from(c, v, level - 1);
            proof {
                assert(self@[t * 512 + k] == old(self)@[t * 512 + k]);
                if r.0 {
                    assert forall|w: u64| same_path(w, v, level as int, r.1@) implies walk(self@, t as int, w, level as int) is None by {
                        assert(vpn(w, level as int) == vpn(v, level as int));
                        assert(same_path(w, v, level - 1, r.1@));
                    }
                }
            }
            r
        }
    }
}

/// Install a leaf for virtual address `vaddr` at `level` (0 for a 4 KiB page,
/// 1 for 2 MiB, 2 for 1 GiB) mapping to physical address `paddr` with the
/// permission `bits`, creating empty tables for missing intermediate levels.
/// Mapping `v` at `level` in `t` can be done: no larger leaf is in the way
/// and the tables it needs fit under `MAX_TABLES`.
pub open spec fn map_succeeds(t: PageTable, v: u64, level: int) -> bool {
    !path_blocked(t@, 0, v, 2, level) && t.num_tables() + tables_needed(t@, 0, v, 2, level) <= MAX_TABLES
}

pub fn map(table: &mut PageTable, vaddr: u64, paddr: u64, bits: u64, level: usize) -> (r: Result<(), MapError>)
    requires
        old(table).wf(),
        level <= 2,
        bits & 0xe != 0,
    ensures
        final(table).wf(),
        r is Ok <==> map_succeeds(*old(table), vaddr, level as int),
        r == Err::<(), MapError>(MapError::LeafInPath) <==> path_blocked(old(table)@, 0, vaddr, 2, level as int),
        r is Err ==> *final(table) == *old(table),
        r is Ok ==> final(table).translate(vaddr) == Some(leaf_addr(leaf_entry(paddr, bits), vaddr, level as int)),
        forall|w: u64|
            #[trigger] final(table).translate(w) == if r is Ok && same_path(w, vaddr, 2, level as int) {
                Some(leaf_addr(leaf_entry(paddr, bits), w, level as int))
            } else {
                old(table).translate(w)
            },
{
    let (blocked, needed) = table.path_check(0, vaddr, 2, level);
    if blocked {
        return Err(MapError::LeafInPath);
    }
    if needed > MAX_TABLES - table.entries.len() / 512 {
        return Err(MapError::OutOfMemory);
    }
    let r = table.map_from(0, vaddr, paddr, bits, 2, level);
    proof {
        assert(same_path(vaddr, vaddr, 2, level as int));
        assert forall|w: u64|
            #[trigger] table.translate(w) == if r is Ok && same_path(w, vaddr, 2, level as int) {
                Some(leaf_addr(leaf_entry(paddr, bits), w, level as int))
            } else {
                old(table).translate(w)
            } by {
            lemma_hits_same_path(w, vaddr, level as int);
            assert(old(table).prefixes@[0] == prefix_of(w, 2));
            assert(walk(table@, 0, w, 2) == table.translate(w));
        }
    }
    r
}

/// `after` is `before` without the leaf at `level` on the walk for `v`: the
/// addresses that share that leaf's path have no translation, the others
/// keep theirs.
pub open spec fn cleared_at(before: PageTable, after: PageTable, v: u64, level: int) -> bool {
    forall|w: u64|
        #[trigger] after.translate(w) == if same_path(w, v, 2, level) {
            None
        } else {
            before.translate(w)
        }
}

/// Remove the leaf that translates `vaddr`; true when there was one. Every
/// address that the removed leaf translated, and no other, loses its
/// translation.
pub fn unmap(table: &mut PageTable, vaddr: u64) -> (r: bool)
    requires
        old(table).wf(),
    ensures
        final(table).wf(),
        r == old(table).translate(vaddr) is Some,
        final(table).translate(vaddr) is None,
        r ==> cleared_at(*old(table), *final(table), vaddr, leaf_level(old(table)@, 0, vaddr, 2)),
        !r ==> forall|w: u64| #[trigger] final(table).translate(w) == old(table).translate(w),
{
    let r = table.unmap_from(0, vaddr, 2);
    proof {
        let lv = r.1@;
        assert forall|w: u64|
            #[trigger] table.translate(w) == if r.0 && same_path(w, vaddr, 2, lv) {
                None
            } else {
                old(table).translate(w)
            } by {
            if r.0 {
                lemma_hits_same_path(w, vaddr, lv);
            }
            assert(old(table).prefixes@[0] == prefix_of(w, 2));
        }
        if r.0 {
            assert(cleared_at(*old(table), *table, vaddr, lv));
        }
    }
    r.0
}

/// The physical address that `vaddr` translates to, or `None` where an
/// invalid entry ends the walk.
pub fn virt_to_phys(table: &PageTable, vaddr: u64) -> (r: Option<u64>)
    requires
        table.wf(),
    ensures
        r == table.translate(vaddr),
{
    table.walk_from(0, vaddr, 2)
}

/// After `map` succeeds in installing a leaf for `v` at `level` to a
/// physical address `p` aligned to that level, every address in the page of
/// `v` translates to `p` combined with its page-offset bits (the low twelve
/// bits for an ordinary page), and every other address translates as before:
/// one that had no translation still has none.
pub proof fn lemma_map_then_translate(
    before: PageTable,
    after: PageTable,
    v: u64,
    p: u64,
    bits: u64,
    level: usize,
    r: Result<(), MapError>,
)
    requires
        level <= 2,
        bits <= 0x3ff,
        p & offset_mask(level as int) == 0,
        p < 0x100_0000_0000_0000,
        r is Ok,
        forall|w: u64|
            #[trigger] after.translate(w) == if r is Ok && same_path(w, v, 2, level as int) {
                Some(leaf_addr(leaf_entry(p, bits), w, level as int))
            } else {
                before.translate(w)
            },
    ensures
        after.translate(v) == Some(p | (v & offset_mask(level as int))),
        level == 0 ==> after.translate(v) == Some(p | (v & 0xfff)),
        forall|w: u64|
            same_path(w, v, 2, level as int) ==> #[trigger] after.translate(w) == Some(
                p | (w & offset_mask(level as int)),
            ),
        forall|w: u64| !same_path(w, v, 2, level as int) ==> #[trigger] after.translate(w) == before.translate(w),
{
    assert(same_path(v, v, 2, level as int));
    lemma_leaf_addr(p, bits, v, level as int);
    assert forall|w: u64| same_path(w, v, 2, level as int) implies #[trigger] after.translate(w) == Some(
        p | (w & offset_mask(level as int)),
    ) by {
        lemma_leaf_addr(p, bits, w, level as int);
    }
}

} // verus!

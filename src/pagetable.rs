//! The three-level Sv39 page-table tree of one address space.
//!
//! The tree owns its root table and every table page it creates, plus any
//! data page handed to it. Tables point at their children through the
//! physical address stored in an entry, exactly as the MMU reads them; the
//! tree finds the child frame by that address.

use vstd::prelude::*;

use crate::address::{
    is_frame_address, lemma_pa_ppn_bound, lemma_pa_ppn_div, lemma_va_index_is_vpn_index,
    lemma_vpn_indices_determine_vpn, pa_ppn, va_vpn, vpn_index, PhysicalMemoryAddress,
    VirtualMemoryAddress, PA_LIMIT, VA_LIMIT, VPN_LIMIT,
};
use crate::frame::{zeroed_entries, FramePool, PageFrame};
use crate::layout::{
    kstack, phy_kstack, spec_kstack, spec_phy_kstack, KERNEL_STACK_SIZE, KSTACK_STRIDE, MAX_PROCESS,
    PGSZ, PHYSTOP, TRAPFRAME,
};
use crate::sv39::{
    lemma_pte_word_fields, lemma_zero_invalid, pte_flags, pte_pa, pte_ppn, pte_valid, pte_word,
    lemma_pointer_word, PageTableEntry, PTE_FLAG_R, PTE_FLAG_V, PTE_FLAG_W, PTE_FLAG_X,
    PTE_RWX_MASK,
};

verus! {

/// Why a page-table operation did not do its work.
#[derive(Debug, Clone, Copy, PartialEq, Eq, Structural)]
pub enum PageTableErr {
    /// `map` found a valid leaf entry already in place.
    AlreadyMap,
    /// `unmap` found no valid leaf entry to clear.
    NeverMap,
    /// A walk that may not create tables met a missing intermediate table.
    NotFound,
    /// The frame pool had no page for a table that had to be created.
    OutOfMemory,
    /// An address lies outside the Sv39 virtual space or the physical space.
    OutOfRange,
}

/// The page-table tree of one address space.
pub struct PageTableFrame {
    root: PhysicalMemoryAddress,
    frames: Vec<PageFrame>,
    /// For each frame: 2 for the root, 1 and 0 for the tables below it, -1 for
    /// a data page the tree only keeps alive.
    levels: Ghost<Seq<int>>,
}

impl PageTableFrame {
    /// Entry `k` of frame `i`.
    pub closed spec fn entry(&self, i: int, k: int) -> u64 {
        self.frames@[i].entries()[k].bits
    }

    /// Frame `j` sits at physical address `addr`.
    pub closed spec fn holds(&self, j: int, addr: u64) -> bool {
        0 <= j < self.frames@.len() && self.frames@[j].spec_address() == addr
    }

    /// The frame at physical address `addr`.
    pub closed spec fn index_of(&self, addr: u64) -> int {
        choose|j: int| self.holds(j, addr)
    }

    /// Frame, entry index of the leaf entry that translates page `vpn`, when
    /// both intermediate tables on its path are present.
    pub closed spec fn leaf_slot(&self, vpn: u64) -> Option<(int, int)> {
        let e2 = self.entry(0, vpn_index(vpn, 2) as int);
        if !pte_valid(e2) {
            None
        } else {
            let j1 = self.index_of(pte_pa(e2));
            let e1 = self.entry(j1, vpn_index(vpn, 1) as int);
            if !pte_valid(e1) {
                None
            } else {
                Some((self.index_of(pte_pa(e1)), vpn_index(vpn, 0) as int))
            }
        }
    }

    /// The leaf entry word for page `vpn`, valid or not, when the path to it exists.
    pub closed spec fn leaf(&self, vpn: u64) -> Option<u64> {
        match self.leaf_slot(vpn) {
            Some((j, k)) => Some(self.entry(j, k)),
            None => None,
        }
    }

    /// How many tables a walk to page `vpn` has to create.
    pub closed spec fn tables_needed(&self, vpn: u64) -> nat {
        let e2 = self.entry(0, vpn_index(vpn, 2) as int);
        if !pte_valid(e2) {
            2
        } else if !pte_valid(self.entry(self.index_of(pte_pa(e2)), vpn_index(vpn, 1) as int)) {
            1
        } else {
            0
        }
    }

    /// Physical address of the root table.
    pub closed spec fn root_address(&self) -> u64 {
        self.root.0
    }

    /// Number of frames the tree owns.
    pub closed spec fn frame_count(&self) -> nat {
        self.frames@.len()
    }

    /// Physical addresses of the frames the tree owns.
    pub closed spec fn addresses(&self) -> Set<u64> {
        Set::new(|a: u64| exists|i: int| self.holds(i, a))
    }

    /// The data pages the tree keeps alive, by physical address, with their words.
    pub closed spec fn data_pages(&self) -> Map<u64, Seq<PageTableEntry>> {
        Map::new(
            |a: u64| exists|j: int| self.holds(j, a) && self.levels@[j] == -1,
            |a: u64| self.frames@[self.index_of(a)].entries(),
        )
    }

    /// `new` keeps the frames of `self` at their places and levels, leaves
    /// the data pages untouched, and adds no data page.
    proof fn lemma_data_kept(&self, new: Self)
        requires
            self.wf(),
            new.wf(),
            self.grows_into(new),
            forall|j: int|
                0 <= j < self.frames@.len() && self.levels@[j] == -1 ==> (#[trigger] new.frames@[j]).entries()
                    == self.frames@[j].entries(),
            forall|j: int| self.frames@.len() <= j < new.frames@.len() ==> #[trigger] new.levels@[j] != -1,
        ensures
            new.data_pages() == self.data_pages(),
    {
        assert forall|a: u64| #[trigger] new.data_pages().contains_key(a) <==> self.data_pages().contains_key(a) by {
            if new.data_pages().contains_key(a) {
                let j = choose|j: int| new.holds(j, a) && new.levels@[j] == -1;
                assert(j < self.frames@.len());
                assert(self.holds(j, a));
            }
            if self.data_pages().contains_key(a) {
                let j = choose|j: int| self.holds(j, a) && self.levels@[j] == -1;
                assert(new.holds(j, a));
            }
        }
        assert forall|a: u64| #[trigger] new.data_pages().contains_key(a) implies new.data_pages()[a]
            == self.data_pages()[a] by {
            let j = choose|j: int| self.holds(j, a) && self.levels@[j] == -1;
            assert(new.holds(j, a));
            self.lemma_index_of(j, a);
            new.lemma_index_of(j, a);
        }
        assert(new.data_pages() =~= self.data_pages());
    }

    /// A tree owned through `pool` holds only addresses that are out of it,
    /// so a frame the pool hands out next is not among them.
    pub proof fn lemma_owned_addresses(&self, pool: FramePool)
        requires
            self.owned_by(pool),
        ensures
            self.addresses().subset_of(pool.outstanding()),
    {
        assert forall|a: u64| #[trigger] self.addresses().contains(a) implies pool.outstanding().contains(a) by {
            let i = choose|i: int| self.holds(i, a);
            assert(pool.outstanding().contains(self.frames@[i].spec_address()));
        }
    }

    /// Every frame of the tree is still out of `pool`.
    pub closed spec fn owned_by(&self, pool: FramePool) -> bool {
        forall|i: int|
            0 <= i < self.frames@.len() ==> pool.outstanding().contains(
                #[trigger] self.frames@[i].spec_address(),
            )
    }

    /// Frame `i` is the root or an intermediate table.
    pub closed spec fn is_upper(&self, i: int) -> bool {
        self.levels@[i] == 1 || self.levels@[i] == 2
    }

    pub closed spec fn wf(&self) -> bool {
        &&& self.frames@.len() >= 1
        &&& self.levels@.len() == self.frames@.len()
        &&& self.levels@[0] == 2
        &&& self.frames@[0].spec_address() == self.root.0
        &&& forall|i: int| 0 <= i < self.frames@.len() ==> (#[trigger] self.frames@[i]).wf()
        &&& forall|i: int|
            0 <= i < self.frames@.len() ==> -1 <= #[trigger] self.levels@[i] <= 2
        &&& forall|i: int, j: int|
            0 <= i < self.frames@.len() && 0 <= j < self.frames@.len() && i != j ==> (
            #[trigger] self.frames@[i]).spec_address() != (#[trigger] self.frames@[j]).spec_address()
        &&& forall|i: int, k: int|
            0 <= i < self.frames@.len() && 0 <= k < 512 && self.is_upper(i) && pte_valid(
                #[trigger] self.entry(i, k),
            ) ==> exists|j: int|
                self.holds(j, pte_pa(self.entry(i, k))) && #[trigger] self.levels@[j]
                    == self.levels@[i] - 1
        &&& forall|i: int, k: int|
            0 <= i < self.frames@.len() && 0 <= k < 512 && self.is_upper(i) && pte_valid(
                #[trigger] self.entry(i, k),
            ) ==> self.entry(i, k) & PTE_RWX_MASK == 0
        &&& forall|i1: int, k1: int, i2: int, k2: int|
            0 <= i1 < self.frames@.len() && 0 <= k1 < 512 && self.is_upper(i1) && 0 <= i2
                < self.frames@.len() && 0 <= k2 < 512 && self.is_upper(i2) && pte_valid(
                #[trigger] self.entry(i1, k1),
            ) && pte_valid(#[trigger] self.entry(i2, k2)) && pte_pa(self.entry(i1, k1)) == pte_pa(
                self.entry(i2, k2),
            ) ==> i1 == i2 && k1 == k2
    }

    /// Frame `j` lies at `addr`, so the lookup by address finds `j`.
    proof fn lemma_index_of(&self, j: int, addr: u64)
        requires
            self.wf(),
            self.holds(j, addr),
        ensures
            self.index_of(addr) == j,
    {
        let c = self.index_of(addr);
        assert(self.holds(c, addr));
        if c != j {
            assert(self.frames@[c].spec_address() != self.frames@[j].spec_address());
        }
    }

    /// A valid entry of an upper table points at a frame one level down.
    proof fn lemma_child(&self, i: int, k: int)
        requires
            self.wf(),
            0 <= i < self.frames@.len(),
            0 <= k < 512,
            self.is_upper(i),
            pte_valid(self.entry(i, k)),
        ensures
            self.holds(self.index_of(pte_pa(self.entry(i, k))), pte_pa(self.entry(i, k))),
            self.levels@[self.index_of(pte_pa(self.entry(i, k)))] == self.levels@[i] - 1,
    {
        let a = pte_pa(self.entry(i, k));
        let j = choose|j: int| self.holds(j, a) && #[trigger] self.levels@[j] == self.levels@[i] - 1;
        self.lemma_index_of(j, a);
    }

    /// Where the leaf slot of `vpn` lies, and the tables on its path.
    proof fn lemma_leaf_slot(&self, vpn: u64)
        requires
            self.wf(),
        ensures
            self.leaf_slot(vpn) matches Some((j, k)) ==> {
                &&& 0 <= j < self.frames@.len()
                &&& self.levels@[j] == 0
                &&& k == vpn_index(vpn, 0)
                &&& 0 <= k < 512
            },
            self.leaf_slot(vpn) is Some <==> self.tables_needed(vpn) == 0,
    {
        let i2 = vpn_index(vpn, 2) as int;
        let i1 = vpn_index(vpn, 1) as int;
        assert(vpn_index(vpn, 0) < 512 && vpn_index(vpn, 1) < 512 && vpn_index(vpn, 2) < 512) by {
            lemma_vpn_index_bound(vpn);
        }
        if pte_valid(self.entry(0, i2)) {
            self.lemma_child(0, i2);
            let j1 = self.index_of(pte_pa(self.entry(0, i2)));
            if pte_valid(self.entry(j1, i1)) {
                self.lemma_child(j1, i1);
            }
        }
    }
}

impl View for PageTableFrame {
    type V = Map<u64, u64>;

    /// The translation the tree gives: each virtual page number whose leaf
    /// entry is valid, with that entry word.
    open spec fn view(&self) -> Map<u64, u64> {
        Map::new(
            |vpn: u64| vpn < VPN_LIMIT && self.leaf(vpn) is Some && pte_valid(self.leaf(vpn)->0),
            |vpn: u64| self.leaf(vpn)->0,
        )
    }
}

impl PageTableFrame {
    /// `new` is `self` after one table was created at frame `n` and hung under
    /// entry `k` of upper table `p`, which was invalid.
    pub closed spec fn attached(&self, new: Self, p: int, k: int, n: int) -> bool {
        &&& n == self.frames@.len()
        &&& new.root == self.root
        &&& new.frames@.len() == n + 1
        &&& new.levels@ == self.levels@.push(self.levels@[p] - 1)
        &&& 0 <= p < n
        &&& 0 <= k < 512
        &&& self.is_upper(p)
        &&& !pte_valid(self.entry(p, k))
        &&& forall|i: int| 0 <= i < n && i != p ==> new.frames@[i] == self.frames@[i]
        &&& new.frames@[p].spec_address() == self.frames@[p].spec_address()
        &&& new.frames@[p].entries() == self.frames@[p].entries().update(
            k,
            PageTableEntry { bits: pte_word(pa_ppn(new.frames@[n].spec_address()), PTE_FLAG_V) },
        )
        &&& new.frames@[n].wf()
        &&& new.frames@[n].entries() == zeroed_entries()
        &&& forall|i: int| 0 <= i < n ==> self.frames@[i].spec_address() != new.frames@[n].spec_address()
    }

    /// Hanging a fresh table under an invalid upper entry keeps the tree
    /// well formed and changes no translation.
    proof fn lemma_attach(&self, new: Self, p: int, k: int, n: int)
        requires
            self.wf(),
            self.attached(new, p, k, n),
        ensures
            new.wf(),
            new@ == self@,
            pte_valid(new.entry(p, k)),
            new.index_of(pte_pa(new.entry(p, k))) == n,
            forall|vpn: u64| #[trigger]
                self.leaf_slot(vpn) is Some ==> new.leaf_slot(vpn) == self.leaf_slot(vpn)
                    && new.leaf(vpn) == self.leaf(vpn),
    {
        let addr = new.frames@[n].spec_address();
        lemma_pa_ppn_div(addr);
        lemma_pte_word_fields(pa_ppn(addr), PTE_FLAG_V);
        lemma_pointer_word(pa_ppn(addr));
        assert(PTE_FLAG_V & PTE_FLAG_V != 0) by (bit_vector);
        lemma_zero_invalid();
        assert(pte_pa(new.entry(p, k)) == addr);
        assert(new.holds(n, addr));
        assert forall|i: int| 0 <= i < new.frames@.len() implies (#[trigger] new.frames@[i]).wf() by {
            if i < n && i != p {
                assert(new.frames@[i] == self.frames@[i]);
            }
        }
        assert forall|i: int, kk: int|
            0 <= i < n && 0 <= kk < 512 && (i != p || kk != k) implies #[trigger] new.entry(i, kk)
                == self.entry(i, kk) by {
            if i != p {
                assert(new.frames@[i] == self.frames@[i]);
            }
        }
        assert forall|kk: int| 0 <= kk < 512 implies #[trigger] new.entry(n, kk) == 0 by {}
        assert forall|j: int, a: u64| #[trigger] self.holds(j, a) implies new.holds(j, a) by {
            if j != p {
                assert(new.frames@[j] == self.frames@[j]);
            }
        }
        // well-formedness
        assert forall|i: int, j: int|
            0 <= i < new.frames@.len() && 0 <= j < new.frames@.len() && i != j implies (
            #[trigger] new.frames@[i]).spec_address() != (#[trigger] new.frames@[j]).spec_address() by {
            if i < n && i != p {
                assert(new.frames@[i] == self.frames@[i]);
            }
            if j < n && j != p {
                assert(new.frames@[j] == self.frames@[j]);
            }
        }
        assert forall|i: int, kk: int|
            0 <= i < new.frames@.len() && 0 <= kk < 512 && new.is_upper(i) && pte_valid(
                #[trigger] new.entry(i, kk),
            ) implies exists|j: int|
                new.holds(j, pte_pa(new.entry(i, kk))) && #[trigger] new.levels@[j] == new.levels@[i]
                    - 1 by {
            if i == p && kk == k {
                assert(new.holds(n, pte_pa(new.entry(i, kk))) && new.levels@[n] == new.levels@[i] - 1);
            } else {
                assert(i < n);
                assert(new.entry(i, kk) == self.entry(i, kk));
                let j = choose|j: int|
                    self.holds(j, pte_pa(self.entry(i, kk))) && #[trigger] self.levels@[j]
                        == self.levels@[i] - 1;
                assert(new.holds(j, pte_pa(new.entry(i, kk))) && new.levels@[j] == new.levels@[i] - 1);
            }
        }
        assert forall|i1: int, k1: int, i2: int, k2: int|
            0 <= i1 < new.frames@.len() && 0 <= k1 < 512 && new.is_upper(i1) && 0 <= i2
                < new.frames@.len() && 0 <= k2 < 512 && new.is_upper(i2) && pte_valid(
                #[trigger] new.entry(i1, k1),
            ) && pte_valid(#[trigger] new.entry(i2, k2)) && pte_pa(new.entry(i1, k1)) == pte_pa(
                new.entry(i2, k2),
            ) implies i1 == i2 && k1 == k2 by {
            let fresh1 = i1 == p && k1 == k;
            let fresh2 = i2 == p && k2 == k;
            if fresh1 && !fresh2 {
                assert(i2 < n);
                self.lemma_child(i2, k2);
                assert(new.entry(i2, k2) == self.entry(i2, k2));
            } else if fresh2 && !fresh1 {
                assert(i1 < n);
                self.lemma_child(i1, k1);
                assert(new.entry(i1, k1) == self.entry(i1, k1));
            } else if !fresh1 && !fresh2 {
                assert(i1 < n && i2 < n);
                assert(new.entry(i1, k1) == self.entry(i1, k1));
                assert(new.entry(i2, k2) == self.entry(i2, k2));
            }
        }
        assert(new.wf());
        new.lemma_index_of(n, addr);
        // translations
        assert forall|vpn: u64| #[trigger]
            self.leaf_slot(vpn) is Some implies new.leaf_slot(vpn) == self.leaf_slot(vpn)
                && new.leaf(vpn) == self.leaf(vpn) by {
            self.lemma_same_path(new, p, k, n, vpn);
        }
        assert forall|vpn: u64| #[trigger] new@.contains_key(vpn) <==> self@.contains_key(vpn) by {
            self.lemma_same_path(new, p, k, n, vpn);
        }
        assert forall|vpn: u64| new@.contains_key(vpn) implies #[trigger] new@[vpn] == self@[vpn] by {
            self.lemma_same_path(new, p, k, n, vpn);
        }
        assert(new@ =~= self@);
    }

    /// The path of one page number before and after a table was attached.
    proof fn lemma_same_path(&self, new: Self, p: int, k: int, n: int, vpn: u64)
        requires
            self.wf(),
            new.wf(),
            self.attached(new, p, k, n),
            pte_valid(new.entry(p, k)),
            new.index_of(pte_pa(new.entry(p, k))) == n,
            forall|kk: int| 0 <= kk < 512 ==> #[trigger] new.entry(n, kk) == 0,
            forall|i: int, kk: int|
                0 <= i < n && 0 <= kk < 512 && (i != p || kk != k) ==> #[trigger] new.entry(i, kk)
                    == self.entry(i, kk),
            forall|j: int, a: u64| #[trigger] self.holds(j, a) ==> new.holds(j, a),
            !pte_valid(0),
        ensures
            self.leaf_slot(vpn) is Some ==> new.leaf_slot(vpn) == self.leaf_slot(vpn) && new.leaf(vpn)
                == self.leaf(vpn),
            new.leaf(vpn) matches Some(e) ==> (pte_valid(e) ==> self.leaf(vpn) == Some(e)),
    {
        lemma_vpn_index_bound(vpn);
        let i2 = vpn_index(vpn, 2) as int;
        let i1 = vpn_index(vpn, 1) as int;
        let i0 = vpn_index(vpn, 0) as int;
        if p == 0 && k == i2 {
        } else {
            assert(new.entry(0, i2) == self.entry(0, i2));
            if pte_valid(self.entry(0, i2)) {
                self.lemma_child(0, i2);
                let j1 = self.index_of(pte_pa(self.entry(0, i2)));
                new.lemma_index_of(j1, pte_pa(self.entry(0, i2)));
                if p == j1 && k == i1 {
                } else {
                    assert(new.entry(j1, i1) == self.entry(j1, i1));
                    if pte_valid(self.entry(j1, i1)) {
                        self.lemma_child(j1, i1);
                        let j0 = self.index_of(pte_pa(self.entry(j1, i1)));
                        new.lemma_index_of(j0, pte_pa(self.entry(j1, i1)));
                        assert(j0 != p);
                        assert(new.entry(j0, i0) == self.entry(j0, i0));
                    }
                }
            }
        }
    }
}

impl PageTableFrame {
    /// `new` keeps every frame of `self` at its place and level.
    pub closed spec fn grows_into(&self, new: Self) -> bool {
        &&& new.frames@.len() >= self.frames@.len()
        &&& new.root == self.root
        &&& forall|i: int|
            0 <= i < self.frames@.len() ==> (#[trigger] new.frames@[i]).spec_address()
                == self.frames@[i].spec_address() && new.levels@[i] == self.levels@[i]
    }

    /// A tree whose only table is a fresh root drawn from `pool`, or `None`
    /// when the pool is exhausted.
    pub fn new(pool: &mut FramePool) -> (r: Option<Self>)
        requires
            old(pool).wf(),
        ensures
            final(pool).wf(),
            r is None <==> old(pool).available() == 0,
            r is None ==> final(pool).outstanding() == old(pool).outstanding(),
            r matches Some(t) ==> {
                &&& t.wf()
                &&& t@ == Map::<u64, u64>::empty()
                &&& t.owned_by(*final(pool))
                &&& !old(pool).outstanding().contains(t.root_address())
                &&& final(pool).outstanding() == old(pool).outstanding().insert(t.root_address())
                &&& final(pool).available() + 1 == old(pool).available()
                &&& forall|vpn: u64| #[trigger] t.tables_needed(vpn) == 2
                &&& t.frame_count() == 1
                &&& t.addresses() == Set::<u64>::empty().insert(t.root_address())
                &&& is_frame_address(t.root_address())
                &&& t.root_address() != 0
            },
    {
        match pool.allocate() {
            None => None,
            Some(page) => {
                let root = page.address();
                let mut frames: Vec<PageFrame> = Vec::new();
                frames.push(page);
                let ghost levels: Seq<int> = seq![2int];
                let t = PageTableFrame { root, frames, levels: Ghost(levels) };
                proof {
                    lemma_zero_invalid();
                    assert forall|i: int, k: int| 0 <= i < 1 && 0 <= k < 512 implies #[trigger] t.entry(i, k) == 0 by {}
                    assert(t.wf());
                    assert forall|vpn: u64| #[trigger] t.tables_needed(vpn) == 2 && t.leaf_slot(vpn) is None by {
                        lemma_vpn_index_bound(vpn);
                    }
                    assert forall|vpn: u64| !#[trigger] t@.contains_key(vpn) by {
                        lemma_vpn_index_bound(vpn);
                    }
                    assert(t@ =~= Map::<u64, u64>::empty());
                    assert forall|a: u64| #[trigger] t.addresses().contains(a) == (a == t.root_address()) by {
                        if a == t.root_address() {
                            assert(t.holds(0, a));
                        }
                    }
                    assert(t.addresses() =~= Set::<u64>::empty().insert(t.root_address()));
                }
                Some(t)
            },
        }
    }

    /// Number of frames the tree owns.
    pub fn frames_len(&self) -> (r: usize)
        ensures
            r == self.frame_count(),
    {
        self.frames.len()
    }

    /// Frame `i` of the tree (the root is frame 0), to be placed in physical
    /// memory at its address before the tree is installed.
    pub fn frame(&self, i: usize) -> (r: &PageFrame)
        requires
            i < self.frame_count(),
        ensures
            self.addresses().contains(r.spec_address()),
            self.wf() && i == 0 ==> r.spec_address() == self.root_address(),
            self.wf() ==> r.wf(),
    {
        proof {
            assert(self.holds(i as int, self.frames@[i as int].spec_address()));
        }
        &self.frames[i]
    }

    /// Physical address of the root table, the value a SATP write installs.
    pub fn root(&self) -> (r: PhysicalMemoryAddress)
        ensures
            r.0 == self.root_address(),
    {
        self.root
    }

    /// The index of the frame at `addr`, which the tree holds.
    fn find_frame(&self, addr: u64) -> (r: usize)
        requires
            self.wf(),
            exists|j: int| self.holds(j, addr),
        ensures
            r == self.index_of(addr),
            self.holds(r as int, addr),
    {
        let ghost j = choose|j: int| self.holds(j, addr);
        proof {
            self.lemma_index_of(j, addr);
        }
        let mut i: usize = 0;
        while i < self.frames.len()
            invariant
                self.wf(),
                self.holds(j, addr),
                0 <= i <= j,
            decreases self.frames@.len() - i,
        {
            if self.frames[i].address().0 == addr {
                proof {
                    self.lemma_index_of(i as int, addr);
                }
                return i;
            }
            i = i + 1;
        }
        i
    }

    /// Steps from entry `k` of upper table `p` to the table below it,
    /// creating that table when the entry is invalid and `can_alloc` holds.
    fn descend(&mut self, p: usize, k: usize, can_alloc: bool, pool: &mut FramePool) -> (r: Result<
        usize,
        PageTableErr,
    >)
        requires
            old(self).wf(),
            old(pool).wf(),
            old(self).owned_by(*old(pool)),
            p < old(self).frames@.len(),
            old(self).is_upper(p as int),
            k < 512,
        ensures
            final(self).wf(),
            final(pool).wf(),
            final(self).owned_by(*final(pool)),
            old(pool).outstanding().subset_of(final(pool).outstanding()),
            adds_only_fresh(*old(self), *final(self), old(pool).outstanding()),
            final(self)@ == old(self)@,
            final(self).data_pages() == old(self).data_pages(),
            old(self).grows_into(*final(self)),
            forall|vpn: u64| #[trigger]
                old(self).leaf_slot(vpn) is Some ==> final(self).leaf_slot(vpn) == old(self).leaf_slot(
                    vpn,
                ) && final(self).leaf(vpn) == old(self).leaf(vpn),
            forall|i: int, kk: int|
                0 <= i < old(self).frames@.len() && 0 <= kk < 512 && (i != p || kk != k)
                    ==> #[trigger] final(self).entry(i, kk) == old(self).entry(i, kk),
            pte_valid(old(self).entry(p as int, k as int)) ==> {
                &&& r == Ok::<usize, PageTableErr>(
                    old(self).index_of(pte_pa(old(self).entry(p as int, k as int))) as usize,
                )
                &&& *final(self) == *old(self)
                &&& *final(pool) == *old(pool)
            },
            !pte_valid(old(self).entry(p as int, k as int)) && !can_alloc ==> {
                &&& r == Err::<usize, PageTableErr>(PageTableErr::NotFound)
                &&& *final(self) == *old(self)
                &&& *final(pool) == *old(pool)
            },
            !pte_valid(old(self).entry(p as int, k as int)) && can_alloc && old(pool).available() == 0
                ==> {
                &&& r == Err::<usize, PageTableErr>(PageTableErr::OutOfMemory)
                &&& *final(self) == *old(self)
                &&& *final(pool) == *old(pool)
            },
            !pte_valid(old(self).entry(p as int, k as int)) && can_alloc && old(pool).available() > 0
                ==> {
                &&& r == Ok::<usize, PageTableErr>(old(self).frames.len())
                &&& final(self).frames@.len() == old(self).frames@.len() + 1
                &&& final(pool).available() + 1 == old(pool).available()
                &&& forall|kk: int| 0 <= kk < 512 ==> #[trigger] final(self).entry(old(self).frames@.len() as int, kk) == 0
            },
            r matches Ok(c) ==> {
                &&& c < final(self).frames@.len()
                &&& final(self).levels@[c as int] == old(self).levels@[p as int] - 1
                &&& pte_valid(final(self).entry(p as int, k as int))
                &&& final(self).index_of(pte_pa(final(self).entry(p as int, k as int))) == c
            },
    {
        let e = *self.frames[p].entry(k);
        if e.is_v() {
            let addr = e.to_pma().0;
            proof {
                self.lemma_child(p as int, k as int);
            }
            let c = self.find_frame(addr);
            return Ok(c);
        }
        if !can_alloc {
            return Err(PageTableErr::NotFound);
        }
        let page = match pool.allocate() {
            Some(page) => page,
            None => {
                return Err(PageTableErr::OutOfMemory);
            },
        };
        let ghost old_self = *self;
        let addr = page.address();
        let n = self.frames.len();
        proof {
            assert forall|i: int| 0 <= i < n implies old_self.frames@[i].spec_address()
                != page.spec_address() by {
                assert(old(pool).outstanding().contains(old_self.frames@[i].spec_address()));
            }
        }
        self.frames.push(page);
        self.levels = Ghost(self.levels@.push(self.levels@[p as int] - 1));
        let pte = addr.to_pte(PTE_FLAG_V);
        self.frames[p].entry_mut(k).set(pte);
        proof {
            old_self.lemma_attach(*self, p as int, k as int, n as int);
            assert forall|j: int|
                0 <= j < old_self.frames@.len() && old_self.levels@[j] == -1 implies (
                #[trigger] self.frames@[j]).entries() == old_self.frames@[j].entries() by {
                assert(j != p);
            }
            old_self.lemma_data_kept(*self);
            assert forall|a: u64| #[trigger] self.addresses().contains(a) && !old_self.addresses().contains(a)
                implies !old(pool).outstanding().contains(a) by {
                let j = choose|j: int| self.holds(j, a);
                if j < n {
                    assert(old_self.holds(j, a));
                }
            }
            assert forall|i: int| 0 <= i < self.frames@.len() implies final(pool).outstanding().contains(
                #[trigger] self.frames@[i].spec_address()) by {
                if i < n {
                    assert(self.frames@[i].spec_address() == old_self.frames@[i].spec_address());
                }
            }
            assert forall|i: int, kk: int|
                0 <= i < old(self).frames@.len() && 0 <= kk < 512 && (i != p || kk != k)
                    implies #[trigger] self.entry(i, kk) == old(self).entry(i, kk) by {
                if i != p {
                    assert(self.frames@[i] == old(self).frames@[i]);
                }
            }
        }
        Ok(n)
    }
}

/// Every frame `new` holds beyond those of `old` has an address outside `taken`.
pub open spec fn adds_only_fresh(old: PageTableFrame, new: PageTableFrame, taken: Set<u64>) -> bool {
    forall|a: u64|
        #[trigger] new.addresses().contains(a) && !old.addresses().contains(a) ==> !taken.contains(a)
}

/// Every tree grows into itself.
pub proof fn lemma_grows_refl(a: PageTableFrame)
    ensures
        a.grows_into(a),
{
}

/// Growing is transitive.
pub proof fn lemma_grows_trans(a: PageTableFrame, b: PageTableFrame, c: PageTableFrame)
    requires
        a.grows_into(b),
        b.grows_into(c),
    ensures
        a.grows_into(c),
{
    assert forall|i: int| 0 <= i < a.frames@.len() implies (#[trigger] c.frames@[i]).spec_address()
        == a.frames@[i].spec_address() && c.levels@[i] == a.levels@[i] by {
        let fb = b.frames@[i];
        let fc = c.frames@[i];
        assert(fb.spec_address() == a.frames@[i].spec_address());
        assert(fc.spec_address() == fb.spec_address());
    }
}

/// Fresh additions in two steps are fresh additions overall.
pub proof fn lemma_fresh_trans(
    a: PageTableFrame,
    b: PageTableFrame,
    c: PageTableFrame,
    t1: Set<u64>,
    t2: Set<u64>,
)
    requires
        adds_only_fresh(a, b, t1),
        adds_only_fresh(b, c, t2),
        t1.subset_of(t2),
    ensures
        adds_only_fresh(a, c, t1),
{
    assert forall|x: u64| #[trigger] c.addresses().contains(x) && !a.addresses().contains(x) implies !t1.contains(
        x,
    ) by {
        if b.addresses().contains(x) {
        } else {
            assert(!t2.contains(x));
        }
    }
}

/// A tree that keeps its frames and gains none adds nothing.
pub proof fn lemma_same_frames_fresh(a: PageTableFrame, b: PageTableFrame, t: Set<u64>)
    requires
        a.grows_into(b),
        b.frame_count() == a.frame_count(),
    ensures
        adds_only_fresh(a, b, t),
{
    assert forall|x: u64| #[trigger] b.addresses().contains(x) implies a.addresses().contains(x) by {
        let j = choose|j: int| b.holds(j, x);
        assert(a.holds(j, x));
    }
}

/// What a walk to `va` hands back, given `avail` free frames: the leaf entry
/// word, or why there is none.
pub open spec fn walk_outcome(t: PageTableFrame, va: u64, can_alloc: bool, avail: nat) -> Result<
    u64,
    PageTableErr,
> {
    if va >= VA_LIMIT {
        Err(PageTableErr::OutOfRange)
    } else if t.leaf(va_vpn(va)) is Some {
        Ok(t.leaf(va_vpn(va))->0)
    } else if !can_alloc {
        Err(PageTableErr::NotFound)
    } else if avail < t.tables_needed(va_vpn(va)) {
        Err(PageTableErr::OutOfMemory)
    } else {
        Ok(0)
    }
}

/// What `map` of `va` to `pa` with `flags` hands back, given `avail` free
/// frames: the entry it wrote, or why it wrote none.
pub open spec fn map_outcome(t: PageTableFrame, va: u64, pa: u64, flags: u64, avail: nat) -> Result<
    PageTableEntry,
    PageTableErr,
> {
    if va >= VA_LIMIT {
        Err(PageTableErr::OutOfRange)
    } else if t@.contains_key(va_vpn(va)) {
        Err(PageTableErr::AlreadyMap)
    } else if avail < t.tables_needed(va_vpn(va)) {
        Err(PageTableErr::OutOfMemory)
    } else {
        Ok(PageTableEntry { bits: pte_word(pa_ppn(pa), flags) })
    }
}

/// The translation after a leaf entry word `e` was written for page `vpn`.
pub open spec fn with_leaf(m: Map<u64, u64>, vpn: u64, e: u64) -> Map<u64, u64> {
    if pte_valid(e) {
        m.insert(vpn, e)
    } else {
        m.remove(vpn)
    }
}

impl PageTableFrame {
    /// `new` is `self` with entry `k` of frame `j` replaced by `e`.
    pub closed spec fn leaf_written(&self, new: Self, j: int, k: int, e: PageTableEntry) -> bool {
        &&& new.root == self.root
        &&& new.levels == self.levels
        &&& new.frames@.len() == self.frames@.len()
        &&& 0 <= j < self.frames@.len()
        &&& forall|i: int| 0 <= i < self.frames@.len() && i != j ==> new.frames@[i] == self.frames@[i]
        &&& new.frames@[j].spec_address() == self.frames@[j].spec_address()
        &&& new.frames@[j].entries() == self.frames@[j].entries().update(k, e)
    }

    /// Writing the leaf entry of `vpn` changes the translation of `vpn` alone
    /// and leaves the tables above the leaves as they were.
    proof fn lemma_write_leaf_one(&self, new: Self, vpn: u64, j: int, k: int, e: PageTableEntry)
        requires
            self.wf(),
            vpn < VPN_LIMIT,
            self.leaf_slot(vpn) == Some((j, k)),
            self.leaf_written(new, j, k, e),
        ensures
            new.wf(),
            new.leaf_slot(vpn) == Some((j, k)),
            new.leaf(vpn) == Some(e.bits),
            new@ == with_leaf(self@, vpn, e.bits),
            forall|v: u64| #[trigger] new.tables_needed(v) == self.tables_needed(v),
            forall|p: FramePool| #[trigger] self.owned_by(p) ==> new.owned_by(p),
            self.grows_into(new),
            new.data_pages() == self.data_pages(),
            new.frame_count() == self.frame_count(),
            forall|v: u64| v < VPN_LIMIT && v != vpn ==> #[trigger] new.leaf(v) == self.leaf(v),
    {
        self.lemma_leaf_slot(vpn);
        assert(self.levels@[j] == 0);
        assert forall|i: int| 0 <= i < new.frames@.len() implies (#[trigger] new.frames@[i]).wf() by {
            if i != j {
                assert(new.frames@[i] == self.frames@[i]);
            }
        }
        assert forall|i: int| #![auto] 0 <= i < new.frames@.len() implies new.frames@[i].spec_address()
            == self.frames@[i].spec_address() by {
            if i != j {
                assert(new.frames@[i] == self.frames@[i]);
            }
        }
        assert forall|i: int, kk: int|
            0 <= i < new.frames@.len() && 0 <= kk < 512 && self.is_upper(i) implies #[trigger] new.entry(
                i,
                kk,
            ) == self.entry(i, kk) by {
            assert(i != j);
            assert(new.frames@[i] == self.frames@[i]);
        }
        assert forall|jj: int, a: u64| #[trigger] new.holds(jj, a) == self.holds(jj, a) by {}
        assert forall|i: int, kk: int|
            0 <= i < new.frames@.len() && 0 <= kk < 512 && new.is_upper(i) && pte_valid(
                #[trigger] new.entry(i, kk),
            ) implies exists|jj: int|
                new.holds(jj, pte_pa(new.entry(i, kk))) && #[trigger] new.levels@[jj] == new.levels@[i]
                    - 1 by {
            let jj = choose|jj: int|
                self.holds(jj, pte_pa(self.entry(i, kk))) && #[trigger] self.levels@[jj]
                    == self.levels@[i] - 1;
            assert(new.holds(jj, pte_pa(new.entry(i, kk))));
        }
        assert(new.wf());
        assert forall|v: u64| #[trigger] new.tables_needed(v) == self.tables_needed(v)
            && new.leaf_slot(v) == self.leaf_slot(v) by {
            self.lemma_path_kept(new, v);
        }
        self.lemma_path_kept(new, vpn);
        assert(new.entry(j, k) == e.bits);
        assert(new.leaf(vpn) == Some(e.bits));
        assert forall|v: u64| v < VPN_LIMIT && v != vpn implies #[trigger] new.leaf(v) == self.leaf(
            v,
        ) by {
            self.lemma_path_kept(new, v);
            if self.leaf_slot(v) == Some((j, k)) {
                self.lemma_slot_determines_vpn(v, vpn);
            }
            self.lemma_leaf_slot(v);
        }
        assert forall|v: u64| #[trigger] new@.contains_key(v) <==> with_leaf(self@, vpn, e.bits).contains_key(v) by {
        }
        assert forall|v: u64| new@.contains_key(v) implies #[trigger] new@[v] == with_leaf(self@, vpn, e.bits)[v] by {
        }
        assert(new@ =~= with_leaf(self@, vpn, e.bits));
        assert forall|p: FramePool| #[trigger] self.owned_by(p) implies new.owned_by(p) by {
            assert forall|i: int| 0 <= i < new.frames@.len() implies p.outstanding().contains(
                #[trigger] new.frames@[i].spec_address()) by {
                assert(p.outstanding().contains(self.frames@[i].spec_address()));
            }
        }
        assert forall|i: int|
            0 <= i < self.frames@.len() && self.levels@[i] == -1 implies (
            #[trigger] new.frames@[i]).entries() == self.frames@[i].entries() by {
            assert(i != j);
        }
        self.lemma_data_kept(new);
    }

    /// The upper tables of `new` equal those of `self`, so every path does.
    proof fn lemma_path_kept(&self, new: Self, v: u64)
        requires
            self.wf(),
            new.wf(),
            new.frames@.len() == self.frames@.len(),
            new.levels == self.levels,
            forall|i: int, kk: int|
                0 <= i < new.frames@.len() && 0 <= kk < 512 && self.is_upper(i) ==> #[trigger] new.entry(
                    i,
                    kk,
                ) == self.entry(i, kk),
            forall|jj: int, a: u64| #[trigger] new.holds(jj, a) == self.holds(jj, a),
        ensures
            new.tables_needed(v) == self.tables_needed(v),
            new.leaf_slot(v) == self.leaf_slot(v),
    {
        lemma_vpn_index_bound(v);
        let i2 = vpn_index(v, 2) as int;
        let i1 = vpn_index(v, 1) as int;
        assert(new.entry(0, i2) == self.entry(0, i2));
        if pte_valid(self.entry(0, i2)) {
            self.lemma_child(0, i2);
            let j1 = self.index_of(pte_pa(self.entry(0, i2)));
            new.lemma_index_of(j1, pte_pa(self.entry(0, i2)));
            assert(new.entry(j1, i1) == self.entry(j1, i1));
            if pte_valid(self.entry(j1, i1)) {
                self.lemma_child(j1, i1);
                let j0 = self.index_of(pte_pa(self.entry(j1, i1)));
                new.lemma_index_of(j0, pte_pa(self.entry(j1, i1)));
            }
        }
    }

    /// Two page numbers of the Sv39 space with the same leaf slot are equal.
    proof fn lemma_slot_determines_vpn(&self, a: u64, b: u64)
        requires
            self.wf(),
            a < VPN_LIMIT,
            b < VPN_LIMIT,
            self.leaf_slot(a) is Some,
            self.leaf_slot(a) == self.leaf_slot(b),
        ensures
            a == b,
    {
        lemma_vpn_index_bound(a);
        lemma_vpn_index_bound(b);
        let a2 = vpn_index(a, 2) as int;
        let a1 = vpn_index(a, 1) as int;
        let b2 = vpn_index(b, 2) as int;
        let b1 = vpn_index(b, 1) as int;
        self.lemma_child(0, a2);
        self.lemma_child(0, b2);
        let ja = self.index_of(pte_pa(self.entry(0, a2)));
        let jb = self.index_of(pte_pa(self.entry(0, b2)));
        self.lemma_child(ja, a1);
        self.lemma_child(jb, b1);
        let ka = self.index_of(pte_pa(self.entry(ja, a1)));
        let kb = self.index_of(pte_pa(self.entry(jb, b1)));
        assert(ka == kb);
        assert(pte_pa(self.entry(ja, a1)) == pte_pa(self.entry(jb, b1)));
        assert(ja == jb && a1 == b1);
        assert(pte_pa(self.entry(0, a2)) == pte_pa(self.entry(0, b2)));
        assert(a2 == b2);
        lemma_vpn_indices_determine_vpn(a, b);
    }

    /// Every state that writes `e` into the leaf slot of `vpn`.
    proof fn lemma_write_leaf(&self, vpn: u64, j: int, k: int)
        requires
            self.wf(),
            vpn < VPN_LIMIT,
            self.leaf_slot(vpn) == Some((j, k)),
        ensures
            forall|new: Self, e: PageTableEntry| #[trigger] self.leaf_written(new, j, k, e) ==> {
                &&& new.wf()
                &&& new.leaf(vpn) == Some(e.bits)
                &&& new@ == with_leaf(self@, vpn, e.bits)
                &&& forall|v: u64| #[trigger] new.tables_needed(v) == self.tables_needed(v)
                &&& forall|p: FramePool| #[trigger] self.owned_by(p) ==> new.owned_by(p)
                &&& self.grows_into(new)
                &&& new.data_pages() == self.data_pages()
                &&& new.frame_count() == self.frame_count()
                &&& forall|v: u64| v < VPN_LIMIT && v != vpn ==> #[trigger] new.leaf(v) == self.leaf(v)
            },
    {
        assert forall|new: Self, e: PageTableEntry| #[trigger] self.leaf_written(new, j, k, e) implies {
            &&& new.wf()
            &&& new.leaf(vpn) == Some(e.bits)
            &&& new@ == with_leaf(self@, vpn, e.bits)
            &&& forall|v: u64| #[trigger] new.tables_needed(v) == self.tables_needed(v)
            &&& forall|p: FramePool| #[trigger] self.owned_by(p) ==> new.owned_by(p)
            &&& self.grows_into(new)
            &&& new.data_pages() == self.data_pages()
            &&& new.frame_count() == self.frame_count()
            &&& forall|v: u64| v < VPN_LIMIT && v != vpn ==> #[trigger] new.leaf(v) == self.leaf(v)
        } by {
            self.lemma_write_leaf_one(new, vpn, j, k, e);
        }
    }
}

impl PageTableFrame {
    /// What survives from `old` when a walk from `old` reached `mid` and
    /// then the leaf slot of `vpn` was written.
    proof fn lemma_walk_then_write(
        old: Self,
        mid: Self,
        taken: Set<u64>,
        vpn: u64,
        j: int,
        k: int,
    )
        requires
            mid.wf(),
            vpn < VPN_LIMIT,
            mid.leaf_slot(vpn) == Some((j, k)),
            old.grows_into(mid),
            adds_only_fresh(old, mid, taken),
            forall|v: u64| #[trigger] old.leaf_slot(v) is Some ==> mid.leaf(v) == old.leaf(v),
        ensures
            forall|new: Self, e: PageTableEntry| #[trigger] mid.leaf_written(new, j, k, e) ==> {
                &&& old.grows_into(new)
                &&& adds_only_fresh(old, new, taken)
                &&& new.frame_count() == mid.frame_count()
                &&& forall|v: u64|
                    v < VPN_LIMIT && v != vpn && old.leaf(v) is Some ==> #[trigger] new.leaf(v)
                        == old.leaf(v)
            },
    {
        assert forall|new: Self, e: PageTableEntry| #[trigger] mid.leaf_written(new, j, k, e) implies {
            &&& old.grows_into(new)
            &&& adds_only_fresh(old, new, taken)
            &&& new.frame_count() == mid.frame_count()
            &&& forall|v: u64|
                v < VPN_LIMIT && v != vpn && old.leaf(v) is Some ==> #[trigger] new.leaf(v) == old.leaf(
                    v,
                )
        } by {
            mid.lemma_write_leaf_one(new, vpn, j, k, e);
            lemma_grows_trans(old, mid, new);
            lemma_same_frames_fresh(mid, new, taken);
            lemma_fresh_trans(old, mid, new, taken, taken);
            assert forall|v: u64| v < VPN_LIMIT && v != vpn && old.leaf(v) is Some implies #[trigger] new.leaf(
                v,
            ) == old.leaf(v) by {
                assert(old.leaf_slot(v) is Some);
            }
        }
    }

    /// The leaf slot of `va`, found without creating anything.
    fn find_slot(&self, va: VirtualMemoryAddress) -> (r: Option<(usize, usize)>)
        requires
            self.wf(),
        ensures
            r matches Some((j, k)) ==> self.leaf_slot(va_vpn(va.0)) == Some((j as int, k as int)),
            r is None ==> self.leaf_slot(va_vpn(va.0)) is None,
    {
        proof {
            lemma_va_index_is_vpn_index(va.0);
            lemma_vpn_index_bound(va_vpn(va.0));
        }
        let i2 = va.get_pagetable_index(2);
        let i1 = va.get_pagetable_index(1);
        let i0 = va.get_pagetable_index(0);
        let e2 = *self.frames[0].entry(i2);
        if !e2.is_v() {
            return None;
        }
        proof {
            self.lemma_child(0, i2 as int);
        }
        let j1 = self.find_frame(e2.to_pma().0);
        let e1 = *self.frames[j1].entry(i1);
        if !e1.is_v() {
            return None;
        }
        proof {
            self.lemma_child(j1 as int, i1 as int);
        }
        let j0 = self.find_frame(e1.to_pma().0);
        Some((j0, i0))
    }

    /// The leaf slot of `va`, creating the missing tables on the way when
    /// `can_alloc` holds.
    fn walk_slot(&mut self, va: VirtualMemoryAddress, can_alloc: bool, pool: &mut FramePool) -> (r:
        Result<(usize, usize), PageTableErr>)
        requires
            old(self).wf(),
            old(pool).wf(),
            old(self).owned_by(*old(pool)),
        ensures
            final(self).wf(),
            final(pool).wf(),
            final(self).owned_by(*final(pool)),
            old(pool).outstanding().subset_of(final(pool).outstanding()),
            adds_only_fresh(*old(self), *final(self), old(pool).outstanding()),
            final(self)@ == old(self)@,
            final(self).data_pages() == old(self).data_pages(),
            old(self).grows_into(*final(self)),
            forall|v: u64| #[trigger]
                old(self).leaf_slot(v) is Some ==> final(self).leaf_slot(v) == old(self).leaf_slot(v)
                    && final(self).leaf(v) == old(self).leaf(v),
            r matches Err(e) ==> Err::<u64, PageTableErr>(e) == walk_outcome(
                *old(self),
                va.0,
                can_alloc,
                old(pool).available(),
            ),
            r matches Ok((j, k)) ==> {
                &&& final(self).leaf_slot(va_vpn(va.0)) == Some((j as int, k as int))
                &&& Ok::<u64, PageTableErr>(final(self).entry(j as int, k as int)) == walk_outcome(
                    *old(self),
                    va.0,
                    can_alloc,
                    old(pool).available(),
                )
                &&& final(pool).available() + old(self).tables_needed(va_vpn(va.0)) == old(
                    pool,
                ).available()
                &&& final(self).frame_count() == old(self).frame_count() + old(self).tables_needed(
                    va_vpn(va.0),
                )
            },
            r matches Err(e) ==> e != PageTableErr::OutOfMemory ==> *final(self) == *old(self)
                && *final(pool) == *old(pool),
            old(self).leaf(va_vpn(va.0)) is Some ==> *final(self) == *old(self) && *final(pool)
                == *old(pool),
    {
        if va.0 >= VA_LIMIT {
            return Err(PageTableErr::OutOfRange);
        }
        let ghost vpn = va_vpn(va.0);
        proof {
            lemma_va_index_is_vpn_index(va.0);
            lemma_vpn_index_bound(vpn);
            self.lemma_leaf_slot(vpn);
        }
        let i2 = va.get_pagetable_index(2);
        let i1 = va.get_pagetable_index(1);
        let i0 = va.get_pagetable_index(0);
        let ghost s0 = *self;
        let ghost p0 = *pool;
        let r1 = self.descend(0, i2, can_alloc, pool);
        let c1 = match r1 {
            Ok(c) => c,
            Err(e) => {
                return Err(e);
            },
        };
        let ghost s1 = *self;
        // the second step creates a table when the first one did, or when the
        // entry it reads is invalid
        proof {
            lemma_zero_invalid();
            if pte_valid(s0.entry(0, i2 as int)) {
                s0.lemma_child(0, i2 as int);
                assert(s1 == s0);
                assert(s0.tables_needed(vpn) == 1 <==> !pte_valid(s1.entry(c1 as int, i1 as int)));
            } else {
                assert(s1.entry(s0.frames@.len() as int, i1 as int) == 0);
                assert(s0.tables_needed(vpn) == 2);
            }
        }
        let ghost p1 = *pool;
        let r0 = self.descend(c1, i1, can_alloc, pool);
        proof {
            lemma_fresh_trans(s0, s1, *self, p0.outstanding(), p1.outstanding());
            lemma_grows_trans(s0, s1, *self);
        }
        let c0 = match r0 {
            Ok(c) => c,
            Err(e) => {
                return Err(e);
            },
        };
        proof {
            assert(self.entry(0, i2 as int) == s1.entry(0, i2 as int));
            s1.lemma_index_of(c1 as int, pte_pa(s1.entry(0, i2 as int)));
            assert(s1.holds(c1 as int, pte_pa(s1.entry(0, i2 as int))));
            assert(self.holds(c1 as int, pte_pa(s1.entry(0, i2 as int))));
            self.lemma_index_of(c1 as int, pte_pa(s1.entry(0, i2 as int)));
            assert(self.leaf_slot(vpn) == Some((c0 as int, i0 as int)));
            self.lemma_leaf_slot(vpn);
            if s0.leaf(vpn) is None {
                assert(!pte_valid(s1.entry(c1 as int, i1 as int)));
                assert(self.entry(c0 as int, i0 as int) == 0);
            } else {
                assert(s0.tables_needed(vpn) == 0);
            }
        }
        Ok((c0, i0))
    }

    /// Mutable access to entry `k` of frame `j`.
    fn frame_entry_mut(&mut self, j: usize, k: usize) -> (r: &mut PageTableEntry)
        requires
            j < old(self).frames@.len(),
            k < 512,
            old(self).frames@[j as int].wf(),
        ensures
            *r == old(self).frames@[j as int].entries()[k as int],
            old(self).leaf_written(*final(self), j as int, k as int, *final(r)),
    {
        self.frames[j].entry_mut(k)
    }

    /// Descends from the root through levels 2, 1 and 0 using the three 9-bit
    /// indices of `va`, and hands out the leaf entry, valid or not. A missing
    /// intermediate table is created from `pool` when `can_alloc` holds and
    /// reported as `NotFound` otherwise.
    pub fn walk(&mut self, va: VirtualMemoryAddress, can_alloc: bool, pool: &mut FramePool) -> (r:
        Result<&mut PageTableEntry, PageTableErr>)
        requires
            old(self).wf(),
            old(pool).wf(),
            old(self).owned_by(*old(pool)),
        ensures
            final(self).wf(),
            final(pool).wf(),
            final(self).owned_by(*final(pool)),
            final(self).data_pages() == old(self).data_pages(),
            old(self).grows_into(*final(self)),
            adds_only_fresh(*old(self), *final(self), old(pool).outstanding()),
            old(pool).outstanding().subset_of(final(pool).outstanding()),
            !can_alloc ==> *final(pool) == *old(pool)
                && final(self).frame_count() == old(self).frame_count(),
            forall|v: u64|
                v < VPN_LIMIT && v != va_vpn(va.0) && old(self).leaf(v) is Some
                    ==> #[trigger] final(self).leaf(v) == old(self).leaf(v),
            r is Ok ==> final(self).frame_count()
                == old(self).frame_count() + old(self).tables_needed(va_vpn(va.0)),
            r matches Err(e) ==> {
                &&& Err::<u64, PageTableErr>(e) == walk_outcome(
                    *old(self),
                    va.0,
                    can_alloc,
                    old(pool).available(),
                )
                &&& final(self)@ == old(self)@
                &&& e != PageTableErr::OutOfMemory ==> *final(self) == *old(self) && *final(pool)
                    == *old(pool)
            },
            r matches Ok(p) ==> {
                &&& Ok::<u64, PageTableErr>(p.bits) == walk_outcome(
                    *old(self),
                    va.0,
                    can_alloc,
                    old(pool).available(),
                )
                &&& final(self).leaf(va_vpn(va.0)) == Some(final(p).bits)
                &&& final(self)@ == with_leaf(old(self)@, va_vpn(va.0), final(p).bits)
                &&& final(self).tables_needed(va_vpn(va.0)) == 0
                &&& final(pool).available() + old(self).tables_needed(va_vpn(va.0)) == old(
                    pool,
                ).available()
            },
    {
        proof {
            lemma_va_index_is_vpn_index(va.0);
        }
        let (j, k) = self.walk_slot(va, can_alloc, pool)?;
        let ghost mid = *self;
        proof {
            mid.lemma_leaf_slot(va_vpn(va.0));
            mid.lemma_write_leaf(va_vpn(va.0), j as int, k as int);
            Self::lemma_walk_then_write(
                *old(self),
                mid,
                old(pool).outstanding(),
                va_vpn(va.0),
                j as int,
                k as int,
            );
        }
        Ok(self.frame_entry_mut(j, k))
    }

    /// Maps the page of `va` to the page of `pa` with `flags` (which should
    /// hold `V`), creating intermediate tables from `pool`. A page that is
    /// already mapped is refused with `AlreadyMap` and left as it was.
    pub fn map(
        &mut self,
        va: VirtualMemoryAddress,
        pa: PhysicalMemoryAddress,
        flags: u64,
        pool: &mut FramePool,
    ) -> (r: Result<&PageTableEntry, PageTableErr>)
        requires
            old(self).wf(),
            old(pool).wf(),
            old(self).owned_by(*old(pool)),
        ensures
            final(self).wf(),
            final(pool).wf(),
            final(self).owned_by(*final(pool)),
            old(pool).outstanding().subset_of(final(pool).outstanding()),
            final(self).data_pages() == old(self).data_pages(),
            old(self).grows_into(*final(self)),
            adds_only_fresh(*old(self), *final(self), old(pool).outstanding()),
            r is Ok ==> final(self).frame_count()
                == old(self).frame_count() + old(self).tables_needed(va_vpn(va.0)),
            r matches Ok(p) ==> {
                &&& Ok::<PageTableEntry, PageTableErr>(*p) == map_outcome(
                    *old(self),
                    va.0,
                    pa.0,
                    flags,
                    old(pool).available(),
                )
                &&& final(self)@ == with_leaf(old(self)@, va_vpn(va.0), p.bits)
                &&& final(self).leaf(va_vpn(va.0)) == Some(p.bits)
                &&& final(self).tables_needed(va_vpn(va.0)) == 0
                &&& final(pool).available() + old(self).tables_needed(va_vpn(va.0)) == old(
                    pool,
                ).available()
            },
            r matches Err(e) ==> {
                &&& Err::<PageTableEntry, PageTableErr>(e) == map_outcome(
                    *old(self),
                    va.0,
                    pa.0,
                    flags,
                    old(pool).available(),
                )
                &&& final(self)@ == old(self)@
                &&& e != PageTableErr::OutOfMemory ==> *final(self) == *old(self) && *final(pool)
                    == *old(pool)
            },
    {
        proof {
            lemma_va_index_is_vpn_index(va.0);
            old(self).lemma_leaf_slot(va_vpn(va.0));
        }
        let (j, k) = self.walk_slot(va, true, pool)?;
        let ghost mid = *self;
        proof {
            mid.lemma_leaf_slot(va_vpn(va.0));
        }
        if self.frames[j].entry(k).is_v() {
            return Err(PageTableErr::AlreadyMap);
        }
        let pte = pa.to_pte(flags);
        proof {
            mid.lemma_write_leaf(va_vpn(va.0), j as int, k as int);
            Self::lemma_walk_then_write(
                *old(self),
                mid,
                old(pool).outstanding(),
                va_vpn(va.0),
                j as int,
                k as int,
            );
        }
        let p = self.frame_entry_mut(j, k);
        p.set(pte);
        Ok(&*p)
    }

    /// Clears the leaf entry of `va` to zero. A page that was never mapped is
    /// reported as `NeverMap` and nothing changes. The page the entry pointed
    /// at is not released, and no table is taken away.
    pub fn unmap(&mut self, va: VirtualMemoryAddress) -> (r: Result<(), PageTableErr>)
        requires
            old(self).wf(),
        ensures
            final(self).wf(),
            va.0 >= VA_LIMIT ==> r == Err::<(), PageTableErr>(PageTableErr::OutOfRange) && *final(self) == *old(self),
            va.0 < VA_LIMIT && !old(self)@.contains_key(va_vpn(va.0)) ==> r == Err::<(), PageTableErr>(
                PageTableErr::NeverMap,
            ) && *final(self) == *old(self),
            va.0 < VA_LIMIT && old(self)@.contains_key(va_vpn(va.0)) ==> {
                &&& r == Ok::<(), PageTableErr>(())
                &&& final(self)@ == old(self)@.remove(va_vpn(va.0))
                &&& final(self).leaf(va_vpn(va.0)) == Some(0u64)
            },
            forall|v: u64| #[trigger] final(self).tables_needed(v) == old(self).tables_needed(v),
            forall|p: FramePool| #[trigger] old(self).owned_by(p) ==> final(self).owned_by(p),
            old(self).grows_into(*final(self)),
            final(self).data_pages() == old(self).data_pages(),
    {
        if va.0 >= VA_LIMIT {
            return Err(PageTableErr::OutOfRange);
        }
        proof {
            lemma_va_index_is_vpn_index(va.0);
            old(self).lemma_leaf_slot(va_vpn(va.0));
        }
        let (j, k) = match self.find_slot(va) {
            Some(slot) => slot,
            None => {
                return Err(PageTableErr::NeverMap);
            },
        };
        if !self.frames[j].entry(k).is_v() {
            return Err(PageTableErr::NeverMap);
        }
        proof {
            old(self).lemma_write_leaf(va_vpn(va.0), j as int, k as int);
            lemma_zero_invalid();
        }
        self.frame_entry_mut(j, k).clear();
        Ok(())
    }
}

/// `m` after pages `vpn0 .. vpn0 + n` were mapped, page `vpn0 + i` to
/// physical page `ppn0 + i`, all with `flags`.
pub open spec fn range_mapped(m: Map<u64, u64>, vpn0: int, ppn0: int, n: int, flags: u64) -> Map<
    u64,
    u64,
> {
    Map::new(
        |v: u64|
            if vpn0 <= v < vpn0 + n {
                pte_valid(pte_word((ppn0 + v - vpn0) as u64, flags))
            } else {
                m.contains_key(v)
            },
        |v: u64|
            if vpn0 <= v < vpn0 + n {
                pte_word((ppn0 + v - vpn0) as u64, flags)
            } else {
                m[v]
            },
    )
}

/// `m` after pages `vpn0 .. vpn0 + n` were unmapped.
pub open spec fn range_unmapped(m: Map<u64, u64>, vpn0: int, n: int) -> Map<u64, u64> {
    Map::new(|v: u64| m.contains_key(v) && !(vpn0 <= v < vpn0 + n), |v: u64| m[v])
}

/// First page-aligned address of the range `[va, va + size)`.
pub open spec fn range_start(va: u64) -> int {
    va - va % 4096
}

/// One past the last page-aligned address of the range `[va, va + size)`.
pub open spec fn range_end(va: u64, size: u64) -> int {
    let e = va + size;
    if e % 4096 == 0 {
        e
    } else {
        e - e % 4096 + 4096
    }
}

/// Address of page `i` of the range that starts at the page of `va`.
pub open spec fn range_page(va: u64, i: int) -> u64 {
    (range_start(va) + i * 4096) as u64
}

/// Page number of page `i` of the range that starts at the page of `va`.
pub open spec fn range_vpn(va: u64, i: int) -> u64 {
    (range_start(va) / 4096 + i) as u64
}

/// None of pages `0 .. n` of the range that starts at the page of `va` is
/// mapped in `m`.
#[verifier::opaque]
pub open spec fn range_was_free(m: Map<u64, u64>, va: u64, n: int) -> bool {
    forall|i: int| 0 <= i < n ==> !m.contains_key(#[trigger] range_vpn(va, i))
}

/// A range that was free has none of its pages mapped.
pub proof fn lemma_range_was_free(m: Map<u64, u64>, va: u64, n: int, i: int)
    requires
        range_was_free(m, va, n),
        0 <= i < n,
    ensures
        !m.contains_key(range_vpn(va, i)),
{
    reveal(range_was_free);
}

/// Number of pages the range `[va, va + size)` touches.
pub open spec fn range_pages(va: u64, size: u64) -> int {
    (range_end(va, size) - range_start(va)) / 4096
}

/// The virtual range `[va, va + size)` lies in the Sv39 space and its pages,
/// placed from the page of `pa` on, lie in the physical space.
pub open spec fn range_fits(va: u64, pa: u64, size: u64) -> bool {
    &&& range_end(va, size) <= VA_LIMIT
    &&& range_start(pa) + (range_end(va, size) - range_start(va)) <= PA_LIMIT
}

impl PageTableFrame {
    /// Maps every page of `[va, va + size)`, page by page from the page of
    /// `pa` on, with `flags`. Stops at the first page that fails; the pages
    /// before it stay mapped.
    pub fn mappages(
        &mut self,
        va: VirtualMemoryAddress,
        pa: PhysicalMemoryAddress,
        size: u64,
        flags: u64,
        pool: &mut FramePool,
    ) -> (r: Result<(), PageTableErr>)
        requires
            old(self).wf(),
            old(pool).wf(),
            old(self).owned_by(*old(pool)),
        ensures
            final(self).wf(),
            final(pool).wf(),
            final(self).owned_by(*final(pool)),
            r is Ok ==> final(self)@ == range_mapped(
                old(self)@,
                range_start(va.0) / 4096,
                range_start(pa.0) / 4096,
                range_pages(va.0, size),
                flags,
            ),
            r is Ok ==> final(pool).available() + 2 * range_pages(va.0, size) >= old(pool).available(),
            r is Ok ==> range_was_free(old(self)@, va.0, range_pages(va.0, size)),
            final(self).data_pages() == old(self).data_pages(),
            old(pool).outstanding().subset_of(final(pool).outstanding()),
            old(self).grows_into(*final(self)),
            adds_only_fresh(*old(self), *final(self), old(pool).outstanding()),
            !range_fits(va.0, pa.0, size) <==> r == Err::<(), PageTableErr>(PageTableErr::OutOfRange),
            r == Err::<(), PageTableErr>(PageTableErr::OutOfRange) ==> *final(self) == *old(self)
                && *final(pool) == *old(pool),
            r == Err::<(), PageTableErr>(PageTableErr::AlreadyMap) ==> exists|i: int|
                0 <= i < range_pages(va.0, size) && #[trigger] old(self)@.contains_key(
                    (range_start(va.0) / 4096 + i) as u64,
                ),
            r == Err::<(), PageTableErr>(PageTableErr::OutOfMemory) ==> old(pool).available() < 2
                * range_pages(va.0, size),
            r is Err ==> r == Err::<(), PageTableErr>(PageTableErr::OutOfRange) || r == Err::<
                (),
                PageTableErr,
            >(PageTableErr::AlreadyMap) || r == Err::<(), PageTableErr>(PageTableErr::OutOfMemory),
            r is Err && range_fits(va.0, pa.0, size) ==> exists|i: int|
                0 <= i < range_pages(va.0, size) && final(self)@ == #[trigger] range_mapped(
                    old(self)@,
                    range_start(va.0) / 4096,
                    range_start(pa.0) / 4096,
                    i,
                    flags,
                ),
    {
        let start = va.0 - va.0 % PGSZ;
        if va.0 > VA_LIMIT || size > VA_LIMIT - va.0 {
            return Err(PageTableErr::OutOfRange);
        }
        let e = va.0 + size;
        let end = if e % PGSZ == 0 {
            e
        } else {
            e - e % PGSZ + PGSZ
        };
        if end > VA_LIMIT {
            return Err(PageTableErr::OutOfRange);
        }
        let pa0 = pa.0 - pa.0 % PGSZ;
        assert(start == range_start(va.0) && end == range_end(va.0, size) && pa0 == range_start(pa.0));
        if pa0 > PA_LIMIT || end - start > PA_LIMIT - pa0 {
            return Err(PageTableErr::OutOfRange);
        }
        let n = (end - start) / PGSZ;
        let ghost vpn0: int = start as int / 4096;
        let ghost ppn0: int = pa0 as int / 4096;
        assert(range_fits(va.0, pa.0, size));
        let ghost m0 = old(self)@;
        let ghost avail0 = old(pool).available();
        assert(start % 4096 == 0 && pa0 % 4096 == 0 && end % 4096 == 0);
        assert(n == range_pages(va.0, size));
        assert(n * 4096 == end - start) by {
            assert((end - start) % 4096 == 0);
        }
        let mut i: u64 = 0;
        while i < n
            invariant
                self.wf(),
                pool.wf(),
                self.owned_by(*pool),
                i <= n,
                n * 4096 == end - start,
                start % 4096 == 0,
                pa0 % 4096 == 0,
                end <= VA_LIMIT,
                start <= end,
                pa0 + (end - start) <= PA_LIMIT,
                vpn0 == start / 4096,
                ppn0 == pa0 / 4096,
                vpn0 == range_start(va.0) / 4096,
                ppn0 == range_start(pa.0) / 4096,
                n == range_pages(va.0, size),
                range_fits(va.0, pa.0, size),
                m0 == old(self)@,
                avail0 == old(pool).available(),
                self.data_pages() == old(self).data_pages(),
                old(pool).outstanding().subset_of(pool.outstanding()),
                old(self).grows_into(*self),
                adds_only_fresh(*old(self), *self, old(pool).outstanding()),
                self@ == range_mapped(m0, vpn0, ppn0, i as int, flags),
                forall|j: int| 0 <= j < i ==> !#[trigger] m0.contains_key((vpn0 + j) as u64),
                avail0 <= pool.available() + 2 * i,
            decreases n - i,
        {
            assert(i * 4096 < end - start) by (nonlinear_arith)
                requires
                    i < n,
                    n * 4096 == end - start,
            ;
            let off = i * PGSZ;
            let a = start + off;
            let b = pa0 + off;
            proof {
                crate::address::lemma_va_vpn_div(a);
                lemma_pa_ppn_div(b);
                assert(a / 4096 == vpn0 + i) by {
                    assert(a == start + i * 4096);
                }
                assert(b / 4096 == ppn0 + i) by {
                    assert(b == pa0 + i * 4096);
                }
                self.lemma_tables_needed_at_most_two(va_vpn(a));
            }
            let ghost before = *self;
            let ghost pool_before = *pool;
            let res: Result<(), PageTableErr> = match self.map(
                VirtualMemoryAddress(a),
                PhysicalMemoryAddress(b),
                flags,
                pool,
            ) {
                Ok(_) => Ok(()),
                Err(e) => Err(e),
            };
            proof {
                lemma_grows_trans(*old(self), before, *self);
                lemma_fresh_trans(
                    *old(self),
                    before,
                    *self,
                    old(pool).outstanding(),
                    pool_before.outstanding(),
                );
            }
            match res {
                Ok(_) => {},
                Err(err) => {
                    proof {
                        assert(err != PageTableErr::OutOfRange);
                        if err == PageTableErr::OutOfMemory {
                            assert(pool_before.available() < 2);
                            assert(avail0 < 2 * n) by (nonlinear_arith)
                                requires
                                    avail0 <= pool_before.available() + 2 * i,
                                    pool_before.available() < 2,
                                    i < n,
                            ;
                        }
                        if err == PageTableErr::AlreadyMap {
                            assert(m0.contains_key((vpn0 + i) as u64));
                            assert(old(self)@.contains_key((range_start(va.0) / 4096 + i) as u64));
                        }
                        assert(self@ == range_mapped(m0, vpn0, ppn0, i as int, flags));
                    }
                    return Err(err);
                },
            }
            proof {
                let w = pte_word(pa_ppn(b), flags);
                assert(!before@.contains_key(va_vpn(a)));
                assert(!m0.contains_key((vpn0 + i) as u64));
                assert(self@ =~= range_mapped(m0, vpn0, ppn0, i + 1int, flags));
            }
            i = i + 1;
        }
        proof {
            assert(range_pages(va.0, size) == n);
            assert forall|j: int| 0 <= j < range_pages(va.0, size) implies !old(self)@.contains_key(
                #[trigger] range_vpn(va.0, j),
            ) by {
                assert(!m0.contains_key((vpn0 + j) as u64));
            }
            reveal(range_was_free);
        }
        Ok(())
    }

    /// Unmaps every page of `[va, va + size)`; pages that were not mapped
    /// are passed over.
    pub fn unmappages(&mut self, va: VirtualMemoryAddress, size: u64) -> (r: Result<(), PageTableErr>)
        requires
            old(self).wf(),
        ensures
            final(self).wf(),
            range_end(va.0, size) > VA_LIMIT <==> r is Err,
            r is Err ==> r == Err::<(), PageTableErr>(PageTableErr::OutOfRange) && *final(self)
                == *old(self),
            r is Ok ==> final(self)@ == range_unmapped(
                old(self)@,
                range_start(va.0) / 4096,
                range_pages(va.0, size),
            ),
            forall|v: u64| #[trigger] final(self).tables_needed(v) == old(self).tables_needed(v),
            forall|p: FramePool| #[trigger] old(self).owned_by(p) ==> final(self).owned_by(p),
            old(self).grows_into(*final(self)),
    {
        let start = va.0 - va.0 % PGSZ;
        if va.0 > VA_LIMIT || size > VA_LIMIT - va.0 {
            return Err(PageTableErr::OutOfRange);
        }
        let e = va.0 + size;
        let end = if e % PGSZ == 0 {
            e
        } else {
            e - e % PGSZ + PGSZ
        };
        if end > VA_LIMIT {
            return Err(PageTableErr::OutOfRange);
        }
        let n = (end - start) / PGSZ;
        let ghost vpn0: int = start as int / 4096;
        let ghost m0 = old(self)@;
        assert(start % 4096 == 0 && end % 4096 == 0);
        assert(n * 4096 == end - start) by {
            assert((end - start) % 4096 == 0);
        }
        let mut i: u64 = 0;
        while i < n
            invariant
                self.wf(),
                i <= n,
                n * 4096 == end - start,
                start % 4096 == 0,
                end <= VA_LIMIT,
                start <= end,
                vpn0 == start / 4096,
                self@ == range_unmapped(m0, vpn0, i as int),
                forall|v: u64| #[trigger] self.tables_needed(v) == old(self).tables_needed(v),
                forall|p: FramePool| #[trigger] old(self).owned_by(p) ==> self.owned_by(p),
                old(self).grows_into(*self),
            decreases n - i,
        {
            assert(i * 4096 < end - start) by (nonlinear_arith)
                requires
                    i < n,
                    n * 4096 == end - start,
            ;
            let a = start + i * PGSZ;
            proof {
                crate::address::lemma_va_vpn_div(a);
                assert(a / 4096 == vpn0 + i) by {
                    assert(a == start + i * 4096);
                }
            }
            let ghost before = *self;
            let _ = self.unmap(VirtualMemoryAddress(a));
            proof {
                assert(self@ =~= range_unmapped(m0, vpn0, i + 1int));
                assert forall|p: FramePool| #[trigger] old(self).owned_by(p) implies self.owned_by(p) by {
                    assert(before.owned_by(p));
                }
            }
            i = i + 1;
        }
        proof {
            assert(range_pages(va.0, size) == n);
        }
        Ok(())
    }

    /// Hands a data page to the tree, which keeps it alive as long as itself.
    pub fn save_page(&mut self, page: PageFrame)
        requires
            old(self).wf(),
            page.wf(),
            !old(self).addresses().contains(page.spec_address()),
        ensures
            final(self).wf(),
            final(self)@ == old(self)@,
            forall|v: u64| #[trigger] final(self).tables_needed(v) == old(self).tables_needed(v),
            forall|p: FramePool|
                #[trigger] old(self).owned_by(p) && p.outstanding().contains(page.spec_address())
                    ==> final(self).owned_by(p),
            old(self).grows_into(*final(self)),
            final(self).data_pages() == old(self).data_pages().insert(
                page.spec_address(),
                page.entries(),
            ),
            final(self).addresses() == old(self).addresses().insert(page.spec_address()),
            final(self).frame_count() == old(self).frame_count() + 1,
    {
        let ghost s0 = *self;
        proof {
            assert forall|i: int| 0 <= i < s0.frames@.len() implies s0.frames@[i].spec_address()
                != page.spec_address() by {
                if s0.frames@[i].spec_address() == page.spec_address() {
                    assert(s0.holds(i, page.spec_address()));
                }
            }
        }
        self.frames.push(page);
        self.levels = Ghost(self.levels@.push(-1));
        proof {
            let n = s0.frames@.len() as int;
            assert forall|i: int, kk: int| 0 <= i < n && 0 <= kk < 512 implies #[trigger] self.entry(i, kk)
                == s0.entry(i, kk) by {
                assert(self.frames@[i] == s0.frames@[i]);
            }
            assert forall|j: int, a: u64| #[trigger] s0.holds(j, a) implies self.holds(j, a) by {
                assert(self.frames@[j] == s0.frames@[j]);
            }
            assert forall|i: int, k: int|
                0 <= i < self.frames@.len() && 0 <= k < 512 && self.is_upper(i) && pte_valid(
                    #[trigger] self.entry(i, k),
                ) implies exists|j: int|
                    self.holds(j, pte_pa(self.entry(i, k))) && #[trigger] self.levels@[j]
                        == self.levels@[i] - 1 by {
                assert(i < n);
                assert(self.entry(i, k) == s0.entry(i, k));
                assert(s0.is_upper(i));
                let j = choose|j: int|
                    s0.holds(j, pte_pa(s0.entry(i, k))) && #[trigger] s0.levels@[j] == s0.levels@[i]
                        - 1;
                assert(self.holds(j, pte_pa(self.entry(i, k))));
                assert(self.levels@[j] == s0.levels@[j] && self.levels@[i] == s0.levels@[i]);
                assert(self.holds(j, pte_pa(self.entry(i, k))) && self.levels@[j] == self.levels@[i]
                    - 1);
            }
            assert(self.wf());
            assert forall|v: u64| #[trigger] self.tables_needed(v) == s0.tables_needed(v) by {
                s0.lemma_data_page_path(*self, v);
            }
            assert forall|v: u64| #[trigger] self.leaf(v) == s0.leaf(v) by {
                s0.lemma_data_page_path(*self, v);
            }
            assert(self@ =~= s0@);
            let a0 = page.spec_address();
            assert(self.holds(n, a0));
            self.lemma_index_of(n, a0);
            assert forall|a: u64| #[trigger] self.data_pages().contains_key(a) <==> s0.data_pages().insert(
                a0, page.entries()).contains_key(a) by {
                if self.data_pages().contains_key(a) {
                    let j = choose|j: int| self.holds(j, a) && self.levels@[j] == -1;
                    if j < n {
                        assert(s0.holds(j, a));
                    }
                }
                if s0.data_pages().contains_key(a) {
                    let j = choose|j: int| s0.holds(j, a) && s0.levels@[j] == -1;
                    assert(self.holds(j, a));
                }
            }
            assert forall|a: u64| #[trigger] self.data_pages().contains_key(a) implies self.data_pages()[a]
                == s0.data_pages().insert(a0, page.entries())[a] by {
                if a != a0 {
                    let j = choose|j: int| s0.holds(j, a) && s0.levels@[j] == -1;
                    assert(self.holds(j, a));
                    s0.lemma_index_of(j, a);
                    self.lemma_index_of(j, a);
                }
            }
            assert(self.data_pages() =~= s0.data_pages().insert(a0, page.entries()));
            assert forall|a: u64| #[trigger] self.addresses().contains(a) == s0.addresses().insert(
                a0,
            ).contains(a) by {
                if self.addresses().contains(a) && a != a0 {
                    let j = choose|j: int| self.holds(j, a);
                    assert(s0.holds(j, a));
                }
                if s0.addresses().contains(a) {
                    let j = choose|j: int| s0.holds(j, a);
                    assert(self.holds(j, a));
                }
            }
            assert(self.addresses() =~= s0.addresses().insert(a0));
            assert forall|p: FramePool|
                #[trigger] s0.owned_by(p) && p.outstanding().contains(page.spec_address()) implies self.owned_by(
                    p,
                ) by {
                assert forall|i: int| 0 <= i < self.frames@.len() implies p.outstanding().contains(
                    #[trigger] self.frames@[i].spec_address()) by {
                    if i < n {
                        assert(p.outstanding().contains(s0.frames@[i].spec_address()));
                    }
                }
            }
        }
    }

    /// The paths of `self` survive in `new`, which only has a data page more.
    proof fn lemma_data_page_path(&self, new: Self, v: u64)
        requires
            self.wf(),
            new.wf(),
            self.grows_into(new),
            new.frames@.len() == self.frames@.len() + 1,
            forall|i: int, kk: int|
                0 <= i < self.frames@.len() && 0 <= kk < 512 ==> #[trigger] new.entry(i, kk)
                    == self.entry(i, kk),
        ensures
            new.tables_needed(v) == self.tables_needed(v),
            new.leaf(v) == self.leaf(v),
    {
        lemma_vpn_index_bound(v);
        let i2 = vpn_index(v, 2) as int;
        let i1 = vpn_index(v, 1) as int;
        let i0 = vpn_index(v, 0) as int;
        if pte_valid(self.entry(0, i2)) {
            self.lemma_child(0, i2);
            let j1 = self.index_of(pte_pa(self.entry(0, i2)));
            assert(new.holds(j1, pte_pa(self.entry(0, i2))));
            new.lemma_index_of(j1, pte_pa(self.entry(0, i2)));
            if pte_valid(self.entry(j1, i1)) {
                self.lemma_child(j1, i1);
                let j0 = self.index_of(pte_pa(self.entry(j1, i1)));
                assert(new.holds(j0, pte_pa(self.entry(j1, i1))));
                new.lemma_index_of(j0, pte_pa(self.entry(j1, i1)));
                assert(new.entry(j0, i0) == self.entry(j0, i0));
            }
        }
    }

    /// Gives every frame of the tree, tables and data pages, back to `pool`.
    pub fn release(self, pool: &mut FramePool)
        requires
            self.wf(),
            old(pool).wf(),
            self.owned_by(*old(pool)),
        ensures
            final(pool).wf(),
            final(pool).available() == old(pool).available() + self.frame_count(),
            forall|a: u64| #[trigger] self.addresses().contains(a) ==> !final(pool).outstanding().contains(a),
            forall|a: u64|
                !self.addresses().contains(a) ==> (#[trigger] final(pool).outstanding().contains(a)
                    == old(pool).outstanding().contains(a)),
    {
        let ghost all = self.frames@;
        let mut frames = self.frames;
        while frames.len() > 0
            invariant
                pool.wf(),
                frames@.len() <= all.len(),
                frames@ == all.subrange(0, frames@.len() as int),
                forall|i: int| 0 <= i < all.len() ==> (#[trigger] all[i]).wf(),
                forall|i: int, j: int|
                    0 <= i < all.len() && 0 <= j < all.len() && i != j ==> (#[trigger] all[i]).spec_address()
                        != (#[trigger] all[j]).spec_address(),
                forall|i: int|
                    0 <= i < frames@.len() ==> pool.outstanding().contains(
                        #[trigger] all[i].spec_address(),
                    ),
                forall|i: int|
                    frames@.len() <= i < all.len() ==> !pool.outstanding().contains(
                        #[trigger] all[i].spec_address(),
                    ),
                forall|a: u64|
                    !(exists|i: int| 0 <= i < all.len() && #[trigger] all[i].spec_address() == a)
                        ==> (#[trigger] pool.outstanding().contains(a) == old(pool).outstanding().contains(a)),
                pool.available() + frames@.len() == old(pool).available() + all.len(),
            decreases frames@.len(),
        {
            let n = frames.len();
            let f = frames.pop().unwrap();
            proof {
                assert(f == all[n - 1]);
            }
            pool.release(f);
            proof {
                assert forall|i: int| 0 <= i < frames@.len() implies pool.outstanding().contains(
                    #[trigger] all[i].spec_address()) by {
                    assert(all[i].spec_address() != all[n - 1].spec_address());
                }
            }
        }
        proof {
            assert forall|a: u64| #[trigger] self.addresses().contains(a) implies !pool.outstanding().contains(a) by {
                let i = choose|i: int| self.holds(i, a);
                assert(all[i].spec_address() == a);
            }
            assert forall|a: u64| !self.addresses().contains(a) implies (
            #[trigger] pool.outstanding().contains(a) == old(pool).outstanding().contains(a)) by {
                if exists|i: int| 0 <= i < all.len() && #[trigger] all[i].spec_address() == a {
                    let i = choose|i: int| 0 <= i < all.len() && #[trigger] all[i].spec_address() == a;
                    assert(self.holds(i, a));
                }
            }
        }
    }

    /// A walk creates at most two tables.
    pub proof fn lemma_tables_needed_at_most_two(&self, vpn: u64)
        ensures
            self.tables_needed(vpn) <= 2,
    {
    }

    /// Ownership through a pool survives the pool handing out more frames.
    pub proof fn lemma_owned_by_grows(&self, before: FramePool, after: FramePool)
        requires
            self.owned_by(before),
            before.outstanding().subset_of(after.outstanding()),
        ensures
            self.owned_by(after),
    {
        assert forall|i: int| 0 <= i < self.frames@.len() implies after.outstanding().contains(
            #[trigger] self.frames@[i].spec_address()) by {
            assert(before.outstanding().contains(self.frames@[i].spec_address()));
        }
    }
}

/// Flags of a kernel stack page.
pub const KSTACK_FLAGS: u64 = 0xf;

/// `m` after the kernel stacks of tasks `0 .. count` were mapped, each to
/// its backing pages at the top of RAM.
pub open spec fn stacks_mapped(m: Map<u64, u64>, count: nat) -> Map<u64, u64>
    decreases count,
{
    if count == 0 {
        m
    } else {
        let pid = (count - 1) as nat;
        range_mapped(
            stacks_mapped(m, pid),
            spec_kstack(pid) / 4096,
            spec_phy_kstack(pid) / 4096,
            3,
            KSTACK_FLAGS,
        )
    }
}

/// First virtual page of the kernel stack of task `pid`.
pub open spec fn stack_vpn(pid: nat) -> int {
    spec_kstack(pid) / 4096
}

/// No page of any kernel stack is mapped in `m`.
pub open spec fn stack_pages_free(m: Map<u64, u64>) -> bool {
    forall|pid: nat, i: int|
        pid < 32 && 0 <= i < 3 ==> !#[trigger] m.contains_key((stack_vpn(pid) + i) as u64)
}

impl PageTableFrame {
    /// Maps the kernel stack of every task slot, readable, writable and
    /// executable, each to its own pages taken from the top of RAM.
    pub fn map_proc_stacks(&mut self, pool: &mut FramePool) -> (r: Result<(), PageTableErr>)
        requires
            old(self).wf(),
            old(pool).wf(),
            old(self).owned_by(*old(pool)),
        ensures
            final(self).wf(),
            final(pool).wf(),
            final(self).owned_by(*final(pool)),
            r is Ok ==> final(self)@ == stacks_mapped(old(self)@, MAX_PROCESS as nat),
            r is Err ==> r == Err::<(), PageTableErr>(PageTableErr::AlreadyMap) || r == Err::<
                (),
                PageTableErr,
            >(PageTableErr::OutOfMemory),
            stack_pages_free(old(self)@) && old(pool).available() >= 192 ==> r is Ok,
            r is Ok ==> final(pool).available() + 192 >= old(pool).available(),
    {
        let mut pid: usize = 0;
        let ghost avail0 = old(pool).available();
        while pid < MAX_PROCESS
            invariant
                self.wf(),
                pool.wf(),
                self.owned_by(*pool),
                pid <= MAX_PROCESS,
                self@ == stacks_mapped(old(self)@, pid as nat),
                avail0 == old(pool).available(),
                avail0 <= pool.available() + 6 * pid,
                stack_pages_free(old(self)@) ==> forall|q: nat, i: int|
                    pid <= q < 32 && 0 <= i < 3 ==> !#[trigger] self@.contains_key(
                        (stack_vpn(q) + i) as u64,
                    ),
            decreases MAX_PROCESS - pid,
        {
            let va = kstack(pid);
            let pa = phy_kstack(pid);
            proof {
                assert(va % 4096 == 0 && pa % 4096 == 0) by (nonlinear_arith)
                    requires
                        va == TRAPFRAME - PGSZ - (pid + 1) * KSTACK_STRIDE,
                        pa == PHYSTOP - 10 * PGSZ - (pid + 1) * KSTACK_STRIDE,
                        pid < 32,
                ;
                assert(range_start(va) == va && range_start(pa) == pa);
                assert(range_end(va, KERNEL_STACK_SIZE) == va + KERNEL_STACK_SIZE);
                assert(range_pages(va, KERNEL_STACK_SIZE) == 3);
                assert(range_fits(va, pa, KERNEL_STACK_SIZE));
            }
            let ghost before = *self;
            let ghost pool_before = *pool;
            proof {
                assert(stack_vpn(pid as nat) == range_start(va) / 4096);
                if stack_pages_free(old(self)@) {
                    assert forall|i: int| 0 <= i < 3 implies !#[trigger] before@.contains_key(
                        (range_start(va) / 4096 + i) as u64) by {
                        assert(!before@.contains_key((stack_vpn(pid as nat) + i) as u64));
                    }
                }
            }
            let res = self.mappages(
                VirtualMemoryAddress(va),
                PhysicalMemoryAddress(pa),
                KERNEL_STACK_SIZE,
                PTE_FLAG_X | PTE_FLAG_R | PTE_FLAG_W | PTE_FLAG_V,
                pool,
            );
            if res.is_err() {
                proof {
                    if stack_pages_free(old(self)@) && avail0 >= 192 {
                        assert(pool_before.available() >= 6);
                    }
                }
                return res;
            }
            proof {
                assert(PTE_FLAG_X | PTE_FLAG_R | PTE_FLAG_W | PTE_FLAG_V == KSTACK_FLAGS) by (bit_vector);
                if stack_pages_free(old(self)@) {
                    assert forall|q: nat, i: int|
                        pid + 1 <= q < 32 && 0 <= i < 3 implies !#[trigger] self@.contains_key(
                            (stack_vpn(q) + i) as u64,
                        ) by {
                        assert(!before@.contains_key((stack_vpn(q) + i) as u64));
                    }
                }
            }
            pid = pid + 1;
        }
        Ok(())
    }
}

/// Round trip: once `map(va, pa, flags)` has succeeded with flags that hold
/// `V` and fit the flag field, a walk of `va` that may not create tables
/// finds a valid entry holding the page number of `pa` and exactly `flags`.
pub proof fn lemma_map_then_walk(
    before: PageTableFrame,
    after: PageTableFrame,
    va: u64,
    pa: u64,
    flags: u64,
    written: PageTableEntry,
    avail: nat,
    avail_later: nat,
)
    requires
        Ok::<PageTableEntry, PageTableErr>(written) == map_outcome(before, va, pa, flags, avail),
        after.leaf(va_vpn(va)) == Some(written.bits),
        flags & PTE_FLAG_V != 0,
        flags < 0x400,
    ensures
        walk_outcome(after, va, false, avail_later) == Ok::<u64, PageTableErr>(written.bits),
        pte_valid(written.bits),
        pte_ppn(written.bits) == pa_ppn(pa),
        pa < PA_LIMIT ==> pte_ppn(written.bits) == pa / 4096,
        pte_flags(written.bits) == flags,
{
    lemma_pa_ppn_bound(pa);
    lemma_pte_word_fields(pa_ppn(pa), flags);
    if pa < PA_LIMIT {
        lemma_pa_ppn_div(pa);
    }
}

/// `map` of a page that is already mapped is refused with `AlreadyMap`
/// whatever the target and flags (and `map` then leaves the tree as it was).
/// In particular a second `map` of a page the first one mapped is refused.
pub proof fn lemma_map_twice_refused(
    before: PageTableFrame,
    after: PageTableFrame,
    va: u64,
    pa: u64,
    flags: u64,
    written: PageTableEntry,
    avail: nat,
    pa2: u64,
    flags2: u64,
    avail2: nat,
)
    requires
        Ok::<PageTableEntry, PageTableErr>(written) == map_outcome(before, va, pa, flags, avail),
        after@ == with_leaf(before@, va_vpn(va), written.bits),
        flags & PTE_FLAG_V != 0,
        flags < 0x400,
    ensures
        after@.contains_key(va_vpn(va)),
        map_outcome(after, va, pa2, flags2, avail2) == Err::<PageTableEntry, PageTableErr>(
            PageTableErr::AlreadyMap,
        ),
{
    lemma_pa_ppn_bound(pa);
    lemma_pte_word_fields(pa_ppn(pa), flags);
}

/// `map`, then `unmap`, then `map` of the same page with another target and
/// flags: the second `map` succeeds without needing any frame, and the
/// page then translates to the second target alone.
pub proof fn lemma_map_unmap_map(
    t0: PageTableFrame,
    t1: PageTableFrame,
    t2: PageTableFrame,
    t3: PageTableFrame,
    va: u64,
    pa1: u64,
    flags1: u64,
    written1: PageTableEntry,
    avail1: nat,
    pa2: u64,
    flags2: u64,
    written2: PageTableEntry,
    avail2: nat,
    avail_later: nat,
)
    requires
        Ok::<PageTableEntry, PageTableErr>(written1) == map_outcome(t0, va, pa1, flags1, avail1),
        t1@ == with_leaf(t0@, va_vpn(va), written1.bits),
        t1.tables_needed(va_vpn(va)) == 0,
        flags1 & PTE_FLAG_V != 0,
        flags1 < 0x400,
        t2@ == t1@.remove(va_vpn(va)),
        forall|v: u64| #[trigger] t2.tables_needed(v) == t1.tables_needed(v),
        map_outcome(t2, va, pa2, flags2, avail2) == Ok::<PageTableEntry, PageTableErr>(written2)
            ==> t3@ == with_leaf(t2@, va_vpn(va), written2.bits) && t3.leaf(va_vpn(va)) == Some(
            written2.bits,
        ),
        flags2 & PTE_FLAG_V != 0,
        flags2 < 0x400,
    ensures
        map_outcome(t2, va, pa2, flags2, avail2) == Ok::<PageTableEntry, PageTableErr>(
            PageTableEntry { bits: pte_word(pa_ppn(pa2), flags2) },
        ),
        written2.bits == pte_word(pa_ppn(pa2), flags2) ==> {
            &&& walk_outcome(t3, va, false, avail_later) == Ok::<u64, PageTableErr>(written2.bits)
            &&& pte_ppn(written2.bits) == pa_ppn(pa2)
            &&& pa2 < PA_LIMIT ==> pte_ppn(written2.bits) == pa2 / 4096
            &&& pte_flags(written2.bits) == flags2
            &&& t3@ == t0@.insert(va_vpn(va), written2.bits)
        },
{
    lemma_pa_ppn_bound(pa1);
    lemma_pa_ppn_bound(pa2);
    lemma_pte_word_fields(pa_ppn(pa1), flags1);
    lemma_pte_word_fields(pa_ppn(pa2), flags2);
    assert(!t2@.contains_key(va_vpn(va)));
    if pa2 < PA_LIMIT {
        lemma_pa_ppn_div(pa2);
    }
    if written2.bits == pte_word(pa_ppn(pa2), flags2) {
        assert(t3@ =~= t0@.insert(va_vpn(va), written2.bits));
    }
}

/// After `mappages(va, pa, size, flags)` has succeeded, each of the pages of
/// the range is its own mapping: page `i` of the range is found by a walk
/// that may not create tables and points at the `i`-th page from the page of
/// `pa`, one page further than the one before, with `flags`.
pub proof fn lemma_mappages_pages(
    before: PageTableFrame,
    after: PageTableFrame,
    va: u64,
    pa: u64,
    size: u64,
    flags: u64,
    avail_later: nat,
)
    requires
        range_fits(va, pa, size),
        after@ == range_mapped(
            before@,
            range_start(va) / 4096,
            range_start(pa) / 4096,
            range_pages(va, size),
            flags,
        ),
        flags & PTE_FLAG_V != 0,
        flags < 0x400,
    ensures
        forall|i: int|
            0 <= i < range_pages(va, size) ==> {
                &&& va_vpn(range_page(va, i)) == range_start(va) / 4096 + i
                &&& #[trigger] walk_outcome(after, range_page(va, i), false, avail_later) matches Ok(e)
                    && {
                    &&& pte_valid(e)
                    &&& pte_ppn(e) == range_start(pa) / 4096 + i
                    &&& pte_flags(e) == flags
                }
            },
{
    assert forall|i: int| 0 <= i < range_pages(va, size) implies {
        &&& va_vpn(range_page(va, i)) == range_start(va) / 4096 + i
        &&& #[trigger] walk_outcome(after, range_page(va, i), false, avail_later) matches Ok(e) && {
            &&& pte_valid(e)
            &&& pte_ppn(e) == range_start(pa) / 4096 + i
            &&& pte_flags(e) == flags
        }
    } by {
        let page = (range_start(va) + i * 4096) as u64;
        assert(i * 4096 < range_end(va, size) - range_start(va)) by (nonlinear_arith)
            requires
                i < range_pages(va, size),
                range_pages(va, size) == (range_end(va, size) - range_start(va)) / 4096,
                (range_end(va, size) - range_start(va)) % 4096 == 0,
        ;
        crate::address::lemma_va_vpn_div(page);
        assert(range_start(va) % 4096 == 0);
        assert(page / 4096 == range_start(va) / 4096 + i) by {
            assert(page == range_start(va) + i * 4096);
        }
        let ppn = (range_start(pa) / 4096 + i) as u64;
        assert(ppn < 0x1000_0000_0000) by {
            assert(range_start(pa) + i * 4096 < PA_LIMIT);
        }
        lemma_pte_word_fields(ppn, flags);
        let v = va_vpn(page);
        let vpn0 = range_start(va) / 4096;
        assert(vpn0 <= v < vpn0 + range_pages(va, size));
        assert(((range_start(pa) / 4096) + v - vpn0) as u64 == ppn);
        assert(after@.contains_key(v));
        assert(after@[v] == pte_word(ppn, flags));
        assert(after.leaf(v) == Some(pte_word(ppn, flags)));
        assert(page == range_page(va, i));
    }
}

proof fn lemma_vpn_index_bound(vpn: u64)
    ensures
        vpn_index(vpn, 0) < 512,
        vpn_index(vpn, 1) < 512,
        vpn_index(vpn, 2) < 512,
{
    assert((vpn >> 0u64) & 0x1ff < 512 && (vpn >> 9u64) & 0x1ff < 512 && (vpn >> 18u64) & 0x1ff
        < 512) by (bit_vector);
}

} // verus!

//! The four-level page tables of `x86_64`.
use vstd::prelude::*;
use crate::mem::page::{FrameAllocator, MapError, Mapper, Page};
use crate::paging::entry::{frame_of, Error, Handle, HandleMut, Opts, Repr};
use crate::paging::table::{
    child_address, cleared, lemma_cleared, lemma_linked_entry, lemma_lower_levels, IndexedBy, Level,
    Pd, Pt, Tables, NUM_ENTRIES,
};
use crate::paging::{
    lemma_page_by_value, lemma_page_consts, lemma_page_sizes, FlushTlb, Physical, Size4Kb, Virtual,
};
use crate::util::{align_down_spec, is_aligned, lemma_align_bounds};
use crate::x64::page::table::entry::{Entry64, Flags};
use crate::x64::page::table::level::{lemma_upper_levels, Pdpt, Pml4};
use crate::x64::page::table::walk::{
    a1, a2, a3, answers_fit, blank, in_table, lemma_blank, lemma_map_then_translate,
    lemma_other_ways_stay, lemma_ways_apart, path_of, present, read, refusal, Outcome, Path, Tree,
};
use crate::x64::{canonical, physical, PAddr, VAddr, X86_64};

pub mod entry;
pub mod level;
pub mod walk;

verus! {

/// A table of 64-bit entries.
pub type Table<L> = crate::paging::table::Table<Entry64, L>;

/// The bits of an entry that hold the address of a frame or of a table.
pub const ADDR_MASK: u64 = 0x000f_ffff_ffff_f000;

/// The address at which the root table is visible to itself: its last entry
/// maps the root table.
pub const PML4_ADDR: u64 = 0xffff_ffff_ffff_f000;

/// The address of the table of the last level on the way that `idx` takes
/// from the root table `table`, if each of the three entries on that way is
/// present.
pub open spec fn table_below<I>(
    table: Table<Pml4>,
    idx: &I,
    pdpts: &Tables<Entry64, Pdpt>,
    pds: &Tables<Entry64, Pd>,
) -> Option<VAddr> where Pml4: IndexedBy<I>, Pdpt: IndexedBy<I>, Pd: IndexedBy<I> {
    match table.next_address(Pml4::index_spec(idx)) {
        None => None,
        Some(a3) => if !pdpts.read(a3)[Pdpt::index_spec(idx) as int].flags_of().present() {
            None
        } else {
            let a2 = child_address(a3, Pdpt::index_spec(idx));
            if !pds.read(a2)[Pd::index_spec(idx) as int].flags_of().present() {
                None
            } else {
                Some(child_address(a2, Pd::index_spec(idx)))
            }
        },
    }
}

impl Table<Pml4> {
    /// Returns a reference to the page table for the given index: `Some`
    /// exactly where the three entries on the way to it are present.
    pub fn page_table_for<'a, I>(
        &self,
        idx: &I,
        pdpts: &Tables<Entry64, Pdpt>,
        pds: &Tables<Entry64, Pd>,
        pts: &'a Tables<Entry64, Pt>,
    ) -> (r: Option<&'a Table<Pt>>) where Pml4: IndexedBy<I>, Pdpt: IndexedBy<I>, Pd: IndexedBy<I>
        requires
            Pml4::indexable(idx),
            Pdpt::indexable(idx),
            Pd::indexable(idx),
            pdpts.wf(),
            pds.wf(),
            pts.wf(),
            self.linked(pdpts),
            pdpts.linked(pds),
            pds.linked(pts),
        ensures
            match (table_below(*self, idx, pdpts, pds), r) {
                (Some(addr), Some(t)) => pts.holds(addr, *t),
                (None, None) => true,
                _ => false,
            },
    {
        match self.next_table(idx, pdpts) {
            None => None,
            Some(pdpt) => {
                proof {
                    VAddr::lemma_at_value(pdpt.address().value());
                }
                match pdpt.next_table(idx, pds) {
                    None => None,
                    Some(pd) => {
                        proof {
                            VAddr::lemma_at_value(pd.address().value());
                        }
                        pd.next_table(idx, pts)
                    },
                }
            },
        }
    }

    /// Returns a mutable reference to the page table for the given index:
    /// `Some` exactly where the three entries on the way to it are present.
    pub fn page_table_mut_for<'a, I>(
        &self,
        idx: &I,
        pdpts: &Tables<Entry64, Pdpt>,
        pds: &Tables<Entry64, Pd>,
        pts: &'a mut Tables<Entry64, Pt>,
    ) -> (r: Option<&'a mut Table<Pt>>) where
        Pml4: IndexedBy<I>,
        Pdpt: IndexedBy<I>,
        Pd: IndexedBy<I>,

        requires
            Pml4::indexable(idx),
            Pdpt::indexable(idx),
            Pd::indexable(idx),
            pdpts.wf(),
            pds.wf(),
            old(pts).wf(),
            self.linked(pdpts),
            pdpts.linked(pds),
            pds.linked(old(pts)),
        ensures
            match (table_below(*self, idx, pdpts, pds), r) {
                (Some(addr), Some(t)) => old(pts).holds(addr, *t) && old(pts).written(
                    *final(pts),
                    addr,
                    *final(t),
                ),
                (None, None) => *final(pts) == *old(pts),
                _ => false,
            },
    {
        match self.next_table(idx, pdpts) {
            None => None,
            Some(pdpt) => {
                proof {
                    VAddr::lemma_at_value(pdpt.address().value());
                }
                match pdpt.next_table(idx, pds) {
                    None => None,
                    Some(pd) => {
                        proof {
                            VAddr::lemma_at_value(pd.address().value());
                        }
                        pd.next_table_mut(idx, pts)
                    },
                }
            },
        }
    }
}

/// An address or a page indexes each of the four levels by nine bits of its
/// own: bits 39 to 47, 30 to 38, 21 to 29 and 12 to 20.
pub proof fn lemma_level_indices(addr: VAddr, page: Virtual<Size4Kb>)
    ensures
        <Pml4 as IndexedBy<VAddr>>::indexable(&addr),
        <Pdpt as IndexedBy<VAddr>>::indexable(&addr),
        <Pd as IndexedBy<VAddr>>::indexable(&addr),
        <Pt as IndexedBy<VAddr>>::indexable(&addr),
        <Pml4 as IndexedBy<VAddr>>::index_spec(&addr) == ((addr.value() >> 39) & 0x1ff) as usize,
        <Pdpt as IndexedBy<VAddr>>::index_spec(&addr) == ((addr.value() >> 30) & 0x1ff) as usize,
        <Pd as IndexedBy<VAddr>>::index_spec(&addr) == ((addr.value() >> 21) & 0x1ff) as usize,
        <Pt as IndexedBy<VAddr>>::index_spec(&addr) == ((addr.value() >> 12) & 0x1ff) as usize,
        <Pml4 as IndexedBy<Virtual<Size4Kb>>>::indexable(&page),
        <Pdpt as IndexedBy<Virtual<Size4Kb>>>::indexable(&page),
        <Pd as IndexedBy<Virtual<Size4Kb>>>::indexable(&page),
        <Pt as IndexedBy<Virtual<Size4Kb>>>::indexable(&page),
        <Pml4 as IndexedBy<Virtual<Size4Kb>>>::index_spec(&page) == <Pml4 as IndexedBy<
            VAddr,
        >>::index_spec(&page.start()),
        <Pdpt as IndexedBy<Virtual<Size4Kb>>>::index_spec(&page) == <Pdpt as IndexedBy<
            VAddr,
        >>::index_spec(&page.start()),
        <Pd as IndexedBy<Virtual<Size4Kb>>>::index_spec(&page) == <Pd as IndexedBy<
            VAddr,
        >>::index_spec(&page.start()),
        <Pt as IndexedBy<Virtual<Size4Kb>>>::index_spec(&page) == <Pt as IndexedBy<
            VAddr,
        >>::index_spec(&page.start()),
{
    lemma_upper_levels();
    lemma_lower_levels();
}

/// How a call of `map` ended.
pub open spec fn outcome_of<T, A: FrameAllocator>(r: Result<T, MapError<A, Error>>) -> Outcome {
    match r {
        Ok(_) => Outcome::Mapped,
        Err(MapError::AlreadyMapped) => Outcome::AlreadyMapped,
        Err(MapError::Alloc(_)) => Outcome::NoFrame,
        Err(MapError::Other(e)) => Outcome::Refused(e),
    }
}

/// The way of a page is the way of the address at which it starts, and
/// each index on it is an index of a table.
pub proof fn lemma_page_path(page: Virtual<Size4Kb>)
    ensures
        in_table(path_of(page.start().value())),
        path_of(page.start().value()).i4
            == <Pml4 as IndexedBy<Virtual<Size4Kb>>>::index_spec(&page),
        path_of(page.start().value()).i3
            == <Pdpt as IndexedBy<Virtual<Size4Kb>>>::index_spec(&page),
        path_of(page.start().value()).i2 == <Pd as IndexedBy<Virtual<Size4Kb>>>::index_spec(&page),
        path_of(page.start().value()).i1 == <Pt as IndexedBy<Virtual<Size4Kb>>>::index_spec(&page),
{
    lemma_level_indices(page.start(), page);
    let v = page.start().value();
    assert((v >> 39) & 0x1ff < 512 && (v >> 30) & 0x1ff < 512 && (v >> 21) & 0x1ff < 512
        && (v >> 12)
        & 0x1ff < 512) by (bit_vector);
}

/// No two pages share a way: two pages that start at different canonical
/// addresses, each on a page boundary, differ in one of their four indices.
pub proof fn lemma_pages_apart(a: Virtual<Size4Kb>, b: Virtual<Size4Kb>)
    requires
        a.start().is_canonical(),
        b.start().is_canonical(),
        is_aligned(a.start().value() as int, 4096),
        is_aligned(b.start().value() as int, 4096),
        a != b,
    ensures
        path_of(a.start().value()) != path_of(b.start().value()),
{
    let x = a.start().value();
    let y = b.start().value();
    if path_of(x) == path_of(y) {
        assert(x & 0xfff == 0 && y & 0xfff == 0) by (bit_vector)
            requires
                x % 4096 == 0,
                y % 4096 == 0,
        ;
        lemma_ways_apart(x, y);
        VAddr::lemma_value_injective(a.start(), b.start());
        Virtual::<Size4Kb>::lemma_start_injective(a, b);
    }
}

/// The page that holds the address `value`.
pub open spec fn page_of(value: u64) -> Virtual<Size4Kb> {
    Virtual::<Size4Kb>::starting_at(VAddr::at(canonical(align_down_spec(value as int,
        4096) as u64)))
}

/// The byte that `value` names within its page.
pub open spec fn offset_of(value: u64) -> u64 {
    value & 0xfff
}

/// The page tables of an address space.
///
/// The tables lie in a memory of their own, each under the address at which
/// the root table's mapping of itself shows it; the entry that maps the root
/// table is not among the entries kept here.
pub struct CurrentPageTable {
    pml4: Table<Pml4>,
    pdpts: Tables<Entry64, Pdpt>,
    pds: Tables<Entry64, Pd>,
    pts: Tables<Entry64, Pt>,
}

impl CurrentPageTable {
    /// What the tables hold.
    pub closed spec fn view(&self) -> Tree {
        Tree { pml4: self.pml4@, pdpts: self.pdpts@, pds: self.pds@, pts: self.pts@ }
    }

    /// The root table lies at its address, each table is found under its
    /// own, unwritten memory reads as blank, no entry above the last level
    /// maps a huge page, and below each present entry above the last level
    /// its table stands.
    pub closed spec fn wf(&self) -> bool {
        &&& self.pml4.address() == VAddr::at(PML4_ADDR)
        &&& self.pdpts.wf()
        &&& self.pds.wf()
        &&& self.pts.wf()
        &&& self.pdpts.blank() == blank()
        &&& self.pds.blank() == blank()
        &&& self.pts.blank() == blank()
        &&& self@.no_huge()
        &&& self.pml4.linked(&self.pdpts)
        &&& self.pdpts.linked(&self.pds)
        &&& self.pds.linked(&self.pts)
    }

    /// The entry that maps `page`, if one does.
    pub open spec fn mapping(&self, page: Virtual<Size4Kb>) -> Option<Entry64> {
        self@.mapping(path_of(page.start().value()))
    }

    /// The frame that `page` is translated to, if it is mapped.
    pub open spec fn translation(&self, page: Virtual<Size4Kb>) -> Option<Physical<Size4Kb>> {
        self@.translation(path_of(page.start().value()))
    }

    /// How many tables are missing on the way to the entry of `page`.
    pub open spec fn missing(&self, page: Virtual<Size4Kb>) -> nat {
        self@.missing(path_of(page.start().value()))
    }

    /// What holds of every other way holds of every other page: where a
    /// change left each way but the one of `page` as it was, each page that
    /// lies on another way is mapped after the change as it was before.
    pub proof fn lemma_other_pages_stay(before: Self, after: Self, page: Virtual<Size4Kb>)
        requires
            forall|q: Path|
                in_table(q) && q != path_of(page.start().value()) ==> #[trigger] after@.mapping(q)
                    == before@.mapping(q),
        ensures
            forall|other: Virtual<Size4Kb>|
                path_of(other.start().value()) != path_of(page.start().value())
                    ==> #[trigger] after.mapping(other) == before.mapping(other),
            forall|other: Virtual<Size4Kb>|
                path_of(other.start().value()) != path_of(page.start().value())
                    ==> #[trigger] after.translation(other) == before.translation(other),
    {
        assert forall|other: Virtual<Size4Kb>|
            path_of(other.start().value()) != path_of(
                page.start().value(),
            ) implies #[trigger] after.mapping(other) == before.mapping(other) by {
            lemma_page_path(other);
        }
        assert forall|other: Virtual<Size4Kb>|
            path_of(other.start().value()) != path_of(
                page.start().value(),
            ) implies #[trigger] after.translation(other) == before.translation(other) by {
            lemma_page_path(other);
        }
    }

    /// Mapping `page` to `frame` with `flags` took the tables `before` to
    /// these and ended in `r` as the answers of an allocator decide: there
    /// are answers, as many as an allocator gives that is asked for the
    /// frame of each missing table until it fails, with which the outcome
    /// and the tables are exactly those that these answers lead to, and
    /// the failure handed on is the failure they end in.
    pub open spec fn answered<A: FrameAllocator<Frame = Physical<Size4Kb>>>(
        &self,
        before: Self,
        page: Virtual<Size4Kb>,
        frame: Physical<Size4Kb>,
        flags: Flags,
        r: Result<FlushTlb<Size4Kb>, MapError<A, Error>>,
    ) -> bool {
        exists|answers: Seq<Result<Physical<Size4Kb>, A::Error>>|
            #![trigger answers_fit(answers, before.missing(page))]
            {
                &&& answers_fit(answers, before.missing(page))
                &&& outcome_of(r) == before@.outcome_with(
                    path_of(page.start().value()),
                    frame,
                    answers,
                )
                &&& r matches Err(MapError::Alloc(e)) ==> refusal(answers) == Some(e)
                &&& self@ == before@.mapped_with(
                    path_of(page.start().value()),
                    frame,
                    flags,
                    answers,
                )
            }
    }

    /// Where a change left every way as it was, each page is mapped after
    /// the change as it was before.
    pub proof fn lemma_all_pages_stay(before: Self, after: Self)
        requires
            forall|q: Path| in_table(q) ==> #[trigger] after@.mapping(q) == before@.mapping(q),
        ensures
            forall|other: Virtual<Size4Kb>|
                #[trigger] after.translation(other) == before.translation(other),
    {
        assert forall|other: Virtual<Size4Kb>| #[trigger]
            after.translation(other) == before.translation(other) by {
            lemma_page_path(other);
        }
    }

    /// In tables that are fit for use each table has its 512 entries.
    pub proof fn lemma_sized(&self)
        requires
            self.wf(),
        ensures
            self@.sized(),
    {
        self.pml4.lemma_len();
        assert forall|a: u64| #[trigger] self@.pdpts.contains_key(a) implies self@.pdpts[a].len()
            == NUM_ENTRIES by {
            self.pdpts.lemma_lens(a);
        }
        assert forall|a: u64| #[trigger] self@.pds.contains_key(a) implies self@.pds[a].len()
            == NUM_ENTRIES by {
            self.pds.lemma_lens(a);
        }
        assert forall|a: u64| #[trigger] self@.pts.contains_key(a) implies self@.pts[a].len()
            == NUM_ENTRIES by {
            self.pts.lemma_lens(a);
        }
    }

    /// An address space in which nothing is mapped.
    pub fn new() -> (space: Self)
        ensures
            space.wf(),
            space@ == Tree::empty(),
            forall|page: Virtual<Size4Kb>| #[trigger] space.mapping(page) is None,
            forall|page: Virtual<Size4Kb>| #[trigger] space.missing(page) == 3,
    {
        let zero = Entry64::from_bits(0);
        proof {
            lemma_blank();
            Entry64::lemma_of(0);
            Entry64::lemma_value_injective(zero, blank());
            assert(canonical(0xffff_ffff_ffff_f000) == 0xffff_ffff_ffff_f000) by (bit_vector);
            VAddr::lemma_at_value(PML4_ADDR);
        }
        let root = VAddr::new(PML4_ADDR);
        proof {
            VAddr::lemma_value_injective(root, VAddr::at(PML4_ADDR));
        }
        let space = CurrentPageTable {
            pml4: Table::filled(root, zero),
            pdpts: Tables::new(zero),
            pds: Tables::new(zero),
            pts: Tables::new(zero),
        };
        proof {
            assert(space@.pml4 =~= Tree::empty().pml4);
            assert forall|page: Virtual<Size4Kb>| #[trigger] space.mapping(page) is None by {
                lemma_page_path(page);
            }
            assert forall|page: Virtual<Size4Kb>| #[trigger] space.missing(page) == 3 by {
                lemma_page_path(page);
            }
        }
        space
    }

    /// Translates a virtual page to a physical frame.
    pub fn translate_page(&self, page: Virtual<Size4Kb>) -> (r: Option<Physical<Size4Kb>>)
        requires
            self.wf(),
        ensures
            r == self.translation(page),
    {
        proof {
            lemma_page_path(page);
            lemma_level_indices(page.start(), page);
            lemma_blank();
            lemma_page_sizes();
            broadcast use VAddr::lemma_at_value;

        }
        // Get the level 1 page table for the virtual page.
        match self.pml4.page_table_for(&page, &self.pdpts, &self.pds, &self.pts) {
            None => None,
            Some(page_table) => {
                // Return the frame pointed to by the entry in the level 1 table.
                let entry = Handle::<Size4Kb, Entry64>::new(page_table.index(&page));
                match entry.pointed_frame() {
                    Ok(frame) => Some(frame),
                    Err(_) => None,
                }
            },
        }
    }

    /// Modifies the page tables so that `page` maps to `frame`, with the
    /// frames among `answers` for the tables that the way to the entry of
    /// `page` lacks.
    ///
    /// The answers are what an allocator said when it was asked for the
    /// frame of each missing table in turn, until it failed. The tables made
    /// stay where a later answer is a failure. The entry is written with
    /// `flags` and marked present.
    pub fn map_with<A>(
        &mut self,
        page: Virtual<Size4Kb>,
        frame: Physical<Size4Kb>,
        flags: Flags,
        answers: Vec<Result<Physical<Size4Kb>, A::Error>>,
    ) -> (r: Result<FlushTlb<Size4Kb>, MapError<A, Error>>) where
        A: FrameAllocator<Frame = Physical<Size4Kb>>,

        requires
            old(self).wf(),
            answers_fit(answers@, old(self).missing(page)),
        ensures
            final(self).wf(),
            outcome_of(r) == old(self)@.outcome_with(
                path_of(page.start().value()),
                frame,
                answers@,
            ),
            r matches Err(MapError::Alloc(e)) ==> refusal(answers@) == Some(e),
            final(self)@ == old(self)@.mapped_with(
                path_of(page.start().value()),
                frame,
                flags,
                answers@,
            ),
            r matches Ok(update) ==> update.page() == page,
            old(self)@.map_step(
                final(self)@,
                path_of(page.start().value()),
                frame,
                flags,
                outcome_of(r),
            ),
            r is Ok && !flags.huge() ==> final(self).translation(page) == Some(frame),
            outcome_of(r) matches Outcome::Refused(e) ==> e == Error::Huge,
    {
        let mut answers = answers;
        let ghost given = answers@;
        let ghost mut given3 = answers@;
        let ghost mut given2 = answers@;
        let base = frame.base_address();
        proof {
            use_type_invariant(&base);
            use_type_invariant(&frame);
            lemma_page_sizes();
            use_type_invariant(&flags);
            lemma_page_path(page);
            lemma_level_indices(page.start(), page);
            lemma_blank();
            self.pml4.lemma_len();
            broadcast use VAddr::lemma_at_value;

        }
        let ghost pre = self@;
        let ghost p = path_of(page.start().value());
        let ghost mut reached: nat = 0;
        let ghost mut s3: Seq<Entry64> = Seq::empty();
        let ghost mut s2: Seq<Entry64> = Seq::empty();
        let ghost mut s1: Seq<Entry64> = Seq::empty();
        let outcome: Result<(), MapError<A, Error>> = match self.pml4.create_next_with::<
            A,
            Virtual<Size4Kb>,
        >(&page, &mut self.pdpts, &mut answers) {
            Err(e) => Err(e),
            Ok(pdpt) => {
                let ghost t3 = pdpt@;
                proof {
                    reached = 1;
                    s3 = t3;
                    pdpt.lemma_len();
                    assert forall|i: int| 0 <= i < NUM_ENTRIES
                        implies !(#[trigger] t3[i]).flags_of().huge() by {
                        let e = read(pre.pdpts, a3(p), i as usize);
                        lemma_cleared(e);
                    }
                }
                proof {
                    given3 = answers@;
                }
                let r3 = match pdpt.create_next_with::<A, Virtual<Size4Kb>>(
                    &page,
                    &mut self.pds,
                    &mut answers,
                ) {
                    Err(e) => Err(e),
                    Ok(pd) => {
                        let ghost t2 = pd@;
                        proof {
                            reached = 2;
                            s2 = t2;
                            pd.lemma_len();
                            assert forall|i: int| 0 <= i < NUM_ENTRIES
                                implies !(#[trigger] t2[i]).flags_of().huge() by {
                                let e = read(pre.pds, a2(p), i as usize);
                                lemma_cleared(e);
                            }
                        }
                        proof {
                            given2 = answers@;
                        }
                        let r2 = match pd.create_next_with::<A, Virtual<Size4Kb>>(
                            &page,
                            &mut self.pts,
                            &mut answers,
                        ) {
                            Err(e) => Err(e),
                            Ok(pt) => {
                                let ghost t1 = pt@;
                                proof {
                                    reached = 3;
                                    s1 = t1;
                                    pt.lemma_len();
                                }
                                let entry = pt.index_mut(&page);
                                let r1 = if entry.flags().is_present() {
                                    Err(MapError::AlreadyMapped)
                                } else {
                                    let mut handle = HandleMut::<Size4Kb, Entry64>::new(entry);
                                    match handle.set_frame(frame, flags.set_present(true)) {
                                        Err(e) => Err(MapError::Other(e)),
                                        Ok(_) => Ok(()),
                                    }
                                };
                                r1
                            },
                        };
                        proof {
                            pd.lemma_len();
                            if !present(t2[p.i2 as int]) && given2.len() > 0 && given2[0] is Ok {
                                lemma_linked_entry(t2[p.i2 as int], given2[0]->Ok_0.start());
                            }
                            assert forall|i: int| 0 <= i < NUM_ENTRIES
                                implies !(#[trigger] pd@[i]).flags_of().huge() by {}
                        }
                        r2
                    },
                };
                proof {
                    pdpt.lemma_len();
                    if !present(t3[p.i3 as int]) && given3.len() > 0 && given3[0] is Ok {
                        lemma_linked_entry(t3[p.i3 as int], given3[0]->Ok_0.start());
                    }
                    assert forall|i: int| 0 <= i < NUM_ENTRIES
                        implies !(#[trigger] pdpt@[i]).flags_of().huge() by {}
                }
                r3
            },
        };
        proof {
            self.pml4.lemma_len();
            if !present(pre.pml4[p.i4 as int]) && given.len() > 0 && given[0] is Ok {
                lemma_linked_entry(pre.pml4[p.i4 as int], given[0]->Ok_0.start());
            }
            assert forall|i: int| 0 <= i < NUM_ENTRIES
                implies !(#[trigger] self.pml4@[i]).flags_of().huge() by {}
            assert(reached < 2 ==> self.pds@ == pre.pds);
            let new = self@;
            // What each level began with: the table as it was read, or that
            // table cleared where the way came to it in this call.
            if reached >= 1 {
                assert forall|i: usize| i < NUM_ENTRIES
                    implies #[trigger] s3[i as int] == (if present(
                    pre.e4(p),
                ) {
                    read(pre.pdpts, a3(p), i)
                } else {
                    cleared(read(pre.pdpts, a3(p), i))
                }) by {}
                assert forall|i: usize| i < NUM_ENTRIES && i != p.i3 implies #[trigger] read(
                    new.pdpts,
                    a3(p),
                    i,
                ) == s3[i as int] by {}
            }
            if reached >= 2 {
                assert forall|i: usize| i < NUM_ENTRIES
                    implies #[trigger] s2[i as int] == (if present(
                    s3[p.i3 as int],
                ) {
                    read(pre.pds, a2(p), i)
                } else {
                    cleared(read(pre.pds, a2(p), i))
                }) by {}
                assert forall|i: usize| i < NUM_ENTRIES && i != p.i2 implies #[trigger] read(
                    new.pds,
                    a2(p),
                    i,
                ) == s2[i as int] by {}
            }
            if reached >= 3 {
                assert forall|i: usize| i < NUM_ENTRIES
                    implies #[trigger] s1[i as int] == (if present(
                    s2[p.i2 as int],
                ) {
                    read(pre.pts, a1(p), i)
                } else {
                    cleared(read(pre.pts, a1(p), i))
                }) by {}
                assert forall|i: usize| i < NUM_ENTRIES && i != p.i1 implies #[trigger] read(
                    new.pts,
                    a1(p),
                    i,
                ) == s1[i as int] by {}
            }
            assert forall|e: Entry64| !present(#[trigger] cleared(e)) by {
                lemma_cleared(e);
            }
            if pre.missing(p) == 3 && new.missing(p) <= 2 {
                assert forall|i: usize| i != p.i3 && i < NUM_ENTRIES implies !present(
                    #[trigger] read(new.pdpts, a3(p), i),
                ) by {}
            }
            if pre.missing(p) >= 2 && new.missing(p) <= 1 {
                assert forall|i: usize| i != p.i2 && i < NUM_ENTRIES implies !present(
                    #[trigger] read(new.pds, a2(p), i),
                ) by {}
            }
            if pre.missing(p) >= 1 && new.missing(p) == 0 {
                assert forall|i: usize| i != p.i1 && i < NUM_ENTRIES implies !present(
                    #[trigger] read(new.pts, a1(p), i),
                ) by {}
            }
            assert forall|q: Path| in_table(q) && q != p implies #[trigger] new.mapping(q)
                == pre.mapping(q) by {
                lemma_other_ways_stay(pre, new, p, q);
            }
            assert(pre.map_step(new, p, frame, flags, outcome_of(outcome))) by {
                if outcome is Ok {
                    flags.lemma_changes(true);
                    Entry64::lemma_pointing(frame.start(), flags.with_present(true));
                }
            }
            if outcome is Ok && !flags.huge() {
                lemma_map_then_translate(pre, new, p, frame, flags);
            }
            let goal = pre.mapped_with(p, frame, flags, given);
            assert(new.pml4 =~= goal.pml4);
            assert(new.pdpts =~~= goal.pdpts);
            assert(new.pds =~~= goal.pds);
            assert(new.pts =~~= goal.pts);
        }
        match outcome {
            Ok(_) => Ok(FlushTlb::new(page)),
            Err(e) => Err(e),
        }
    }

    /// Modifies the page tables so that `page` maps to `frame`.
    ///
    /// The tables that the way to the entry of `page` lacks are made first,
    /// each in a frame from `alloc`, which is asked once for each until it
    /// fails; they stay where a later step fails. The entry is then written
    /// with `flags` and marked present.
    pub fn map<A>(
        &mut self,
        page: Virtual<Size4Kb>,
        frame: Physical<Size4Kb>,
        flags: Flags,
        alloc: &mut A,
    ) -> (r: Result<FlushTlb<Size4Kb>, MapError<A, Error>>) where
        A: FrameAllocator<Frame = Physical<Size4Kb>>,

        requires
            old(self).wf(),
        ensures
            final(self).wf(),
            final(self).answered(*old(self), page, frame, flags, r),
            r matches Ok(update) ==> update.page() == page,
            old(self)@.map_step(
                final(self)@,
                path_of(page.start().value()),
                frame,
                flags,
                outcome_of(r),
            ),
            r is Ok && !flags.huge() ==> final(self).translation(page) == Some(frame),
            outcome_of(r) matches Outcome::Refused(e) ==> e == Error::Huge,
            old(self).missing(page) == 0 ==> *final(alloc) == *old(alloc),
    {
        let missing = self.missing_tables(page);
        let mut answers: Vec<Result<Physical<Size4Kb>, A::Error>> = Vec::new();
        let mut failed = false;
        while answers.len() < missing && !failed
            invariant
                missing == self.missing(page),
                missing <= 3,
                answers@.len() <= missing,
                forall|i: int| 0 <= i < answers@.len() - 1 ==> (#[trigger] answers@[i]) is Ok,
                failed <==> answers@.len() > 0 && answers@.last() is Err,
                answers@.len() == 0 ==> *alloc == *old(alloc),
            decreases missing - answers@.len() + (if failed { 0int } else { 1int }),
        {
            let answer = alloc.allocate();
            failed = answer.is_err();
            answers.push(answer);
        }
        let ghost given = answers@;
        let r = self.map_with::<A>(page, frame, flags, answers);
        assert(answers_fit(given, old(self).missing(page)));
        assert(self@ == old(self)@.mapped_with(path_of(page.start().value()), frame, flags, given));
        r
    }

    /// The tables on the way to the entry of `page`, from the root table
    /// down, as far as the way is there: what the processor has to see
    /// for `page` to be translated as these tables say.
    pub fn way(&self, page: Virtual<Size4Kb>) -> (r: (
        &Table<Pml4>,
        Option<&Table<Pdpt>>,
        Option<&Table<Pd>>,
        Option<&Table<Pt>>,
    ))
        requires
            self.wf(),
        ensures
            ({
                let p = path_of(page.start().value());
                let (root, pdpt, pd, pt) = r;
                &&& root@ == self@.pml4 && root.address().value() == PML4_ADDR
                &&& pdpt is Some <==> self.missing(page) <= 2
                &&& pdpt matches Some(t) ==> t@ == self@.pdpts[a3(p)]
                    && t.address().value() == a3(p)
                &&& pd is Some <==> self.missing(page) <= 1
                &&& pd matches Some(t) ==> t@ == self@.pds[a2(p)] && t.address().value() == a2(p)
                &&& pt is Some <==> self.missing(page) == 0
                &&& pt matches Some(t) ==> t@ == self@.pts[a1(p)] && t.address().value() == a1(p)
            }),
    {
        proof {
            lemma_page_path(page);
            lemma_level_indices(page.start(), page);
            lemma_blank();
            self.pml4.lemma_len();
            broadcast use VAddr::lemma_at_value;

        }
        match self.pml4.next_table(&page, &self.pdpts) {
            None => (&self.pml4, None, None, None),
            Some(pdpt) => match pdpt.next_table(&page, &self.pds) {
                None => (&self.pml4, Some(pdpt), None, None),
                Some(pd) => match pd.next_table(&page, &self.pts) {
                    None => (&self.pml4, Some(pdpt), Some(pd), None),
                    Some(pt) => (&self.pml4, Some(pdpt), Some(pd), Some(pt)),
                },
            },
        }
    }

    /// How many tables the way to the entry of `page` lacks.
    pub fn missing_tables(&self, page: Virtual<Size4Kb>) -> (n: usize)
        requires
            self.wf(),
        ensures
            n == self.missing(page),
            n <= 3,
    {
        proof {
            lemma_page_path(page);
            lemma_level_indices(page.start(), page);
            lemma_blank();
            self.pml4.lemma_len();
            broadcast use VAddr::lemma_at_value;

        }
        match self.pml4.next_table(&page, &self.pdpts) {
            None => 3,
            Some(pdpt) => match pdpt.next_table(&page, &self.pds) {
                None => 2,
                Some(pd) => if pd.index(&page).flags().is_present() {
                    0
                } else {
                    1
                },
            },
        }
    }

    /// Takes the mapping of the given page away and hands out the frame that
    /// the page was mapped to.
    pub fn release(&mut self, page: Virtual<Size4Kb>) -> (r: Result<Physical<Size4Kb>, Error>)
        requires
            old(self).wf(),
        ensures
            final(self).wf(),
            old(self)@.unmap_step(final(self)@, path_of(page.start().value())),
            r == match old(self).mapping(page) {
                None => Err::<Physical<Size4Kb>, Error>(Error::NotPresent),
                Some(entry) => frame_of::<Size4Kb, Entry64>(entry),
            },
    {
        proof {
            lemma_page_path(page);
            lemma_level_indices(page.start(), page);
            lemma_blank();
            lemma_page_sizes();
            self.pml4.lemma_len();
            broadcast use VAddr::lemma_at_value;

        }
        let ghost pre = self@;
        let ghost p = path_of(page.start().value());
        let found = match self.pml4.page_table_mut_for(
            &page,
            &self.pdpts,
            &self.pds,
            &mut self.pts,
        ) {
            None => Err(Error::NotPresent),
            Some(page_table) => {
                proof {
                    page_table.lemma_len();
                }
                let entry = page_table.index_mut(&page);
                let current = Handle::<Size4Kb, Entry64>::new(entry).pointed_frame();
                match current {
                    Err(e) => Err(e),
                    Ok(frame) => {
                        let flags = entry.flags().set_present(false);
                        proof {
                            lemma_cleared(*entry);
                        }
                        entry.set_flags(flags);
                        Ok(frame)
                    },
                }
            },
        };
        proof {
            let new = self@;
            assert(pre.touched_on(new, p));
            assert forall|q: Path| in_table(q) && q != p implies #[trigger] new.mapping(q)
                == pre.mapping(q) by {
                lemma_other_ways_stay(pre, new, p, q);
            }
        }
        found
    }

    /// Unmaps the given page and gives the frame that it was mapped to
    /// back to `alloc`.
    ///
    /// Where `alloc` does not take the frame back, the page is unmapped
    /// all the same and the allocator's error is returned.
    pub fn unmap<A>(&mut self, page: Virtual<Size4Kb>, alloc: &mut A) -> (r: Result<
        FlushTlb<Size4Kb>,
        MapError<A, Error>,
    >) where A: FrameAllocator<Frame = Physical<Size4Kb>>
        requires
            old(self).wf(),
        ensures
            final(self).wf(),
            old(self)@.unmap_step(final(self)@, path_of(page.start().value())),
            match old(self).mapping(page) {
                None => r matches Err(MapError::Other(e)) && e == Error::NotPresent && *final(alloc)
                    == *old(alloc),
                Some(entry) => if entry.flags_of().huge() {
                    r matches Err(MapError::Other(e)) && e == Error::Huge
                        && *final(alloc) == *old(alloc)
                } else {
                    match r {
                        Ok(update) => update.page() == page,
                        Err(MapError::Alloc(_)) => true,
                        Err(_) => false,
                    }
                },
            },
    {
        match self.release(page) {
            Err(e) => Err(MapError::Other(e)),
            Ok(frame) => match alloc.dealloc(frame) {
                Err(e) => Err(MapError::Alloc(e)),
                Ok(_) => Ok(FlushTlb::new(page)),
            },
        }
    }

    /// Updates the flags on the given `page`, which keeps its frame.
    pub fn set_flags(&mut self, page: Virtual<Size4Kb>, flags: Flags) -> (r: Result<
        FlushTlb<Size4Kb>,
        Error,
    >)
        requires
            old(self).wf(),
        ensures
            final(self).wf(),
            old(self)@.set_flags_step(final(self)@, path_of(page.start().value()), flags),
            match old(self).mapping(page) {
                None => r == Err::<FlushTlb<Size4Kb>, Error>(Error::NotPresent),
                Some(_) => r matches Ok(update) && update.page() == page,
            },
    {
        proof {
            lemma_page_path(page);
            lemma_level_indices(page.start(), page);
            lemma_blank();
            self.pml4.lemma_len();
            broadcast use VAddr::lemma_at_value;

        }
        let ghost pre = self@;
        let ghost p = path_of(page.start().value());
        let found = match self.pml4.page_table_mut_for(
            &page,
            &self.pdpts,
            &self.pds,
            &mut self.pts,
        ) {
            None => false,
            Some(page_table) => {
                proof {
                    page_table.lemma_len();
                }
                let entry = page_table.index_mut(&page);
                if entry.flags().is_present() {
                    entry.set_flags(flags);
                    true
                } else {
                    false
                }
            },
        };
        proof {
            let new = self@;
            assert(pre.touched_on(new, p));
            assert forall|q: Path| in_table(q) && q != p implies #[trigger] new.mapping(q)
                == pre.mapping(q) by {
                lemma_other_ways_stay(pre, new, p, q);
            }
        }
        if found {
            Ok(FlushTlb::new(page))
        } else {
            Err(Error::NotPresent)
        }
    }

    /// Translates a virtual address to the corresponding physical address:
    /// the frame of its page, and in it the byte that the address names in
    /// the page.
    pub fn translate(&self, vaddr: VAddr) -> (r: Option<PAddr>)
        requires
            self.wf(),
        ensures
            r == match self.translation(page_of(vaddr.value())) {
                Some(frame) => Some(
                    PAddr::at((frame.start().value() + offset_of(vaddr.value())) as u64),
                ),
                None => None,
            },
    {
        proof {
            lemma_page_sizes();
            lemma_page_consts::<VAddr, Size4Kb>();
            lemma_page_consts::<PAddr, Size4Kb>();
        }
        let page = Virtual::<Size4Kb>::from_addr_down(vaddr);
        proof {
            lemma_page_by_value(page, page.start().value());
        }
        match self.translate_page(page) {
            None => None,
            Some(frame) => {
                let base = frame.base_address().as_u64();
                let offset = vaddr.as_u64() & 0xfff;
                proof {
                    let e = self.mapping(page)->Some_0;
                    e.lemma_parts();
                    let a = e.addr_of().value();
                    lemma_align_bounds(a as int, 4096);
                    assert(a % 4096 == 0 ==> align_down_spec(a as int, 4096) == a);
                    PAddr::lemma_at_value(physical(a));
                    Physical::<Size4Kb>::lemma_starting_at(PAddr::at(physical(a)));
                    assert(base == a);
                    let raw = vaddr.value();
                    assert(base + offset <= 0x000f_ffff_ffff_ffff && ((base + offset) as u64)
                        & 0x000f_ffff_ffff_ffff == base + offset) by (bit_vector)
                        requires
                            base & 0x000f_ffff_ffff_ffff == base,
                            base % 4096 == 0,
                            offset == raw & 0xfff,
                    ;
                }
                let addr = PAddr::new(base + offset);
                proof {
                    PAddr::lemma_at_value((base + offset) as u64);
                    PAddr::lemma_value_injective(addr, PAddr::at((base + offset) as u64));
                }
                Some(addr)
            },
        }
    }

    /// Identity maps a given `frame`: the page whose address is the frame's
    /// address, made canonical, comes to map to the frame.
    pub fn identity_map<A>(&mut self, frame: Physical<Size4Kb>, flags: Flags, alloc: &mut A) -> (r:
        Result<FlushTlb<Size4Kb>, MapError<A, Error>>) where
        A: FrameAllocator<Frame = Physical<Size4Kb>>,

        requires
            old(self).wf(),
        ensures
            final(self).wf(),
            final(self).answered(
                *old(self),
                page_of(canonical(frame.start().value())),
                frame,
                flags,
                r,
            ),
            old(self)@.map_step(
                final(self)@,
                path_of(page_of(canonical(frame.start().value())).start().value()),
                frame,
                flags,
                outcome_of(r),
            ),
            r matches Ok(update) ==> update.page() == page_of(canonical(frame.start().value())),
            r is Ok && !flags.huge() ==> final(self).translation(
                page_of(canonical(frame.start().value())),
            ) == Some(frame),
            outcome_of(r) matches Outcome::Refused(e) ==> e == Error::Huge,
            old(self).missing(page_of(canonical(frame.start().value()))) == 0 ==> *final(alloc)
                == *old(alloc),
    {
        proof {
            lemma_page_sizes();
            lemma_page_consts::<VAddr, Size4Kb>();
        }
        let page = Virtual::<Size4Kb>::from_addr_down(VAddr::new(frame.base_address().as_u64()));
        proof {
            lemma_page_by_value(page, page.start().value());
        }
        self.map(page, frame, flags, alloc)
    }

    /// Maps the given page to any free frame: one that `alloc` hands out.
    ///
    /// Where the page cannot be mapped, the frame is given back to `alloc`;
    /// where `alloc` does not take it back, its error is returned.
    pub fn map_to_any<A>(&mut self, page: Virtual<Size4Kb>, flags: Flags, alloc: &mut A) -> (r:
        Result<FlushTlb<Size4Kb>, MapError<A, Error>>) where
        A: FrameAllocator<Frame = Physical<Size4Kb>>,

        requires
            old(self).wf(),
        ensures
            final(self).wf(),
            old(self)@.map_any_step(
                final(self)@,
                path_of(page.start().value()),
                flags,
                outcome_of(r),
            ),
            outcome_of(r) matches Outcome::Refused(e)
                ==> e == Error::Huge && final(self).missing(page)
                == 0 && final(self)@.e1(path_of(page.start().value())).flags_of().huge(),
            forall|q: Path|
                in_table(q) && q != path_of(page.start().value())
                    ==> #[trigger] final(self)@.mapping(q) == old(self)@.mapping(q),
            match r {
                Ok(update) => {
                    &&& update.page() == page
                    &&& old(self).mapping(page) is None
                    &&& final(self).mapping(page) matches Some(entry)
                    &&& entry == Entry64::pointing(entry.addr_of(), flags.with_present(true))
                    &&& entry.flags_of() == flags.with_present(true)
                    &&& !flags.huge() ==> final(self).translation(page) is Some
                },
                Err(MapError::AlreadyMapped) => old(self).mapping(page) is Some
                    && final(self).mapping(page) == old(self).mapping(page),
                Err(_) => final(self).mapping(page) == old(self).mapping(page),
            },
    {
        match alloc.allocate() {
            Err(e) => Err(MapError::Alloc(e)),
            Ok(frame) => {
                let ghost start = frame.start();
                let base = frame.base_address();
                proof {
                    use_type_invariant(&base);
                    use_type_invariant(&frame);
                    use_type_invariant(&flags);
                    lemma_page_sizes();
                }
                let ghost pre = self@;
                let ghost p = path_of(page.start().value());
                let mapped = self.map(page, frame, flags, alloc);
                assert(pre.map_step(self@, p, frame, flags, outcome_of(mapped)));
                match mapped {
                    Ok(update) => {
                        proof {
                            flags.lemma_changes(true);
                            Entry64::lemma_pointing(start, flags.with_present(true));
                        }
                        Ok(update)
                    },
                    Err(e) => match alloc.dealloc(frame) {
                        Ok(_) => Err(e),
                        Err(lost) => Err(MapError::Alloc(lost)),
                    },
                }
            },
        }
    }
}

impl Mapper<Virtual<Size4Kb>, Physical<Size4Kb>> for CurrentPageTable {
    type Arch = X86_64;

    type Flags = Flags;

    type Update = FlushTlb<Size4Kb>;

    type Error = Error;

    open spec fn valid(&self) -> bool {
        self.wf()
    }

    open spec fn mapped_frame(&self, page: Virtual<Size4Kb>) -> Option<Physical<Size4Kb>> {
        self.translation(page)
    }

    fn translate(&self, vaddr: VAddr) -> (r: Option<PAddr>)
        ensures
            r == match self.translation(page_of(vaddr.value())) {
                Some(frame) => Some(
                    PAddr::at((frame.start().value() + offset_of(vaddr.value())) as u64),
                ),
                None => None,
            },
    {
        CurrentPageTable::translate(self, vaddr)
    }

    fn translate_page(&self, page: Virtual<Size4Kb>) -> (r: Option<Physical<Size4Kb>>) {
        CurrentPageTable::translate_page(self, page)
    }

    fn map<A>(
        &mut self,
        page: Virtual<Size4Kb>,
        frame: Physical<Size4Kb>,
        flags: Flags,
        alloc: &mut A,
    ) -> (r: Result<FlushTlb<Size4Kb>, MapError<A, Error>>) where
        A: FrameAllocator<Frame = Physical<Size4Kb>>,

        ensures
            final(self).answered(*old(self), page, frame, flags, r),
            old(self)@.map_step(
                final(self)@,
                path_of(page.start().value()),
                frame,
                flags,
                outcome_of(r),
            ),
            r matches Ok(update) ==> update.page() == page,
            r is Ok && !flags.huge() ==> final(self).translation(page) == Some(frame),
            outcome_of(r) matches Outcome::Refused(e) ==> e == Error::Huge,
            old(self).missing(page) == 0 ==> *final(alloc) == *old(alloc),
    {
        let ghost before = *self;
        let r = CurrentPageTable::map(self, page, frame, flags, alloc);
        proof {
            lemma_page_path(page);
            if r is Err {
                Self::lemma_all_pages_stay(before, *self);
            }
        }
        r
    }

    fn identity_map<A>(&mut self, frame: Physical<Size4Kb>, flags: Flags, alloc: &mut A) -> (r:
        Result<FlushTlb<Size4Kb>, MapError<A, Error>>) where
        A: FrameAllocator<Frame = Physical<Size4Kb>>,

        ensures
            final(self).answered(
                *old(self),
                page_of(canonical(frame.start().value())),
                frame,
                flags,
                r,
            ),
            old(self)@.map_step(
                final(self)@,
                path_of(page_of(canonical(frame.start().value())).start().value()),
                frame,
                flags,
                outcome_of(r),
            ),
            r matches Ok(update) ==> update.page() == page_of(canonical(frame.start().value())),
            r is Ok && !flags.huge() ==> final(self).translation(
                page_of(canonical(frame.start().value())),
            ) == Some(frame),
            outcome_of(r) matches Outcome::Refused(e) ==> e == Error::Huge,
    {
        let ghost before = *self;
        let r = CurrentPageTable::identity_map(self, frame, flags, alloc);
        proof {
            lemma_page_path(page_of(canonical(frame.start().value())));
            if r is Err {
                Self::lemma_all_pages_stay(before, *self);
            }
        }
        r
    }

    fn map_to_any<A>(&mut self, page: Virtual<Size4Kb>, flags: Flags, alloc: &mut A) -> (r: Result<
        FlushTlb<Size4Kb>,
        MapError<A, Error>,
    >) where A: FrameAllocator<Frame = Physical<Size4Kb>>
        ensures
            old(self)@.map_any_step(
                final(self)@,
                path_of(page.start().value()),
                flags,
                outcome_of(r),
            ),
            outcome_of(r) matches Outcome::Refused(e)
                ==> e == Error::Huge && final(self).missing(page)
                == 0 && final(self)@.e1(path_of(page.start().value())).flags_of().huge(),
            forall|q: Path|
                in_table(q) && q != path_of(page.start().value())
                    ==> #[trigger] final(self)@.mapping(q) == old(self)@.mapping(q),
            match r {
                Ok(update) => {
                    &&& update.page() == page
                    &&& old(self).mapping(page) is None
                    &&& final(self).mapping(page) matches Some(entry)
                    &&& entry == Entry64::pointing(entry.addr_of(), flags.with_present(true))
                    &&& entry.flags_of() == flags.with_present(true)
                    &&& !flags.huge() ==> final(self).translation(page) is Some
                },
                Err(MapError::AlreadyMapped) => old(self).mapping(page) is Some
                    && final(self).mapping(page) == old(self).mapping(page),
                Err(_) => final(self).mapping(page) == old(self).mapping(page),
            },
    {
        let ghost before = *self;
        let r = CurrentPageTable::map_to_any(self, page, flags, alloc);
        proof {
            lemma_page_path(page);
            if r is Err {
                Self::lemma_all_pages_stay(before, *self);
            }
        }
        r
    }

    fn unmap<A>(&mut self, page: Virtual<Size4Kb>, alloc: &mut A) -> (r: Result<
        FlushTlb<Size4Kb>,
        MapError<A, Error>,
    >) where A: FrameAllocator<Frame = Physical<Size4Kb>>
        ensures
            old(self)@.unmap_step(final(self)@, path_of(page.start().value())),
            r matches Ok(update) ==> update.page() == page,
    {
        proof {
            lemma_page_path(page);
        }
        CurrentPageTable::unmap(self, page, alloc)
    }

    fn set_flags(&mut self, page: Virtual<Size4Kb>, flags: Flags) -> (r: Result<
        FlushTlb<Size4Kb>,
        Error,
    >)
        ensures
            old(self)@.set_flags_step(final(self)@, path_of(page.start().value()), flags),
            r matches Ok(update) ==> update.page() == page,
    {
        let ghost before = *self;
        let r = CurrentPageTable::set_flags(self, page, flags);
        proof {
            lemma_page_path(page);
            if r is Err {
                Self::lemma_all_pages_stay(before, *self);
            }
        }
        r
    }
}

} // verus!

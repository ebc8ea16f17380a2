//! The way that the hardware takes through the four levels of tables, as
//! mathematics: what the tables hold, which entries an address leads
//! through, and what a change on one way leaves of the others.
use vstd::prelude::*;
use crate::paging::entry::{frame_of, Error, Opts, Repr, FRAME_ALIGN};
use crate::paging::table::{
    child_value, cleared, index_at, lemma_cleared, lemma_linked_entry, linked_entry, NUM_ENTRIES,
};
use crate::paging::{lemma_frame_by_value, lemma_page_sizes, Physical, Size4Kb};
use crate::util::{align_down_spec, is_aligned, lemma_align_bounds};
use crate::x64::{canonical, PAddr};
use crate::x64::page::table::entry::{Entry64, Flags};
use crate::x64::page::table::PML4_ADDR;

verus! {

/// The four indices of an address, from the root table down.
pub struct Path {
    pub i4: usize,
    pub i3: usize,
    pub i2: usize,
    pub i1: usize,
}

/// The way that the address `value` takes: nine bits for each level.
pub open spec fn path_of(value: u64) -> Path {
    Path {
        i4: index_at(value, 39, 0x1ff),
        i3: index_at(value, 30, 0x1ff),
        i2: index_at(value, 21, 0x1ff),
        i1: index_at(value, 12, 0x1ff),
    }
}

/// The entry that unwritten memory reads as.
pub open spec fn blank() -> Entry64 {
    Entry64::of(0)
}

/// Entry `i` of the table at `a`; unwritten memory reads as blank.
pub open spec fn read(tables: Map<u64, Seq<Entry64>>, a: u64, i: usize) -> Entry64 {
    if tables.contains_key(a) {
        tables[a][i as int]
    } else {
        blank()
    }
}

/// The entry is present.
pub open spec fn present(entry: Entry64) -> bool {
    entry.flags_of().present()
}

/// Unwritten memory holds no mapping, and no huge page.
pub proof fn lemma_blank()
    ensures
        !present(blank()),
        !blank().flags_of().huge(),
{
    Entry64::lemma_of(0);
    Flags::lemma_of(0);
    assert((0u64 & 0x8000_0000_0000_01ff) & 1 != 1) by (bit_vector);
    assert((0u64 & 0x8000_0000_0000_01ff) & 0x80 != 0x80) by (bit_vector);
}

/// The tables of an address space: the root table, and the tables of each
/// level below it by the number of the address at which each is visible.
pub struct Tree {
    pub pml4: Seq<Entry64>,
    pub pdpts: Map<u64, Seq<Entry64>>,
    pub pds: Map<u64, Seq<Entry64>>,
    pub pts: Map<u64, Seq<Entry64>>,
}

/// The address of the table of level 3 on the way `p`.
pub open spec fn a3(p: Path) -> u64 {
    child_value(PML4_ADDR, p.i4 as u64)
}

/// The address of the table of level 2 on the way `p`.
pub open spec fn a2(p: Path) -> u64 {
    child_value(a3(p), p.i3 as u64)
}

/// The address of the table of level 1 on the way `p`.
pub open spec fn a1(p: Path) -> u64 {
    child_value(a2(p), p.i2 as u64)
}

/// Each index of the way is an index of a table.
pub open spec fn in_table(p: Path) -> bool {
    p.i4 < NUM_ENTRIES && p.i3 < NUM_ENTRIES && p.i2 < NUM_ENTRIES && p.i1 < NUM_ENTRIES
}

impl Tree {
    /// The entry of the root table on the way `p`.
    pub open spec fn e4(self, p: Path) -> Entry64 {
        self.pml4[p.i4 as int]
    }

    /// The entry of level 3 on the way `p`.
    pub open spec fn e3(self, p: Path) -> Entry64 {
        read(self.pdpts, a3(p), p.i3)
    }

    /// The entry of level 2 on the way `p`.
    pub open spec fn e2(self, p: Path) -> Entry64 {
        read(self.pds, a2(p), p.i2)
    }

    /// The entry of level 1 on the way `p`: the one that maps a page.
    pub open spec fn e1(self, p: Path) -> Entry64 {
        read(self.pts, a1(p), p.i1)
    }

    /// How many tables the way `p` lacks before it reaches the last level.
    pub open spec fn missing(self, p: Path) -> nat {
        if !present(self.e4(p)) {
            3
        } else if !present(self.e3(p)) {
            2
        } else if !present(self.e2(p)) {
            1
        } else {
            0
        }
    }

    /// The entry that maps the page on the way `p`, if the way is complete
    /// and the entry present.
    pub open spec fn mapping(self, p: Path) -> Option<Entry64> {
        if self.missing(p) == 0 && present(self.e1(p)) {
            Some(self.e1(p))
        } else {
            None
        }
    }

    /// The frame that the page on the way `p` is translated to.
    pub open spec fn translation(self, p: Path) -> Option<Physical<Size4Kb>> {
        match self.mapping(p) {
            Some(e) => match frame_of::<Size4Kb, Entry64>(e) {
                Ok(frame) => Some(frame),
                Err(_) => None,
            },
            None => None,
        }
    }

    /// No entry above the last level maps a huge page.
    pub open spec fn no_huge(self) -> bool {
        &&& forall|i: int| 0 <= i < NUM_ENTRIES ==> !(#[trigger] self.pml4[i]).flags_of().huge()
        &&& forall|a: u64, i: int|
            self.pdpts.contains_key(a) && 0 <= i < NUM_ENTRIES
                ==> !(#[trigger] self.pdpts[a][i]).flags_of().huge()
        &&& forall|a: u64, i: int|
            self.pds.contains_key(a) && 0 <= i < NUM_ENTRIES
                ==> !(#[trigger] self.pds[a][i]).flags_of().huge()
    }

    /// The tables `new` differ from these at most in what the way `p`
    /// leads through: outside that way every entry is as it was, an entry
    /// on the way that was present is as it was, and a table that the way
    /// has come to reach holds no present entry beside the way.
    pub open spec fn touched_on(self, new: Tree, p: Path) -> bool {
        &&& forall|i: int| 0 <= i < NUM_ENTRIES && i != p.i4 ==> new.pml4[i] == self.pml4[i]
        &&& present(self.e4(p)) ==> new.e4(p) == self.e4(p)
        &&& forall|a: u64, i: usize|
            a != a3(p) && i < NUM_ENTRIES ==> #[trigger] read(new.pdpts, a, i) == read(
                self.pdpts,
                a,
                i,
            )
        &&& forall|a: u64, i: usize|
            a != a2(p) && i < NUM_ENTRIES ==> #[trigger] read(new.pds, a, i) == read(self.pds, a, i)
        &&& forall|a: u64, i: usize|
            a != a1(p) && i < NUM_ENTRIES ==> #[trigger] read(new.pts, a, i) == read(self.pts, a, i)
        &&& self.missing(p) <= 2 ==> forall|i: usize|
            i != p.i3 && i < NUM_ENTRIES ==> #[trigger] read(new.pdpts, a3(p), i) == read(
                self.pdpts,
                a3(p),
                i,
            )
        &&& self.missing(p) <= 1 ==> new.e3(p) == self.e3(p)
        &&& self.missing(p) <= 1 ==> forall|i: usize|
            i != p.i2 && i < NUM_ENTRIES ==> #[trigger] read(new.pds, a2(p), i) == read(
                self.pds,
                a2(p),
                i,
            )
        &&& self.missing(p) == 0 ==> new.e2(p) == self.e2(p)
        &&& self.missing(p) == 0 ==> forall|i: usize|
            i != p.i1 && i < NUM_ENTRIES ==> #[trigger] read(new.pts, a1(p), i) == read(
                self.pts,
                a1(p),
                i,
            )
        &&& self.missing(p) == 3 && new.missing(p) <= 2 ==> forall|i: usize|
            i != p.i3 && i < NUM_ENTRIES ==> !present(#[trigger] read(new.pdpts, a3(p), i))
        &&& self.missing(p) >= 2 && new.missing(p) <= 1 ==> forall|i: usize|
            i != p.i2 && i < NUM_ENTRIES ==> !present(#[trigger] read(new.pds, a2(p), i))
        &&& self.missing(p) >= 1 && new.missing(p) == 0 ==> forall|i: usize|
            i != p.i1 && i < NUM_ENTRIES ==> !present(#[trigger] read(new.pts, a1(p), i))
    }
}

/// The table that is read at `a`; unwritten memory reads as blank.
pub open spec fn table_at(tables: Map<u64, Seq<Entry64>>, a: u64) -> Seq<Entry64> {
    if tables.contains_key(a) {
        tables[a]
    } else {
        Seq::new(NUM_ENTRIES as nat, |i: int| blank())
    }
}

/// The table `table` with each entry cleared.
pub open spec fn cleared_table(table: Seq<Entry64>) -> Seq<Entry64> {
    table.map_values(|e: Entry64| cleared(e))
}

impl Tree {
    /// These tables when the first table that the way `p` lacks has been
    /// made in the frame at `addr`: the entry above it leads to the frame,
    /// and the table holds what its memory held, cleared. Nothing changes
    /// where the way lacks no table.
    pub open spec fn grown(self, p: Path, addr: PAddr) -> Tree {
        if !present(self.e4(p)) {
            Tree {
                pml4: self.pml4.update(p.i4 as int, linked_entry(self.e4(p), addr)),
                pdpts: self.pdpts.insert(a3(p), cleared_table(table_at(self.pdpts, a3(p)))),
                pds: self.pds,
                pts: self.pts,
            }
        } else if !present(self.e3(p)) {
            Tree {
                pml4: self.pml4,
                pdpts: self.pdpts.insert(
                    a3(p),
                    table_at(self.pdpts, a3(p)).update(p.i3 as int, linked_entry(self.e3(p), addr)),
                ),
                pds: self.pds.insert(a2(p), cleared_table(table_at(self.pds, a2(p)))),
                pts: self.pts,
            }
        } else if !present(self.e2(p)) {
            Tree {
                pml4: self.pml4,
                pdpts: self.pdpts,
                pds: self.pds.insert(
                    a2(p),
                    table_at(self.pds, a2(p)).update(p.i2 as int, linked_entry(self.e2(p), addr)),
                ),
                pts: self.pts.insert(a1(p), cleared_table(table_at(self.pts, a1(p)))),
            }
        } else {
            self
        }
    }

    /// These tables with `entry` written where the page on the way `p` has
    /// its entry.
    pub open spec fn with_entry(self, p: Path, entry: Entry64) -> Tree {
        Tree {
            pml4: self.pml4,
            pdpts: self.pdpts,
            pds: self.pds,
            pts: self.pts.insert(a1(p), table_at(self.pts, a1(p)).update(p.i1 as int, entry)),
        }
    }

    /// These tables when each frame among `answers` has been used, in
    /// order, for the next table that the way `p` lacks.
    pub open spec fn grown_with<E>(self, p: Path, answers: Seq<Result<Physical<Size4Kb>,
        E>>) -> Tree {
        let one = if answers.len() >= 1 && answers[0] is Ok {
            self.grown(p, answers[0]->Ok_0.start())
        } else {
            self
        };
        let two = if answers.len() >= 2 && answers[1] is Ok {
            one.grown(p, answers[1]->Ok_0.start())
        } else {
            one
        };
        if answers.len() >= 3 && answers[2] is Ok {
            two.grown(p, answers[2]->Ok_0.start())
        } else {
            two
        }
    }

    /// How mapping the page on the way `p` to `frame` ends when an
    /// allocator gives `answers` where it is asked for the frames of the
    /// missing tables: without a frame where the answers end in a failure,
    /// and else as the tables settle it once they are made.
    pub open spec fn outcome_with<E>(
        self,
        p: Path,
        frame: Physical<Size4Kb>,
        answers: Seq<Result<Physical<Size4Kb>, E>>,
    ) -> Outcome {
        if refusal(answers) is Some {
            Outcome::NoFrame
        } else {
            self.grown_with(p, answers).settled(p, frame)
        }
    }

    /// The tables that mapping the page on the way `p` to `frame` with
    /// `flags` leaves when an allocator gives `answers`: the tables made
    /// in the frames handed out, and the page's entry written where
    /// the mapping succeeds.
    pub open spec fn mapped_with<E>(
        self,
        p: Path,
        frame: Physical<Size4Kb>,
        flags: Flags,
        answers: Seq<Result<Physical<Size4Kb>, E>>,
    ) -> Tree {
        if self.outcome_with(p, frame, answers) == Outcome::Mapped {
            self.grown_with(p, answers).with_entry(
                p,
                Entry64::pointing(frame.start(), flags.with_present(true)),
            )
        } else {
            self.grown_with(p, answers)
        }
    }
}

/// The answers are those of an allocator that was asked for a frame once
/// for each of `missing` tables, in order, until it failed: no more than
/// `missing`, each but the last a frame, and fewer only after a failure.
pub open spec fn answers_fit<E>(answers: Seq<Result<Physical<Size4Kb>, E>>, missing: nat) -> bool {
    &&& answers.len() <= missing
    &&& forall|i: int| 0 <= i < answers.len() - 1 ==> (#[trigger] answers[i]) is Ok
    &&& answers.len() < missing ==> answers.len() > 0 && answers.last() is Err
}

/// The failure that the answers end in, if they end in one.
pub open spec fn refusal<E>(answers: Seq<Result<Physical<Size4Kb>, E>>) -> Option<E> {
    if answers.len() > 0 && answers.last() is Err {
        Some(answers.last()->Err_0)
    } else {
        None
    }
}

/// The frame starts at a physical address on a frame boundary.
pub open spec fn on_frame_boundary(frame: Physical<Size4Kb>) -> bool {
    frame.start().is_physical() && is_aligned(frame.start().value() as int, FRAME_ALIGN as int)
}

/// How an attempt to map a page ends.
pub enum Outcome {
    /// The page is mapped now.
    Mapped,
    /// The page was mapped before.
    AlreadyMapped,
    /// The allocator had no frame for a table.
    NoFrame,
    /// An entry refused the change.
    Refused(Error),
}

impl Tree {
    /// How mapping the page on the way `p` to `frame` ends where the way
    /// lacks no table: then no allocator is asked.
    pub open spec fn settled(self, p: Path, frame: Physical<Size4Kb>) -> Outcome {
        if present(self.e1(p)) {
            Outcome::AlreadyMapped
        } else if self.e1(p).flags_of().huge() {
            Outcome::Refused(Error::Huge)
        } else if !is_aligned(frame.start().value() as int, FRAME_ALIGN as int) {
            Outcome::Refused(Error::NotAligned)
        } else {
            Outcome::Mapped
        }
    }

    /// Mapping the page on the way `p` to `frame` with `flags` can take
    /// these tables to `new` and end in `outcome`.
    ///
    /// Whatever the outcome, every other way is as it was. Only success
    /// changes what the page is mapped to: from nothing to an entry that
    /// points to `frame` with `flags` and is present. The mapping is
    /// refused only when every table is there: by an entry marked as a huge
    /// page, or for a frame that starts on no frame boundary. It ends
    /// without a frame only while a table is missing.
    pub open spec fn map_step(
        self,
        new: Tree,
        p: Path,
        frame: Physical<Size4Kb>,
        flags: Flags,
        outcome: Outcome,
    ) -> bool {
        &&& forall|q: Path| in_table(q) && q != p ==> #[trigger] new.mapping(q) == self.mapping(q)
        &&& match outcome {
            Outcome::Mapped => {
                &&& self.mapping(p) is None
                &&& new.missing(p) == 0
                &&& new.mapping(p) == Some(Entry64::pointing(frame.start(),
                    flags.with_present(true)))
                &&& is_aligned(frame.start().value() as int, FRAME_ALIGN as int)
            },
            Outcome::AlreadyMapped => self.mapping(p) is Some && new.mapping(p) == self.mapping(p),
            Outcome::NoFrame => self.missing(p) > 0 && new.missing(p) > 0,
            Outcome::Refused(e) => {
                &&& self.mapping(p) is None
                &&& new.mapping(p) is None
                &&& new.missing(p) == 0
                &&& if e == Error::Huge {
                    new.e1(p).flags_of().huge()
                } else {
                    e == Error::NotAligned && !is_aligned(
                        frame.start().value() as int,
                        FRAME_ALIGN as int,
                    )
                }
            },
        }
        &&& new.missing(p) <= self.missing(p)
        &&& self.missing(p) == 0 ==> outcome == self.settled(p, frame)
    }

    /// Mapping the page on the way `p` with `flags` to a frame that an
    /// allocator hands out can take these tables to `new` and end in
    /// `outcome`.
    ///
    /// Where the allocator has a frame for the page, which starts on a frame
    /// boundary as every frame does, the tables change as they do when the
    /// page is mapped to that frame, and the outcome is the outcome of that,
    /// unless the page was not mapped and the allocator did not take the
    /// frame back. Where the allocator has none, the tables are as they
    /// were.
    pub open spec fn map_any_step(
        self,
        new: Tree,
        p: Path,
        flags: Flags,
        outcome: Outcome,
    ) -> bool {
        ||| exists|frame: Physical<Size4Kb>|
            on_frame_boundary(frame) && #[trigger] self.map_step(new, p, frame, flags, outcome)
        ||| outcome == Outcome::NoFrame && exists|frame: Physical<Size4Kb>, failed: Outcome|
            failed != Outcome::Mapped && on_frame_boundary(frame) && #[trigger] self.map_step(
                new,
                p,
                frame,
                flags,
                failed,
            )
        ||| outcome == Outcome::NoFrame && new == self
    }
}

impl Tree {
    /// Taking the mapping of the page on the way `p` away can take these
    /// tables to `new`: every other way is as it was. Where the page was
    /// mapped, and not as a huge page, it is mapped no more.
    pub open spec fn unmap_step(self, new: Tree, p: Path) -> bool {
        &&& forall|q: Path| in_table(q) && q != p ==> #[trigger] new.mapping(q) == self.mapping(q)
        &&& match self.mapping(p) {
            Some(e) => if e.flags_of().huge() {
                new.mapping(p) == self.mapping(p)
            } else {
                new.mapping(p) is None
            },
            None => new.mapping(p) is None,
        }
    }

    /// Rewriting the flags of the page on the way `p` can take these tables
    /// to `new`: every other way is as it was. Where the page was mapped,
    /// its entry keeps its address and has `flags` now.
    pub open spec fn set_flags_step(self, new: Tree, p: Path, flags: Flags) -> bool {
        &&& forall|q: Path| in_table(q) && q != p ==> #[trigger] new.mapping(q) == self.mapping(q)
        &&& new.missing(p) == self.missing(p)
        &&& match self.mapping(p) {
            Some(e) => new.e1(p) == Entry64::pointing(e.addr_of(), flags),
            None => new.mapping(p) is None,
        }
    }
}

/// The root table is its own child: below its last entry, which maps the
/// root table, the root table is visible at its own address.
pub proof fn lemma_root_maps_itself()
    ensures
        child_value(PML4_ADDR, 511) == PML4_ADDR,
{
    assert(child_value(0xffff_ffff_ffff_f000, 511) == 0xffff_ffff_ffff_f000) by (bit_vector);
}

/// The addresses of the tables are as many as the ways to them: two ways
/// that differ above a level lead to different tables of that level.
pub proof fn lemma_table_addresses_differ(p: Path, q: Path)
    requires
        in_table(p),
        in_table(q),
    ensures
        a3(p) == a3(q) <==> p.i4 == q.i4,
        a2(p) == a2(q) <==> p.i4 == q.i4 && p.i3 == q.i3,
        a1(p) == a1(q) <==> p.i4 == q.i4 && p.i3 == q.i3 && p.i2 == q.i2,
{
    let (u4, u3, u2) = (p.i4 as u64, p.i3 as u64, p.i2 as u64);
    let (v4, v3, v2) = (q.i4 as u64, q.i3 as u64, q.i2 as u64);
    assert(child_value(0xffff_ffff_ffff_f000, u4)
        == 0xffff_ffff_ffe0_0000 | (u4 << 12)) by (bit_vector)
        requires u4 < 512;
    assert(child_value(0xffff_ffff_ffff_f000, v4)
        == 0xffff_ffff_ffe0_0000 | (v4 << 12)) by (bit_vector)
        requires v4 < 512;
    assert(child_value(0xffff_ffff_ffe0_0000 | (u4 << 12), u3)
        == 0xffff_ffff_c000_0000 | (u4 << 21) | (u3 << 12)) by (bit_vector)
        requires u4 < 512, u3 < 512;
    assert(child_value(0xffff_ffff_ffe0_0000 | (v4 << 12), v3)
        == 0xffff_ffff_c000_0000 | (v4 << 21) | (v3 << 12)) by (bit_vector)
        requires v4 < 512, v3 < 512;
    assert(child_value(0xffff_ffff_c000_0000 | (u4 << 21) | (u3 << 12), u2)
        == 0xffff_ff80_0000_0000 | (u4 << 30) | (u3 << 21) | (u2 << 12)) by (bit_vector)
        requires u4 < 512, u3 < 512, u2 < 512;
    assert(child_value(0xffff_ffff_c000_0000 | (v4 << 21) | (v3 << 12), v2)
        == 0xffff_ff80_0000_0000 | (v4 << 30) | (v3 << 21) | (v2 << 12)) by (bit_vector)
        requires v4 < 512, v3 < 512, v2 < 512;
    assert((0xffff_ffff_ffe0_0000 | (u4 << 12)) == (0xffff_ffff_ffe0_0000 | (v4 << 12))
        ==> u4 == v4) by (bit_vector)
        requires u4 < 512, v4 < 512;
    assert((0xffff_ffff_c000_0000 | (u4 << 21) | (u3 << 12))
        == (0xffff_ffff_c000_0000 | (v4 << 21) | (v3 << 12))
            ==> u4 == v4 && u3 == v3) by (bit_vector)
        requires u4 < 512, v4 < 512, u3 < 512, v3 < 512;
    assert((0xffff_ff80_0000_0000 | (u4 << 30) | (u3 << 21) | (u2 << 12))
        == (0xffff_ff80_0000_0000 | (v4 << 30) | (v3 << 21) | (v2 << 12))
            ==> u4 == v4 && u3 == v3 && u2 == v2) by (bit_vector)
        requires u4 < 512, v4 < 512, u3 < 512, v3 < 512, u2 < 512, v2 < 512;
}

/// A change on one way leaves every other way as it was: the same tables
/// are missing or not where the other way was complete, and the same entry
/// maps its page.
pub proof fn lemma_other_ways_stay(old: Tree, new: Tree, p: Path, q: Path)
    requires
        in_table(p),
        in_table(q),
        q != p,
        old.touched_on(new, p),
    ensures
        new.mapping(q) == old.mapping(q),
        new.translation(q) == old.translation(q),
{
    lemma_table_addresses_differ(p, q);
}

/// The way and the place in the page name the address: two canonical
/// addresses with the same four indices and the same low twelve bits are
/// the same address.
pub proof fn lemma_ways_apart(a: u64, b: u64)
    requires
        canonical(a) == a,
        canonical(b) == b,
        path_of(a) == path_of(b),
        a & 0xfff == b & 0xfff,
    ensures
        a == b,
{
    assert(((a >> 39) & 0x1ff) as usize == ((b >> 39) & 0x1ff) as usize
        ==> (a >> 39) & 0x1ff == (b >> 39)
        & 0x1ff) by {
        assert((a >> 39) & 0x1ff < 512 && (b >> 39) & 0x1ff < 512) by (bit_vector);
    }
    assert(((a >> 30) & 0x1ff) as usize == ((b >> 30) & 0x1ff) as usize
        ==> (a >> 30) & 0x1ff == (b >> 30)
        & 0x1ff) by {
        assert((a >> 30) & 0x1ff < 512 && (b >> 30) & 0x1ff < 512) by (bit_vector);
    }
    assert(((a >> 21) & 0x1ff) as usize == ((b >> 21) & 0x1ff) as usize
        ==> (a >> 21) & 0x1ff == (b >> 21)
        & 0x1ff) by {
        assert((a >> 21) & 0x1ff < 512 && (b >> 21) & 0x1ff < 512) by (bit_vector);
    }
    assert(((a >> 12) & 0x1ff) as usize == ((b >> 12) & 0x1ff) as usize
        ==> (a >> 12) & 0x1ff == (b >> 12)
        & 0x1ff) by {
        assert((a >> 12) & 0x1ff < 512 && (b >> 12) & 0x1ff < 512) by (bit_vector);
    }
    assert(a == b) by (bit_vector)
        requires
            (a >> 39) & 0x1ff == (b >> 39) & 0x1ff,
            (a >> 30) & 0x1ff == (b >> 30) & 0x1ff,
            (a >> 21) & 0x1ff == (b >> 21) & 0x1ff,
            (a >> 12) & 0x1ff == (b >> 12) & 0x1ff,
            a & 0xfff == b & 0xfff,
            (if (a >> 47) & 1 == 1 {
                a | 0xFFFF_0000_0000_0000
            } else {
                a & !0xFFFF_0000_0000_0000u64
            }) == a,
            (if (b >> 47) & 1 == 1 {
                b | 0xFFFF_0000_0000_0000
            } else {
                b & !0xFFFF_0000_0000_0000u64
            }) == b,
    ;
}

/// A page that was mapped is translated to its frame: after a successful
/// mapping with flags that name no huge page, the way of the page leads to
/// the frame it was mapped to.
pub proof fn lemma_map_then_translate(
    old: Tree,
    new: Tree,
    p: Path,
    frame: Physical<Size4Kb>,
    flags: Flags,
)
    requires
        old.map_step(new, p, frame, flags, Outcome::Mapped),
        frame.start().is_physical(),
        flags.only_flags(),
        !flags.huge(),
    ensures
        new.translation(p) == Some(frame),
{
    let addr = frame.start();
    lemma_page_sizes();
    flags.lemma_changes(true);
    Entry64::lemma_pointing(addr, flags.with_present(true));
    lemma_align_bounds(addr.value() as int, 4096);
    lemma_frame_by_value(frame, addr.value());
}

/// A page cannot be mapped twice: after a successful mapping, a second
/// attempt on the same page ends in `AlreadyMapped`, whatever frame and
/// flags it brings, and leaves every mapping as the first left it.
pub proof fn lemma_map_twice(
    start: Tree,
    first: Tree,
    second: Tree,
    p: Path,
    frame: Physical<Size4Kb>,
    flags: Flags,
    frame2: Physical<Size4Kb>,
    flags2: Flags,
    outcome: Outcome,
)
    requires
        in_table(p),
        start.map_step(first, p, frame, flags, Outcome::Mapped),
        first.map_step(second, p, frame2, flags2, outcome),
    ensures
        outcome == Outcome::AlreadyMapped,
        forall|q: Path| in_table(q) ==> #[trigger] second.mapping(q) == first.mapping(q),
{
}

/// In an address space without any present entry in the root table each way
/// lacks three tables: those of the levels 3, 2 and 1.
pub proof fn lemma_empty_lacks_three(tree: Tree, p: Path)
    requires
        in_table(p),
        forall|i: int| 0 <= i < NUM_ENTRIES ==> !present(#[trigger] tree.pml4[i]),
    ensures
        tree.missing(p) == 3,
        tree.mapping(p) is None,
{
}

impl Tree {
    /// Each table has as many entries as a table has.
    pub open spec fn sized(self) -> bool {
        &&& self.pml4.len() == NUM_ENTRIES
        &&& forall|a: u64| #[trigger] self.pdpts.contains_key(a)
            ==> self.pdpts[a].len() == NUM_ENTRIES
        &&& forall|a: u64| #[trigger] self.pds.contains_key(a) ==> self.pds[a].len() == NUM_ENTRIES
        &&& forall|a: u64| #[trigger] self.pts.contains_key(a) ==> self.pts[a].len() == NUM_ENTRIES
    }

    /// The tables of an address space in which nothing was ever mapped: a
    /// blank root table and no table below it.
    pub open spec fn empty() -> Tree {
        Tree {
            pml4: Seq::new(NUM_ENTRIES as nat, |i: int| blank()),
            pdpts: Map::empty(),
            pds: Map::empty(),
            pts: Map::empty(),
        }
    }

    /// How many of `answers` are frames: all, or all but the failure that
    /// they end in.
    pub open spec fn frames_among<E>(answers: Seq<Result<Physical<Size4Kb>, E>>) -> nat {
        if refusal(answers) is Some {
            (answers.len() - 1) as nat
        } else {
            answers.len()
        }
    }
}

/// Each frame among the answers starts on a frame boundary, as the frames of
/// an allocator do.
pub open spec fn answers_on_boundary<E>(answers: Seq<Result<Physical<Size4Kb>, E>>) -> bool {
    forall|i: int|
        0 <= i < answers.len() && (#[trigger] answers[i]) is Ok ==> on_frame_boundary(
            answers[i]->Ok_0,
        )
}

/// A table made is a table less to make: when the first table that a way
/// lacks is made, the way lacks one table fewer, the page on it is as little
/// mapped as before, and the new table holds no present entry on the way.
pub proof fn lemma_grown(tree: Tree, p: Path, addr: PAddr)
    requires
        tree.sized(),
        in_table(p),
        tree.missing(p) > 0,
        addr.is_physical(),
        is_aligned(addr.value() as int, FRAME_ALIGN as int),
    ensures
        tree.grown(p, addr).sized(),
        tree.grown(p, addr).missing(p) == tree.missing(p) - 1,
        tree.grown(p, addr).mapping(p) is None,
        tree.grown(p, addr).missing(p) == 0 ==> tree.grown(p, addr).e1(p) == cleared(tree.e1(p)),
{
    lemma_blank();
    lemma_linked_entry(tree.e4(p), addr);
    lemma_linked_entry(tree.e3(p), addr);
    lemma_linked_entry(tree.e2(p), addr);
    lemma_cleared(tree.e3(p));
    lemma_cleared(tree.e2(p));
    lemma_cleared(tree.e1(p));
}

/// The frames among the answers of an allocator are the tables made: with
/// answers that fit a way, growing the tables with them leaves as many
/// tables fewer to make as there are frames among them, and leaves the page
/// on the way unmapped unless it was mapped.
pub proof fn lemma_grown_with<E>(tree: Tree, p: Path, answers: Seq<Result<Physical<Size4Kb>, E>>)
    requires
        tree.sized(),
        in_table(p),
        answers_fit(answers, tree.missing(p)),
        answers_on_boundary(answers),
    ensures
        tree.grown_with(p, answers).sized(),
        tree.grown_with(p, answers).missing(p) == tree.missing(p) - Tree::frames_among(answers),
        tree.grown_with(p, answers).mapping(p) == tree.mapping(p),
        refusal(answers) is None ==> answers.len() == tree.missing(p),
{
    if answers.len() >= 1 && answers[0] is Ok {
        let one = tree.grown(p, answers[0]->Ok_0.start());
        lemma_grown(tree, p, answers[0]->Ok_0.start());
        if answers.len() >= 2 && answers[1] is Ok {
            let two = one.grown(p, answers[1]->Ok_0.start());
            lemma_grown(one, p, answers[1]->Ok_0.start());
            if answers.len() >= 3 && answers[2] is Ok {
                lemma_grown(two, p, answers[2]->Ok_0.start());
            }
        }
    }
}

/// Frames for every missing table are enough: where the page on the way is
/// not mapped and the allocator has a frame for each table that the way
/// lacks, the page is mapped, unless its entry is marked as a huge page.
pub proof fn lemma_frames_suffice<E>(
    tree: Tree,
    p: Path,
    frame: Physical<Size4Kb>,
    answers: Seq<Result<Physical<Size4Kb>, E>>,
)
    requires
        tree.sized(),
        in_table(p),
        answers_fit(answers, tree.missing(p)),
        answers_on_boundary(answers),
        refusal(answers) is None,
        tree.mapping(p) is None,
        on_frame_boundary(frame),
    ensures
        answers.len() == tree.missing(p),
        tree.outcome_with(p, frame, answers) == (if tree.grown_with(
            p,
            answers,
        ).e1(p).flags_of().huge() {
            Outcome::Refused(Error::Huge)
        } else {
            Outcome::Mapped
        }),
{
    lemma_grown_with(tree, p, answers);
}

/// A failure of the allocator is the failure of the mapping, and nothing
/// is taken back: where the answers end in a failure, the mapping ends
/// without a frame, the tables made before the failure stay, and as many
/// tables fewer are missing as frames were handed out.
pub proof fn lemma_failure_keeps_tables<E>(
    tree: Tree,
    p: Path,
    frame: Physical<Size4Kb>,
    flags: Flags,
    answers: Seq<Result<Physical<Size4Kb>, E>>,
)
    requires
        tree.sized(),
        in_table(p),
        answers_fit(answers, tree.missing(p)),
        answers_on_boundary(answers),
        refusal(answers) is Some,
    ensures
        tree.outcome_with(p, frame, answers) == Outcome::NoFrame,
        tree.mapped_with(p, frame, flags, answers) == tree.grown_with(p, answers),
        tree.mapped_with(p, frame, flags, answers).missing(p)
            == tree.missing(p) - (answers.len() - 1),
        tree.mapped_with(p, frame, flags, answers).mapping(p) is None,
{
    lemma_grown_with(tree, p, answers);
}

/// Mapping a page in an address space in which nothing was ever mapped
/// takes three frames, for the tables of the levels 3, 2 and 1, and
/// succeeds with them; the page is then translated to its frame.
pub proof fn lemma_map_into_empty<E>(
    p: Path,
    frame: Physical<Size4Kb>,
    flags: Flags,
    answers: Seq<Result<Physical<Size4Kb>, E>>,
)
    requires
        in_table(p),
        answers_fit(answers, 3),
        answers_on_boundary(answers),
        refusal(answers) is None,
        on_frame_boundary(frame),
        flags.only_flags(),
    ensures
        Tree::empty().missing(p) == 3,
        answers.len() == 3,
        Tree::empty().outcome_with(p, frame, answers) == Outcome::Mapped,
        Tree::empty().mapped_with(p, frame, flags, answers).missing(p) == 0,
        !flags.huge() ==> Tree::empty().mapped_with(p, frame, flags, answers).translation(p)
            == Some(
            frame,
        ),
{
    let tree = Tree::empty();
    lemma_blank();
    lemma_cleared(blank());
    assert(tree.missing(p) == 3);
    lemma_grown_with(tree, p, answers);
    lemma_frames_suffice(tree, p, frame, answers);
    let one = tree.grown(p, answers[0]->Ok_0.start());
    lemma_grown(tree, p, answers[0]->Ok_0.start());
    let two = one.grown(p, answers[1]->Ok_0.start());
    lemma_grown(one, p, answers[1]->Ok_0.start());
    let three = two.grown(p, answers[2]->Ok_0.start());
    lemma_grown(two, p, answers[2]->Ok_0.start());
    assert(three == tree.grown_with(p, answers));
    assert(three.e1(p) == cleared(blank()));
    let new = tree.mapped_with(p, frame, flags, answers);
    flags.lemma_changes(true);
    Entry64::lemma_pointing(frame.start(), flags.with_present(true));
    let entry = Entry64::pointing(frame.start(), flags.with_present(true));
    assert(new.e1(p) == entry);
    if !flags.huge() {
        lemma_page_sizes();
        lemma_align_bounds(frame.start().value() as int, 4096);
        lemma_frame_by_value(frame, frame.start().value());
    }
}

} // verus!

//! The reference picture lists of a slice (8.2.4).

pub mod laws;

use vstd::prelude::*;

use crate::decode::error::DecodeError;
use crate::h264::dpb;
use crate::h264::dpb::ref_lists;
use crate::h264::dpb::ref_lists::ReferencePicLists;
use crate::h264::dpb::{Dpb, DpbEntry};
use crate::h264::picture::PictureData;
use crate::h264::syntax::{MaxLongTermFrameIdx, RefPicListModification, SliceHeader, SliceType};

verus! {

/// Which picture a modification moves to the front, and so removes further back.
#[derive(Clone, Copy, Debug)]
pub enum Moved {
    ShortTerm { max_pic_num: i32, pic_num: i64 },
    LongTerm { max: MaxLongTermFrameIdx, long_term_pic_num: u32 },
}

impl Moved {
    /// Whether `e` is another picture than the one moved.
    pub open spec fn spares(self, e: DpbEntry) -> bool {
        match self {
            Moved::ShortTerm { max_pic_num, pic_num } => e.pic.spec_pic_num_f(max_pic_num)
                != pic_num,
            Moved::LongTerm { max, long_term_pic_num } => e.pic.spec_long_term_pic_num_f(max)
                != long_term_pic_num,
        }
    }

    fn keep(&self, e: &DpbEntry) -> (b: bool)
        ensures
            b == self.spares(*e),
    {
        match self {
            Moved::ShortTerm { max_pic_num, pic_num } => e.pic.pic_num_f(*max_pic_num) as i64
                != *pic_num,
            Moved::LongTerm { max, long_term_pic_num } => e.pic.long_term_pic_num_f(*max)
                != *long_term_pic_num as u64,
        }
    }
}

/// Where the modifications of one list have got to.
#[verifier::ext_equal]
pub struct Progress {
    pub list: Seq<DpbEntry>,
    pub pic_num_pred: int,
    pub ref_idx: int,
}

/// The smaller of two lengths.
pub open spec fn shorter(a: int, b: int) -> int {
    if a < b {
        a
    } else {
        b
    }
}

/// The pictures of `list` after position `at` that `moved` spares, as far as the
/// `active` entries of the list and one more reach.
pub open spec fn spared(list: Seq<DpbEntry>, at: int, active: int, moved: Moved) -> Seq<DpbEntry> {
    list.subrange(at + 1, shorter(list.len() as int, active + 1)).filter(
        |e: DpbEntry| moved.spares(e),
    )
}

/// The shared tail of 8.2.4.3.1 and 8.2.4.3.2: `entry` goes in at `ref_idx`, what
/// follows closes up over the picture moved, and the list is cut back to its
/// `active` entries.
pub open spec fn inserted(
    list: Seq<DpbEntry>,
    ref_idx: int,
    entry: DpbEntry,
    active: int,
    moved: Moved,
) -> Seq<DpbEntry> {
    let at = shorter(ref_idx, list.len() as int);
    let longer = list.insert(at, entry);
    let closed = longer.take(at + 1) + spared(longer, at, active, moved) + longer.skip(
        shorter(longer.len() as int, active + 1),
    );
    closed.take(shorter(closed.len() as int, active))
}

/// `picNumLXNoWrap` (8-34, 8-35): the prediction moved down or up by the coded
/// difference, around `max_pic_num`.
pub open spec fn pic_num_no_wrap(
    pred: int,
    m: RefPicListModification,
    max_pic_num: int,
) -> int {
    let diff = (m.abs_diff_pic_num_minus1 as i32) + 1;
    if m.modification_of_pic_nums_idc == 0 {
        if pred - diff < 0 {
            pred - diff + max_pic_num
        } else {
            pred - diff
        }
    } else {
        if pred + diff >= max_pic_num {
            pred + diff - max_pic_num
        } else {
            pred + diff
        }
    }
}

/// `picNumLX` (8-36): the picture number that the unwrapped one stands for.
pub open spec fn pic_num_lx(no_wrap: int, pic: PictureData, max_pic_num: int) -> int {
    if no_wrap > pic.pic_num {
        no_wrap - max_pic_num
    } else {
        no_wrap
    }
}

/// What the modifications of one list are made against.
pub struct Context {
    pub entries: Seq<DpbEntry>,
    pub pic: PictureData,
    pub max_pic_num: i32,
    pub max_long_term_frame_idx: MaxLongTermFrameIdx,
    /// How many entries the list may have.
    pub active: int,
}

impl Context {
    /// Makes one modification of a short-term reference (8.2.4.3.1).
    pub open spec fn short_term(self, p: Progress, m: RefPicListModification) -> Result<
        Progress,
        DecodeError,
    > {
        let no_wrap = pic_num_no_wrap(p.pic_num_pred, m, self.max_pic_num as int);
        let num = pic_num_lx(no_wrap, self.pic, self.max_pic_num as int);
        match dpb::short_term_numbered(self.entries, num) {
            Some(i) => Ok(
                Progress {
                    list: inserted(
                        p.list,
                        p.ref_idx,
                        self.entries[i],
                        self.active,
                        Moved::ShortTerm { max_pic_num: self.max_pic_num, pic_num: num as i64 },
                    ),
                    pic_num_pred: no_wrap,
                    ref_idx: shorter(p.ref_idx, p.list.len() as int) + 1,
                },
            ),
            None => Err(DecodeError::NoShortTerm(num as i64)),
        }
    }

    /// Makes one modification of a long-term reference (8.2.4.3.2).
    pub open spec fn long_term(self, p: Progress, m: RefPicListModification) -> Result<
        Progress,
        DecodeError,
    > {
        match dpb::long_term_numbered(self.entries, m.long_term_pic_num) {
            Some(i) => Ok(
                Progress {
                    list: inserted(
                        p.list,
                        p.ref_idx,
                        self.entries[i],
                        self.active,
                        Moved::LongTerm {
                            max: self.max_long_term_frame_idx,
                            long_term_pic_num: m.long_term_pic_num,
                        },
                    ),
                    pic_num_pred: p.pic_num_pred,
                    ref_idx: shorter(p.ref_idx, p.list.len() as int) + 1,
                },
            ),
            None => Err(DecodeError::NoLongTerm(m.long_term_pic_num)),
        }
    }

    /// Makes the modifications `mods` in order, up to the one that ends them (3).
    pub open spec fn modified(self, p: Progress, mods: Seq<RefPicListModification>) -> Result<
        Seq<DpbEntry>,
        DecodeError,
    >
        decreases mods.len(),
    {
        if mods.len() == 0 || mods[0].modification_of_pic_nums_idc == 3 {
            Ok(p.list)
        } else if mods[0].modification_of_pic_nums_idc > 3 {
            Err(DecodeError::ModificationIdc(mods[0].modification_of_pic_nums_idc))
        } else {
            let step = if mods[0].modification_of_pic_nums_idc == 2 {
                self.long_term(p, mods[0])
            } else {
                self.short_term(p, mods[0])
            };
            match step {
                Ok(q) => self.modified(q, mods.drop_first()),
                Err(e) => Err(e),
            }
        }
    }
}

/// The entries of `s` the positions `indices` name.
pub open spec fn entries_at(s: Seq<DpbEntry>, indices: Seq<usize>) -> Seq<DpbEntry> {
    indices.map_values(|i: usize| s[i as int])
}

/// 8.2.4.3: the list of a slice, from the initial list `indices`: cut back to its
/// active entries, then modified if the slice says so.
pub open spec fn list_of(
    c: Context,
    indices: Seq<usize>,
    modify: bool,
    mods: Seq<RefPicListModification>,
) -> Result<Seq<DpbEntry>, DecodeError> {
    let initial = entries_at(c.entries, indices.take(shorter(indices.len() as int, c.active)));
    if modify {
        c.modified(Progress { list: initial, pic_num_pred: c.pic.pic_num as int, ref_idx: 0 }, mods)
    } else {
        Ok(initial)
    }
}

/// What list 0 of a slice is made against.
pub open spec fn context_l0(
    s: Seq<DpbEntry>,
    pic: PictureData,
    hdr: SliceHeader,
    max: MaxLongTermFrameIdx,
) -> Context {
    Context {
        entries: s,
        pic,
        max_pic_num: hdr.max_pic_num as i32,
        max_long_term_frame_idx: max,
        active: hdr.num_ref_idx_l0_active_minus1 + 1,
    }
}

/// What list 1 of a slice is made against.
pub open spec fn context_l1(
    s: Seq<DpbEntry>,
    pic: PictureData,
    hdr: SliceHeader,
    max: MaxLongTermFrameIdx,
) -> Context {
    Context { active: hdr.num_ref_idx_l1_active_minus1 + 1, ..context_l0(s, pic, hdr, max) }
}

/// RefPicList0 of a slice: P and B slices have one.
pub open spec fn list_0(
    s: Seq<DpbEntry>,
    pic: PictureData,
    hdr: SliceHeader,
    lists: ReferencePicLists,
    max: MaxLongTermFrameIdx,
) -> Result<Seq<DpbEntry>, DecodeError> {
    let indices = match hdr.slice_type {
        SliceType::P | SliceType::Sp => Some(lists.ref_pic_list_p0@),
        SliceType::B => Some(lists.ref_pic_list_b0@),
        _ => None,
    };
    match indices {
        Some(indices) => list_of(
            context_l0(s, pic, hdr, max),
            indices,
            hdr.ref_pic_list_modification_flag_l0,
            hdr.ref_pic_list_modification_l0@,
        ),
        None => Ok(Seq::empty()),
    }
}

/// RefPicList1 of a slice: only B slices have one.
pub open spec fn list_1(
    s: Seq<DpbEntry>,
    pic: PictureData,
    hdr: SliceHeader,
    lists: ReferencePicLists,
    max: MaxLongTermFrameIdx,
) -> Result<Seq<DpbEntry>, DecodeError> {
    if hdr.slice_type == SliceType::B {
        list_of(
            context_l1(s, pic, hdr, max),
            lists.ref_pic_list_b1@,
            hdr.ref_pic_list_modification_flag_l1,
            hdr.ref_pic_list_modification_l1@,
        )
    } else {
        Ok(Seq::empty())
    }
}

/// Inserts `entry` at `ref_idx`, then shuffles out the duplicate `moved` names and
/// cuts the list back.
fn insert_modification(
    list: &mut Vec<DpbEntry>,
    entry: DpbEntry,
    num_ref_idx_active_minus1: u8,
    ref_idx: &mut usize,
    moved: Moved,
)
    requires
        old(list)@.len() <= num_ref_idx_active_minus1 + 1,
    ensures
        final(list)@ == inserted(
            old(list)@,
            *old(ref_idx) as int,
            entry,
            num_ref_idx_active_minus1 + 1,
            moved,
        ),
        *final(ref_idx) == shorter(*old(ref_idx) as int, old(list)@.len() as int) + 1,
        final(list)@.len() <= num_ref_idx_active_minus1 + 1,
{
    let active: usize = num_ref_idx_active_minus1 as usize + 1;
    let at: usize = if *ref_idx < list.len() {
        *ref_idx
    } else {
        list.len()
    };
    list.insert(at, entry);
    *ref_idx = at + 1;

    let ghost longer = list@;
    let ghost p = |e: DpbEntry| moved.spares(e);
    let mut next: usize = at + 1;
    let mut current: usize = at + 1;
    let ghost mut kept: Seq<DpbEntry> = Seq::empty();
    proof {
        reveal(Seq::filter);
        assert(longer.subrange(at as int + 1, at as int + 1).filter(p) =~= Seq::empty());
        assert(longer =~= longer.take(at as int + 1) + kept + longer.skip(at as int + 1));
    }
    while current < list.len()
        invariant
            at < next <= current <= list@.len() == longer.len(),
            p == (|e: DpbEntry| moved.spares(e)),
            kept == longer.subrange(at as int + 1, current as int).filter(p),
            next == at + 1 + kept.len(),
            list@ == longer.take(at as int + 1) + kept + longer.skip(next as int),
        decreases longer.len() - current,
    {
        let e = list[current];
        assert(e == longer[current as int]);
        proof {
            reveal(Seq::filter);
            let t = longer.subrange(at as int + 1, current as int + 1);
            assert(t.drop_last() =~= longer.subrange(at as int + 1, current as int));
            assert(t.last() == e);
        }
        if moved.keep(&e) {
            list[next] = e;
            proof {
                let more = kept.push(e);
                assert(list@ =~= longer.take(at as int + 1) + more + longer.skip(next as int + 1));
                kept = more;
            }
            next = next + 1;
        }
        current = current + 1;
    }
    assert(longer.len() == shorter(longer.len() as int, active + 1));
    assert(kept == spared(longer, at as int, active as int, moved));
    // What was moved up leaves nothing behind.
    list.truncate(next);
    list.truncate(active);
    assert(list@ =~= inserted(
        old(list)@,
        *old(ref_idx) as int,
        entry,
        num_ref_idx_active_minus1 + 1,
        moved,
    ));
}

/// 8.2.4.3.1: modification for short-term reference pictures.
fn short_term_modification(
    dpb: &Dpb,
    pic: &PictureData,
    list: &mut Vec<DpbEntry>,
    num_ref_idx_active_minus1: u8,
    max_pic_num: i32,
    m: &RefPicListModification,
    pic_num_pred: &mut i64,
    ref_idx: &mut usize,
    Ghost(c): Ghost<Context>,
) -> (r: Result<(), DecodeError>)
    requires
        old(list)@.len() <= num_ref_idx_active_minus1 + 1,
        m.modification_of_pic_nums_idc <= 1,
        -0x2_0000_0000 <= *old(pic_num_pred) <= 0x2_0000_0000,
        c.entries == dpb@.entries,
        c.pic == *pic,
        c.max_pic_num == max_pic_num,
        c.active == num_ref_idx_active_minus1 + 1,
    ensures
        ({
            let p = Progress {
                list: old(list)@,
                pic_num_pred: *old(pic_num_pred) as int,
                ref_idx: *old(ref_idx) as int,
            };
            match c.short_term(p, *m) {
                Ok(q) => {
                    &&& r == Ok::<(), DecodeError>(())
                    &&& final(list)@ == q.list
                    &&& *final(pic_num_pred) == q.pic_num_pred
                    &&& *final(ref_idx) == q.ref_idx
                    &&& final(list)@.len() <= num_ref_idx_active_minus1 + 1
                    &&& -0x2_0000_0000 <= *final(pic_num_pred) <= 0x2_0000_0000
                },
                Err(e) => {
                    &&& r == Err::<(), DecodeError>(e)
                    &&& final(list)@ == old(list)@
                    &&& *final(pic_num_pred) == pic_num_no_wrap(
                        *old(pic_num_pred) as int,
                        *m,
                        max_pic_num as int,
                    )
                    &&& *final(ref_idx) == *old(ref_idx)
                },
            }
        }),
{
    let abs_diff_pic_num: i64 = #[verifier::truncate]
    (m.abs_diff_pic_num_minus1 as i32) as i64 + 1;
    let max: i64 = max_pic_num as i64;
    let pred: i64 = *pic_num_pred;
    let no_wrap: i64 = if m.modification_of_pic_nums_idc == 0 {
        if pred - abs_diff_pic_num < 0 {
            pred - abs_diff_pic_num + max
        } else {
            pred - abs_diff_pic_num
        }
    } else if pred + abs_diff_pic_num >= max {
        pred + abs_diff_pic_num - max
    } else {
        pred + abs_diff_pic_num
    };
    *pic_num_pred = no_wrap;
    let pic_num: i64 = if no_wrap > pic.pic_num as i64 {
        no_wrap - max
    } else {
        no_wrap
    };
    match dpb.find_short_term_with_pic_num(pic_num) {
        Some(i) => {
            let entry = dpb.entries()[i];
            proof {
                let w = choose|w: int|
                    dpb::is_short_term_numbered(dpb@.entries, pic_num as int, w);
                assert(dpb::is_short_term_numbered(dpb@.entries, pic_num as int, w));
            }
            insert_modification(
                list,
                entry,
                num_ref_idx_active_minus1,
                ref_idx,
                Moved::ShortTerm { max_pic_num, pic_num },
            );
            Ok(())
        },
        None => Err(DecodeError::NoShortTerm(pic_num)),
    }
}

/// 8.2.4.3.2: modification for long-term reference pictures.
fn long_term_modification(
    dpb: &Dpb,
    max_long_term_frame_idx: MaxLongTermFrameIdx,
    list: &mut Vec<DpbEntry>,
    num_ref_idx_active_minus1: u8,
    m: &RefPicListModification,
    ref_idx: &mut usize,
    Ghost(c): Ghost<Context>,
    Ghost(pred): Ghost<int>,
) -> (r: Result<(), DecodeError>)
    requires
        old(list)@.len() <= num_ref_idx_active_minus1 + 1,
        c.entries == dpb@.entries,
        c.max_long_term_frame_idx == max_long_term_frame_idx,
        c.active == num_ref_idx_active_minus1 + 1,
    ensures
        ({
            let p = Progress {
                list: old(list)@,
                pic_num_pred: pred,
                ref_idx: *old(ref_idx) as int,
            };
            match c.long_term(p, *m) {
                Ok(q) => {
                    &&& r == Ok::<(), DecodeError>(())
                    &&& final(list)@ == q.list
                    &&& *final(ref_idx) == q.ref_idx
                    &&& final(list)@.len() <= num_ref_idx_active_minus1 + 1
                },
                Err(e) => {
                    &&& r == Err::<(), DecodeError>(e)
                    &&& final(list)@ == old(list)@
                    &&& *final(ref_idx) == *old(ref_idx)
                },
            }
        }),
{
    let long_term_pic_num: u32 = m.long_term_pic_num;
    match dpb.find_long_term_with_long_term_pic_num(long_term_pic_num) {
        Some(i) => {
            let entry = dpb.entries()[i];
            insert_modification(
                list,
                entry,
                num_ref_idx_active_minus1,
                ref_idx,
                Moved::LongTerm { max: max_long_term_frame_idx, long_term_pic_num },
            );
            Ok(())
        },
        None => Err(DecodeError::NoLongTerm(long_term_pic_num)),
    }
}

/// 8.2.4.3: takes the active entries of the initial list `indices` and applies
/// the slice header's modifications to them.
pub fn modify_ref_pic_list(
    dpb: &Dpb,
    max_long_term_frame_idx: MaxLongTermFrameIdx,
    pic: &PictureData,
    hdr: &SliceHeader,
    list1: bool,
    indices: &Vec<usize>,
) -> (r: Result<Vec<DpbEntry>, DecodeError>)
    requires
        ref_lists::all_below(indices@, dpb@.entries.len()),
    ensures
        ({
            let wanted = if list1 {
                list_of(
                    context_l1(dpb@.entries, *pic, *hdr, max_long_term_frame_idx),
                    indices@,
                    hdr.ref_pic_list_modification_flag_l1,
                    hdr.ref_pic_list_modification_l1@,
                )
            } else {
                list_of(
                    context_l0(dpb@.entries, *pic, *hdr, max_long_term_frame_idx),
                    indices@,
                    hdr.ref_pic_list_modification_flag_l0,
                    hdr.ref_pic_list_modification_l0@,
                )
            };
            match wanted {
                Ok(list) => r matches Ok(v) && v@ == list,
                Err(e) => r matches Err(f) && f == e,
            }
        }),
{
    let ghost c = if list1 {
        context_l1(dpb@.entries, *pic, *hdr, max_long_term_frame_idx)
    } else {
        context_l0(dpb@.entries, *pic, *hdr, max_long_term_frame_idx)
    };
    let (modify, num_ref_idx_active_minus1, modifications): (
        bool,
        u8,
        &Vec<RefPicListModification>,
    ) = if list1 {
        (
            hdr.ref_pic_list_modification_flag_l1,
            hdr.num_ref_idx_l1_active_minus1,
            &hdr.ref_pic_list_modification_l1,
        )
    } else {
        (
            hdr.ref_pic_list_modification_flag_l0,
            hdr.num_ref_idx_l0_active_minus1,
            &hdr.ref_pic_list_modification_l0,
        )
    };
    let active: usize = num_ref_idx_active_minus1 as usize + 1;
    let mut list: Vec<DpbEntry> = Vec::new();
    let mut k: usize = 0;
    while k < indices.len() && k < active
        invariant
            k <= indices@.len(),
            k <= active,
            ref_lists::all_below(indices@, dpb@.entries.len()),
            list@ == entries_at(dpb@.entries, indices@.take(k as int)),
        decreases indices@.len() - k,
    {
        let e = dpb.entries()[indices[k]];
        list.push(e);
        k = k + 1;
        assert(list@ =~= entries_at(dpb@.entries, indices@.take(k as int)));
    }
    assert(k == shorter(indices@.len() as int, active as int));
    if !modify {
        return Ok(list);
    }
    let max_pic_num: i32 = #[verifier::truncate]
    (hdr.max_pic_num as i32);
    let mut pic_num_pred: i64 = pic.pic_num as i64;
    let mut ref_idx: usize = 0;
    let mut i: usize = 0;
    let ghost start = Progress { list: list@, pic_num_pred: pic.pic_num as int, ref_idx: 0 };
    assert(modifications@.skip(0) =~= modifications@);
    #[verifier::loop_isolation(false)]
    while i < modifications.len()
        invariant
            i <= modifications@.len(),
            list@.len() <= num_ref_idx_active_minus1 + 1,
            -0x2_0000_0000 <= pic_num_pred <= 0x2_0000_0000,
            c.entries == dpb@.entries,
            c.pic == *pic,
            c.max_pic_num == max_pic_num,
            c.max_long_term_frame_idx == max_long_term_frame_idx,
            c.active == num_ref_idx_active_minus1 + 1,
            c.modified(
                Progress {
                    list: list@,
                    pic_num_pred: pic_num_pred as int,
                    ref_idx: ref_idx as int,
                },
                modifications@.skip(i as int),
            ) == c.modified(start, modifications@),
        decreases modifications@.len() - i,
    {
        let m = &modifications[i];
        let ghost rest = modifications@.skip(i as int);
        assert(rest[0] == *m);
        assert(rest.drop_first() =~= modifications@.skip(i as int + 1));
        let idc: u8 = m.modification_of_pic_nums_idc;
        let r = if idc <= 1 {
            short_term_modification(
                dpb,
                pic,
                &mut list,
                num_ref_idx_active_minus1,
                max_pic_num,
                m,
                &mut pic_num_pred,
                &mut ref_idx,
                Ghost(c),
            )
        } else if idc == 2 {
            long_term_modification(
                dpb,
                max_long_term_frame_idx,
                &mut list,
                num_ref_idx_active_minus1,
                m,
                &mut ref_idx,
                Ghost(c),
                Ghost(pic_num_pred as int),
            )
        } else if idc == 3 {
            return Ok(list);
        } else {
            return Err(DecodeError::ModificationIdc(idc));
        };
        match r {
            Ok(_) => {},
            Err(e) => {
                return Err(e);
            },
        }
        i = i + 1;
    }
    Ok(list)
}

/// 8.2.4: derives RefPicList0 and RefPicList1 for one slice, from the
/// per-picture lists.
pub fn create_ref_pic_lists(
    dpb: &Dpb,
    max_long_term_frame_idx: MaxLongTermFrameIdx,
    pic: &PictureData,
    hdr: &SliceHeader,
    lists: &ReferencePicLists,
) -> (r: Result<(Vec<DpbEntry>, Vec<DpbEntry>), DecodeError>)
    requires
        lists.within(dpb@.entries.len()),
    ensures
        match list_0(dpb@.entries, *pic, *hdr, *lists, max_long_term_frame_idx) {
            Ok(l0) => match list_1(dpb@.entries, *pic, *hdr, *lists, max_long_term_frame_idx) {
                Ok(l1) => r matches Ok(v) && v.0@ == l0 && v.1@ == l1,
                Err(e) => r matches Err(f) && f == e,
            },
            Err(e) => r matches Err(f) && f == e,
        },
{
    let list0 = match hdr.slice_type {
        SliceType::P | SliceType::Sp => modify_ref_pic_list(
            dpb,
            max_long_term_frame_idx,
            pic,
            hdr,
            false,
            &lists.ref_pic_list_p0,
        ),
        SliceType::B => modify_ref_pic_list(
            dpb,
            max_long_term_frame_idx,
            pic,
            hdr,
            false,
            &lists.ref_pic_list_b0,
        ),
        _ => Ok(Vec::new()),
    };
    let list0 = match list0 {
        Ok(list) => list,
        Err(e) => {
            return Err(e);
        },
    };
    let list1 = match hdr.slice_type {
        SliceType::B => modify_ref_pic_list(
            dpb,
            max_long_term_frame_idx,
            pic,
            hdr,
            true,
            &lists.ref_pic_list_b1,
        ),
        _ => Ok(Vec::new()),
    };
    match list1 {
        Ok(list) => Ok((list0, list)),
        Err(e) => Err(e),
    }
}

////// Laws

/// Whether every picture of `list` is one of `s`.
pub open spec fn drawn_from(list: Seq<DpbEntry>, s: Seq<DpbEntry>) -> bool {
    forall|i: int| 0 <= i < list.len() ==> s.contains(#[trigger] list[i])
}

/// A modification puts its picture where it says, leaves what comes before alone,
/// and keeps the list within its active entries.
pub proof fn modifications_place_their_picture(
    list: Seq<DpbEntry>,
    ref_idx: int,
    entry: DpbEntry,
    active: int,
    moved: Moved,
)
    requires
        0 <= ref_idx,
        shorter(ref_idx, list.len() as int) < active,
    ensures
        inserted(list, ref_idx, entry, active, moved).len() <= active,
        shorter(ref_idx, list.len() as int) < inserted(list, ref_idx, entry, active, moved).len(),
        inserted(list, ref_idx, entry, active, moved)[shorter(ref_idx, list.len() as int)] == entry,
        forall|j: int|
            0 <= j < shorter(ref_idx, list.len() as int) ==> #[trigger] inserted(
                list,
                ref_idx,
                entry,
                active,
                moved,
            )[j] == list[j],
{
    broadcast use vstd::seq_lib::group_filter_ensures;

    let at = shorter(ref_idx, list.len() as int);
    let longer = list.insert(at, entry);
    let kept = spared(longer, at, active, moved);
    longer.subrange(at + 1, shorter(longer.len() as int, active + 1)).lemma_filter_len(
        |e: DpbEntry| moved.spares(e),
    );
    let whole = longer.take(at + 1) + kept + longer.skip(
        shorter(longer.len() as int, active + 1),
    );
    assert(whole[at] == longer[at]);
    assert forall|j: int| 0 <= j < at implies whole[j] == list[j] by {
        assert(whole[j] == longer[j]);
    }
}

proof fn lemma_inserted_drawn(
    list: Seq<DpbEntry>,
    ref_idx: int,
    entry: DpbEntry,
    active: int,
    moved: Moved,
    s: Seq<DpbEntry>,
)
    requires
        0 <= ref_idx,
        0 <= active,
        drawn_from(list, s),
        s.contains(entry),
    ensures
        drawn_from(inserted(list, ref_idx, entry, active, moved), s),
        inserted(list, ref_idx, entry, active, moved).len() <= active,
{
    let p = |e: DpbEntry| moved.spares(e);
    let at = shorter(ref_idx, list.len() as int);
    let longer = list.insert(at, entry);
    assert forall|i: int| 0 <= i < longer.len() implies s.contains(#[trigger] longer[i]) by {
        if i < at {
            assert(longer[i] == list[i]);
        } else if i > at {
            assert(longer[i] == list[i - 1]);
        }
    }
    let kept = spared(longer, at, active, moved);
    if at + 1 <= shorter(longer.len() as int, active + 1) {
        let middle = longer.subrange(at + 1, shorter(longer.len() as int, active + 1));
        lemma_filter_drawn(middle, p);
        assert forall|i: int| 0 <= i < kept.len() implies s.contains(#[trigger] kept[i]) by {
            assert(middle.contains(kept[i]));
            let j = choose|j: int| 0 <= j < middle.len() && middle[j] == kept[i];
            assert(longer[at + 1 + j] == middle[j]);
        }
        middle.lemma_filter_len(p);
        let end = shorter(longer.len() as int, active + 1);
        let whole = longer.take(at + 1) + kept + longer.skip(end);
        assert forall|i: int| 0 <= i < whole.len() implies s.contains(#[trigger] whole[i]) by {
            if i < at + 1 {
                assert(whole[i] == longer[i]);
            } else if i < at + 1 + kept.len() {
                assert(whole[i] == kept[i - at - 1]);
            } else {
                assert(whole[i] == longer[end + i - at - 1 - kept.len()]);
            }
        }
    }
}

proof fn lemma_filter_drawn(list: Seq<DpbEntry>, p: spec_fn(DpbEntry) -> bool)
    ensures
        forall|i: int| 0 <= i < list.filter(p).len() ==> list.contains(#[trigger] list.filter(p)[i]),
    decreases list.len(),
{
    reveal(Seq::filter);
    if list.len() > 0 {
        let front = list.drop_last();
        lemma_filter_drawn(front, p);
        assert forall|i: int| 0 <= i < list.filter(p).len() implies list.contains(
            #[trigger] list.filter(p)[i],
        ) by {
            if i < front.filter(p).len() {
                assert(front.contains(front.filter(p)[i]));
                let j = choose|j: int| 0 <= j < front.len() && front[j] == front.filter(p)[i];
                assert(list[j] == list.filter(p)[i]);
            } else {
                assert(list[list.len() - 1] == list.filter(p)[i]);
            }
        }
    }
}

/// A reference list holds only pictures of the decoded picture buffer, and no more
/// of them than the slice makes active, however the slice modifies it.
pub proof fn lists_hold_buffered_pictures(
    c: Context,
    indices: Seq<usize>,
    modify: bool,
    mods: Seq<RefPicListModification>,
)
    requires
        0 < c.active,
        ref_lists::all_below(indices, c.entries.len()),
    ensures
        list_of(c, indices, modify, mods) matches Ok(list) ==> list.len() <= c.active && drawn_from(
            list,
            c.entries,
        ),
{
    let cut = indices.take(shorter(indices.len() as int, c.active));
    let initial = entries_at(c.entries, cut);
    assert forall|i: int| 0 <= i < initial.len() implies c.entries.contains(
        #[trigger] initial[i],
    ) by {
        assert(indices[i] < c.entries.len());
        assert(initial[i] == c.entries[cut[i] as int]);
    }
    if modify {
        lemma_modified_drawn(
            c,
            Progress { list: initial, pic_num_pred: c.pic.pic_num as int, ref_idx: 0 },
            mods,
        );
    }
}

proof fn lemma_modified_drawn(c: Context, p: Progress, mods: Seq<RefPicListModification>)
    requires
        0 < c.active,
        0 <= p.ref_idx,
        p.list.len() <= c.active,
        drawn_from(p.list, c.entries),
    ensures
        c.modified(p, mods) matches Ok(list) ==> list.len() <= c.active && drawn_from(
            list,
            c.entries,
        ),
    decreases mods.len(),
{
    if mods.len() > 0 && mods[0].modification_of_pic_nums_idc < 3 {
        let m = mods[0];
        let step = if m.modification_of_pic_nums_idc == 2 {
            c.long_term(p, m)
        } else {
            c.short_term(p, m)
        };
        if m.modification_of_pic_nums_idc == 2 {
            match dpb::long_term_numbered(c.entries, m.long_term_pic_num) {
                Some(i) => {
                    assert(dpb::is_long_term_numbered(c.entries, m.long_term_pic_num, i));
                    lemma_inserted_drawn(
                        p.list,
                        p.ref_idx,
                        c.entries[i],
                        c.active,
                        Moved::LongTerm {
                            max: c.max_long_term_frame_idx,
                            long_term_pic_num: m.long_term_pic_num,
                        },
                        c.entries,
                    );
                },
                None => {},
            }
        } else {
            let no_wrap = pic_num_no_wrap(p.pic_num_pred, m, c.max_pic_num as int);
            let num = pic_num_lx(no_wrap, c.pic, c.max_pic_num as int);
            match dpb::short_term_numbered(c.entries, num) {
                Some(i) => {
                    assert(dpb::is_short_term_numbered(c.entries, num, i));
                    lemma_inserted_drawn(
                        p.list,
                        p.ref_idx,
                        c.entries[i],
                        c.active,
                        Moved::ShortTerm { max_pic_num: c.max_pic_num, pic_num: num as i64 },
                        c.entries,
                    );
                },
                None => {},
            }
        }
        match step {
            Ok(q) => {
                lemma_modified_drawn(c, q, mods.drop_first());
            },
            Err(_) => {},
        }
    }
}

} // verus!

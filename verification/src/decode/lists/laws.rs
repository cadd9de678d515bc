//! What list modifications promise: which picture they name, and what becomes of the rest.

use vstd::arithmetic::div_mod::{lemma_fundamental_div_mod_converse, lemma_small_mod};
use vstd::prelude::*;

use crate::decode::error::DecodeError;
use crate::decode::lists;
use crate::decode::lists::{Context, Moved, Progress};
use crate::h264::dpb;
use crate::h264::dpb::numbers;
use crate::h264::dpb::ref_lists::ReferencePicLists;
use crate::h264::dpb::DpbEntry;
use crate::h264::picture::{PictureData, Reference};
use crate::h264::syntax::{MaxLongTermFrameIdx, RefPicListModification, SliceHeader};

verus! {

////// Which picture is named

/// A modification of a short-term reference moves the prediction down or up by the coded
/// difference, around the picture numbers there are.
pub proof fn differences_go_around(pred: int, m: RefPicListModification, max: int)
    requires
        0 <= pred < max <= 0x10000,
        m.modification_of_pic_nums_idc <= 1,
        m.abs_diff_pic_num_minus1 < max,
    ensures
        ({
            let n = lists::pic_num_no_wrap(pred, m, max);
            let diff = m.abs_diff_pic_num_minus1 + 1;
            &&& 0 <= n < max
            &&& m.modification_of_pic_nums_idc == 0 ==> n == (pred - diff) % max
            &&& m.modification_of_pic_nums_idc == 1 ==> n == (pred + diff) % max
        }),
{
    let diff = m.abs_diff_pic_num_minus1 + 1;
    let n = lists::pic_num_no_wrap(pred, m, max);
    if m.modification_of_pic_nums_idc == 0 {
        if pred - diff < 0 {
            lemma_fundamental_div_mod_converse(pred - diff, max, -1, n);
        } else {
            lemma_small_mod((pred - diff) as nat, max as nat);
        }
    } else {
        if pred + diff >= max {
            lemma_fundamental_div_mod_converse(pred + diff, max, 1, n);
        } else {
            lemma_small_mod((pred + diff) as nat, max as nat);
        }
    }
}

/// The number of the picture looked for is the one meant, moved down by a round where it
/// would come after the current picture.
pub proof fn numbers_look_back(n: int, pic: PictureData, max: int)
    requires
        0 <= n < max,
        0 <= pic.pic_num < max,
    ensures
        lists::pic_num_lx(n, pic, max) % max == n,
        pic.pic_num - max < lists::pic_num_lx(n, pic, max) <= pic.pic_num,
{
    lemma_small_mod(n as nat, max as nat);
    lemma_fundamental_div_mod_converse(n - max, max, -1, n);
}

/// Two steps, down and up again by the same difference, come back to the same number.
pub proof fn differences_undo_each_other(
    pred: int,
    down: RefPicListModification,
    up: RefPicListModification,
    max: int,
)
    requires
        0 <= pred < max <= 0x10000,
        down.modification_of_pic_nums_idc == 0,
        up.modification_of_pic_nums_idc == 1,
        down.abs_diff_pic_num_minus1 == up.abs_diff_pic_num_minus1,
        down.abs_diff_pic_num_minus1 < max,
    ensures
        lists::pic_num_no_wrap(lists::pic_num_no_wrap(pred, down, max), up, max) == pred,
{
}

////// What a modification does

/// Whether `q` is `p` once `entry` has been moved to the front, in place of the picture
/// `moved`.
pub open spec fn is_moved(
    c: Context,
    p: Progress,
    q: Progress,
    entry: DpbEntry,
    moved: Moved,
) -> bool {
    let at = if p.ref_idx < p.list.len() {
        p.ref_idx
    } else {
        p.list.len() as int
    };
    &&& q.ref_idx == at + 1
    &&& c.entries.contains(entry)
    &&& q.list == lists::inserted(p.list, p.ref_idx, entry, c.active, moved)
}

/// The number a modification counts to from `pred`, of those below `max`.
pub open spec fn counted_to(pred: int, m: RefPicListModification, max: int) -> int {
    let diff = m.abs_diff_pic_num_minus1 + 1;
    if m.modification_of_pic_nums_idc == 0 {
        (pred - diff) % max
    } else {
        (pred + diff) % max
    }
}

/// The latest number up to `current` that is `n` but for rounds of `max`.
pub open spec fn latest(n: int, current: int, max: int) -> int {
    current - (current - n) % max
}

/// A modification of a short-term reference puts in the one numbered as it says, goes on
/// from that number, and fails where there is none.
pub proof fn short_term_modifications_move_by_number(
    c: Context,
    p: Progress,
    m: RefPicListModification,
)
    requires
        m.modification_of_pic_nums_idc <= 1,
        0 <= p.pic_num_pred < c.max_pic_num <= 0x10000,
        0 <= c.pic.pic_num < c.max_pic_num,
        m.abs_diff_pic_num_minus1 < c.max_pic_num,
    ensures
        ({
            let max = c.max_pic_num as int;
            let n = counted_to(p.pic_num_pred, m, max);
            let number = latest(n, c.pic.pic_num as int, max);
            match c.short_term(p, m) {
                Ok(q) => {
                    &&& q.pic_num_pred == n
                    &&& exists|entry: DpbEntry|
                        {
                            &&& entry.pic.reference == Reference::ShortTerm
                            &&& entry.pic.pic_num == number
                            &&& #[trigger] is_moved(
                                c,
                                p,
                                q,
                                entry,
                                Moved::ShortTerm {
                                    max_pic_num: c.max_pic_num,
                                    pic_num: number as i64,
                                },
                            )
                        }
                },
                Err(e) => e == DecodeError::NoShortTerm(number as i64) && forall|k: int|
                    0 <= k < c.entries.len() ==> !((#[trigger] c.entries[k]).pic.reference
                        == Reference::ShortTerm && c.entries[k].pic.pic_num == number),
            }
        }),
{
    let max = c.max_pic_num as int;
    let current = c.pic.pic_num as int;
    differences_go_around(p.pic_num_pred, m, max);
    let n = lists::pic_num_no_wrap(p.pic_num_pred, m, max);
    let number = lists::pic_num_lx(n, c.pic, max);
    assert(n == counted_to(p.pic_num_pred, m, max));
    if n > current {
        lemma_fundamental_div_mod_converse(current - n, max, -1, current - n + max);
    } else {
        lemma_small_mod((current - n) as nat, max as nat);
    }
    assert(number == latest(n, current, max));
    numbers::lemma_first_short_term(c.entries, number);
    match dpb::short_term_numbered(c.entries, number) {
        Some(k) => {
            let q = c.short_term(p, m)->Ok_0;
            assert(is_moved(
                c,
                p,
                q,
                c.entries[k],
                Moved::ShortTerm { max_pic_num: c.max_pic_num, pic_num: number as i64 },
            ));
        },
        None => {},
    }
}

/// A modification of a long-term reference puts in the one of the number it names, leaves
/// the prediction alone, and fails where there is none.
pub proof fn long_term_modifications_move_by_number(
    c: Context,
    p: Progress,
    m: RefPicListModification,
)
    ensures
        match c.long_term(p, m) {
            Ok(q) => {
                &&& q.pic_num_pred == p.pic_num_pred
                &&& exists|entry: DpbEntry|
                    {
                        &&& entry.pic.reference == Reference::LongTerm
                        &&& entry.pic.long_term_pic_num == m.long_term_pic_num
                        &&& #[trigger] is_moved(
                            c,
                            p,
                            q,
                            entry,
                            Moved::LongTerm {
                                max: c.max_long_term_frame_idx,
                                long_term_pic_num: m.long_term_pic_num,
                            },
                        )
                    }
            },
            Err(e) => e == DecodeError::NoLongTerm(m.long_term_pic_num) && forall|k: int|
                0 <= k < c.entries.len() ==> !((#[trigger] c.entries[k]).pic.reference
                    == Reference::LongTerm && c.entries[k].pic.long_term_pic_num
                    == m.long_term_pic_num),
        },
{
    numbers::lemma_first_long_term(c.entries, m.long_term_pic_num);
    match dpb::long_term_numbered(c.entries, m.long_term_pic_num) {
        Some(k) => {
            let q = c.long_term(p, m)->Ok_0;
            assert(is_moved(
                c,
                p,
                q,
                c.entries[k],
                Moved::LongTerm {
                    max: c.max_long_term_frame_idx,
                    long_term_pic_num: m.long_term_pic_num,
                },
            ));
        },
        None => {},
    }
}

/// The picture moved is told from every other: a short-term one by its number, whatever
/// numbers long-term ones have, and a long-term one by its.
pub proof fn moved_pictures_are_told_apart(
    e: DpbEntry,
    max_pic_num: i32,
    pic_num: i64,
    max: u32,
    long_term_pic_num: u32,
)
    requires
        pic_num < max_pic_num,
        long_term_pic_num < 2 * (max + 1),
    ensures
        (Moved::ShortTerm { max_pic_num, pic_num }).spares(e) <==> !(e.pic.reference
            != Reference::LongTerm && e.pic.pic_num == pic_num),
        (Moved::LongTerm { max: MaxLongTermFrameIdx::Idx(max), long_term_pic_num }).spares(e)
            <==> !(e.pic.reference == Reference::LongTerm && e.pic.long_term_pic_num
            == long_term_pic_num),
{
}

/// A modification puts its picture in, closes the list up over where the picture was
/// further back, keeps the rest in its order, and cuts the list to its active entries.
pub proof fn modifications_close_the_list_up(
    list: Seq<DpbEntry>,
    ref_idx: int,
    entry: DpbEntry,
    active: int,
    moved: Moved,
)
    requires
        0 <= ref_idx,
        list.len() <= active,
    ensures
        ({
            let at = if ref_idx < list.len() {
                ref_idx
            } else {
                list.len() as int
            };
            let kept = list.skip(at).filter(|e: DpbEntry| moved.spares(e));
            let whole = list.take(at).push(entry) + kept;
            lists::inserted(list, ref_idx, entry, active, moved) == whole.take(
                if whole.len() < active {
                    whole.len() as int
                } else {
                    active
                },
            )
        }),
{
    let at = if ref_idx < list.len() {
        ref_idx
    } else {
        list.len() as int
    };
    let longer = list.insert(at, entry);
    assert(longer.len() <= active + 1);
    assert(longer.subrange(at + 1, longer.len() as int) =~= list.skip(at));
    assert(longer.take(at + 1) =~= list.take(at).push(entry));
    assert(longer.skip(longer.len() as int) =~= Seq::<DpbEntry>::empty());
    let kept = list.skip(at).filter(|e: DpbEntry| moved.spares(e));
    let whole = list.take(at).push(entry) + kept;
    assert(whole + Seq::<DpbEntry>::empty() =~= whole);
}

////// Which lists a slice has

/// I slices have no list, P slices have list 0 and B slices both. Where nothing is
/// modified, a list is the initial one of its kind, cut to its active entries.
pub proof fn slices_have_the_lists_of_their_type(
    s: Seq<DpbEntry>,
    pic: PictureData,
    hdr: SliceHeader,
    initial: ReferencePicLists,
    max: MaxLongTermFrameIdx,
)
    requires
        !hdr.ref_pic_list_modification_flag_l0,
        !hdr.ref_pic_list_modification_flag_l1,
    ensures
        lists::list_0(s, pic, hdr, initial, max) is Ok,
        lists::list_1(s, pic, hdr, initial, max) is Ok,
        ({
            let l0 = lists::list_0(s, pic, hdr, initial, max)->Ok_0;
            let l1 = lists::list_1(s, pic, hdr, initial, max)->Ok_0;
            let (a0, a1) = (
                hdr.num_ref_idx_l0_active_minus1 + 1,
                hdr.num_ref_idx_l1_active_minus1 + 1,
            );
            &&& hdr.slice_type is I || hdr.slice_type is Si ==> l0.len() == 0
            &&& !(hdr.slice_type is B) ==> l1.len() == 0
            &&& hdr.slice_type is P || hdr.slice_type is Sp ==> is_cut(
                l0,
                s,
                initial.ref_pic_list_p0@,
                a0,
            )
            &&& hdr.slice_type is B ==> is_cut(l0, s, initial.ref_pic_list_b0@, a0) && is_cut(
                l1,
                s,
                initial.ref_pic_list_b1@,
                a1,
            )
        }),
{
}

/// A slice that modifies its lists has what its own modifications make of the lists it
/// would have without, each of its own length.
pub proof fn modified_lists_start_from_the_initial_ones(
    s: Seq<DpbEntry>,
    pic: PictureData,
    hdr: SliceHeader,
    plain: SliceHeader,
    initial: ReferencePicLists,
    max: MaxLongTermFrameIdx,
)
    requires
        !plain.ref_pic_list_modification_flag_l0,
        !plain.ref_pic_list_modification_flag_l1,
        plain.slice_type == hdr.slice_type,
        plain.num_ref_idx_l0_active_minus1 == hdr.num_ref_idx_l0_active_minus1,
        plain.num_ref_idx_l1_active_minus1 == hdr.num_ref_idx_l1_active_minus1,
    ensures
        ({
            let l0 = lists::list_0(s, pic, hdr, initial, max);
            let l1 = lists::list_1(s, pic, hdr, initial, max);
            let (plain_0, plain_1) = (
                lists::list_0(s, pic, plain, initial, max)->Ok_0,
                lists::list_1(s, pic, plain, initial, max)->Ok_0,
            );
            let c0 = Context {
                entries: s,
                pic,
                max_pic_num: hdr.max_pic_num as i32,
                max_long_term_frame_idx: max,
                active: hdr.num_ref_idx_l0_active_minus1 + 1,
            };
            let c1 = Context { active: hdr.num_ref_idx_l1_active_minus1 + 1, ..c0 };
            let start_0 = Progress { list: plain_0, pic_num_pred: pic.pic_num as int, ref_idx: 0 };
            let start_1 = Progress { list: plain_1, ..start_0 };
            &&& hdr.ref_pic_list_modification_flag_l0 && !(hdr.slice_type is I)
                && !(hdr.slice_type is Si) ==> l0 == c0.modified(
                start_0,
                hdr.ref_pic_list_modification_l0@,
            )
            &&& !hdr.ref_pic_list_modification_flag_l0 ==> l0 == Ok::<_, DecodeError>(plain_0)
            &&& hdr.ref_pic_list_modification_flag_l1 && hdr.slice_type is B ==> l1
                == c1.modified(start_1, hdr.ref_pic_list_modification_l1@)
            &&& !hdr.ref_pic_list_modification_flag_l1 ==> l1 == Ok::<_, DecodeError>(plain_1)
        }),
{
}

/// Whether `list` is what `indices` name in `s`, up to `active` of them.
pub open spec fn is_cut(
    list: Seq<DpbEntry>,
    s: Seq<DpbEntry>,
    indices: Seq<usize>,
    active: int,
) -> bool {
    &&& list.len() == if indices.len() <= active {
        indices.len() as int
    } else {
        active
    }
    &&& forall|i: int| 0 <= i < list.len() ==> #[trigger] list[i] == s[indices[i] as int]
}

/// Modifications are made one after the other, up to the one that ends them or the first
/// that fails.
pub proof fn modifications_go_one_by_one(
    c: Context,
    mods: Seq<RefPicListModification>,
    p: Progress,
)
    ensures
        ({
            let made = c.modified(p, mods);
            let idc = mods[0].modification_of_pic_nums_idc;
            let step = if idc == 2 {
                c.long_term(p, mods[0])
            } else {
                c.short_term(p, mods[0])
            };
            &&& mods.len() == 0 ==> made == Ok::<_, DecodeError>(p.list)
            &&& mods.len() > 0 && idc == 3 ==> made == Ok::<_, DecodeError>(p.list)
            &&& mods.len() > 0 && idc > 3 ==> made == Err::<Seq<DpbEntry>, _>(
                DecodeError::ModificationIdc(idc),
            )
            &&& mods.len() > 0 && idc < 3 ==> match step {
                Ok(q) => made == c.modified(q, mods.drop_first()),
                Err(e) => made == Err::<Seq<DpbEntry>, _>(e),
            }
        }),
{
}

} // verus!

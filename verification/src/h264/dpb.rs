//! The decoded picture buffer: reference marking (8.2.5), picture numbers
//! (8.2.4.1), and the output order of C.4.
//!
//! Frames only: a sequence that codes fields never gets this far.

pub mod laws;
pub mod mmco;
pub mod numbers;
pub mod order;
pub mod ref_lists;
pub mod unplaced;

use vstd::prelude::*;

use crate::h264::picture::{PictureData, Reference};
use crate::h264::syntax::{MaxLongTermFrameIdx, RefPicMarkingInner};
use crate::surface::Handle;

verus! {

/// One frame buffer: a picture and, unless it was invented, the surface it was
/// decoded into.
#[derive(Clone, Copy, Debug)]
pub struct DpbEntry {
    pub pic: PictureData,
    pub reference: Option<Handle>,
}

/// Why a memory management control operation could not be carried out.
#[derive(Clone, Copy, Debug, PartialEq, Eq, Structural)]
pub enum MmcoError {
    /// No short-term reference has the picture number the operation names.
    NoShortTermPic,
    /// No long-term reference has the long-term picture number the operation names.
    NoLongTermPic,
    /// The operation would keep a picture that was never decoded.
    ExpectedExisting,
    /// The order counts of the picture lie too far apart.
    Overflow,
    /// There is no operation of this number.
    UnknownMmco(u8),
}

/// The decoded picture buffer.
#[derive(Debug)]
pub struct Dpb {
    entries: Vec<DpbEntry>,
    max_num_pics: usize,
    max_num_reorder_frames: usize,
}

/// What a decoded picture buffer holds.
#[verifier::ext_equal]
pub struct DpbState {
    /// The frame buffers in use, in decoding order.
    pub entries: Seq<DpbEntry>,
    /// How many frame buffers there are.
    pub max_num_pics: usize,
    pub max_num_reorder_frames: usize,
}

impl View for Dpb {
    type V = DpbState;

    closed spec fn view(&self) -> DpbState {
        DpbState {
            entries: self.entries@,
            max_num_pics: self.max_num_pics,
            max_num_reorder_frames: self.max_num_reorder_frames,
        }
    }
}

////// What the entries say

/// Whether `e` is still to be output.
pub open spec fn waiting(e: DpbEntry) -> bool {
    e.pic.needed_for_output
}

/// Whether `e` still has a use: it is to be output, or it is a reference.
pub open spec fn in_use(e: DpbEntry) -> bool {
    e.pic.needed_for_output || e.pic.spec_is_ref()
}

/// Whether any entry of `s` is still to be output.
pub open spec fn any_waiting(s: Seq<DpbEntry>) -> bool {
    exists|i: int| 0 <= i < s.len() && waiting(#[trigger] s[i])
}

/// Whether entry `i` is output no later than entry `j`: by picture order count,
/// then by decoding order.
pub open spec fn output_before(s: Seq<DpbEntry>, i: int, j: int) -> bool {
    s[i].pic.pic_order_cnt < s[j].pic.pic_order_cnt || (s[i].pic.pic_order_cnt
        == s[j].pic.pic_order_cnt && i <= j)
}

/// Whether entry `i` is the one of `s` to be output next.
pub open spec fn is_next_output(s: Seq<DpbEntry>, i: int) -> bool {
    &&& 0 <= i < s.len()
    &&& waiting(s[i])
    &&& forall|j: int|
        0 <= j < s.len() && waiting(#[trigger] s[j]) ==> output_before(s, i, j)
}

/// The entry of `s` to be output next.
pub open spec fn next_output(s: Seq<DpbEntry>) -> int {
    choose|i: int| is_next_output(s, i)
}

/// `e` once it has been output.
pub open spec fn shown(e: DpbEntry) -> DpbEntry {
    DpbEntry { pic: PictureData { needed_for_output: false, ..e.pic }, ..e }
}

/// `s` once the next entry has been output: it leaves unless it is a reference.
pub open spec fn after_bump(s: Seq<DpbEntry>) -> Seq<DpbEntry> {
    let i = next_output(s);
    if s[i].pic.spec_is_ref() {
        s.update(i, shown(s[i]))
    } else {
        s.remove(i)
    }
}

/// How many entries of `s` are still to be output.
pub open spec fn waiting_count(s: Seq<DpbEntry>) -> nat
    decreases s.len(),
{
    if s.len() == 0 {
        0
    } else {
        waiting_count(s.drop_last()) + if waiting(s.last()) {
            1nat
        } else {
            0nat
        }
    }
}

/// The pictures of the entries `s`, in order; an invented picture has none.
pub open spec fn handles(s: Seq<DpbEntry>) -> Seq<Handle>
    decreases s.len(),
{
    if s.len() == 0 {
        Seq::empty()
    } else {
        match s[0].reference {
            Some(h) => seq![h] + handles(s.drop_first()),
            None => handles(s.drop_first()),
        }
    }
}

/// Every entry of `s` still to be output, in output order.
pub open spec fn output_sequence(s: Seq<DpbEntry>) -> Seq<DpbEntry>
    decreases waiting_count(s),
    via output_sequence_ends
{
    if any_waiting(s) {
        seq![s[next_output(s)]] + output_sequence(after_bump(s))
    } else {
        Seq::empty()
    }
}

#[via_fn]
proof fn output_sequence_ends(s: Seq<DpbEntry>) {
    if any_waiting(s) {
        lemma_bump_counts_down(s);
    }
}

/// Whether C.4.5.3 has `pic` push a picture out of the `max` frame buffers `s`:
/// they are all taken, and `pic` is a reference (decoded or invented, but no
/// IDR) or comes after a picture still to be output.
pub open spec fn needs_bumping(s: Seq<DpbEntry>, max: usize, pic: PictureData) -> bool {
    &&& s.len() >= max
    &&& {
        ||| pic.nonexisting
        ||| pic.spec_is_ref() && !pic.spec_idr()
        ||| any_waiting(s) && s[next_output(s)].pic.pic_order_cnt < pic.pic_order_cnt
    }
}

/// The entries `pic` pushes out of `d`, in output order.
pub open spec fn bumped(d: DpbState, pic: PictureData) -> Seq<DpbEntry>
    decreases waiting_count(d.entries),
    via bumped_ends
{
    if d.bumps(pic) {
        seq![d.entries[next_output(d.entries)]] + bumped(d.bumped_once(), pic)
    } else {
        Seq::empty()
    }
}

#[via_fn]
proof fn bumped_ends(d: DpbState, pic: PictureData) {
    if d.bumps(pic) {
        lemma_bump_counts_down(d.entries);
    }
}

/// What is left of `d` once `pic` has pushed its pictures out.
pub open spec fn left_after_bumping(d: DpbState, pic: PictureData) -> DpbState
    decreases waiting_count(d.entries),
    via left_after_bumping_ends
{
    if d.bumps(pic) {
        left_after_bumping(d.bumped_once(), pic)
    } else {
        d
    }
}

#[via_fn]
proof fn left_after_bumping_ends(d: DpbState, pic: PictureData) {
    if d.bumps(pic) {
        lemma_bump_counts_down(d.entries);
    }
}

/// `e` marked as `reference`.
pub open spec fn marked(e: DpbEntry, reference: Reference) -> DpbEntry {
    DpbEntry { pic: PictureData { reference, ..e.pic }, ..e }
}

/// `e` with the picture numbers it has while a frame numbered `frame_num` is
/// decoded (8.2.4.1).
pub open spec fn renumbered(e: DpbEntry, frame_num: u32, max_frame_num: u32) -> DpbEntry {
    match e.pic.reference {
        Reference::Unused => e,
        Reference::LongTerm => DpbEntry {
            pic: PictureData { long_term_pic_num: e.pic.long_term_frame_idx, ..e.pic },
            ..e
        },
        Reference::ShortTerm => {
            let wrap = frame_num_wrap(e.pic.frame_num, frame_num, max_frame_num) as i32;
            DpbEntry { pic: PictureData { frame_num_wrap: wrap, pic_num: wrap, ..e.pic }, ..e }
        },
    }
}

/// `FrameNumWrap` (8-27): a frame numbered above the current one is from before
/// the numbers wrapped around.
pub open spec fn frame_num_wrap(frame_num: u32, current: u32, max_frame_num: u32) -> int {
    if frame_num > current {
        frame_num - max_frame_num
    } else {
        frame_num as int
    }
}

/// Whether `e` is a short-term reference.
pub open spec fn short_term(e: DpbEntry) -> bool {
    e.pic.reference == Reference::ShortTerm
}

/// Whether `e` is a long-term reference.
pub open spec fn long_term(e: DpbEntry) -> bool {
    e.pic.reference == Reference::LongTerm
}

/// How many entries of `s` are references.
pub open spec fn reference_count(s: Seq<DpbEntry>) -> nat
    decreases s.len(),
{
    if s.len() == 0 {
        0
    } else {
        reference_count(s.drop_last()) + if s.last().pic.spec_is_ref() {
            1nat
        } else {
            0nat
        }
    }
}

/// Whether entry `i` of `s` is the short-term reference the sliding window
/// drops next: the one with the smallest `FrameNumWrap`, the oldest of equals.
pub open spec fn is_oldest(s: Seq<DpbEntry>, i: int) -> bool {
    &&& 0 <= i < s.len()
    &&& short_term(s[i])
    &&& forall|j: int|
        0 <= j < s.len() && short_term(#[trigger] s[j]) ==> s[i].pic.frame_num_wrap
            < s[j].pic.frame_num_wrap || (s[i].pic.frame_num_wrap == s[j].pic.frame_num_wrap && i
            <= j)
}

/// The short-term reference of `s` the sliding window drops next.
pub open spec fn oldest(s: Seq<DpbEntry>) -> int {
    choose|i: int| is_oldest(s, i)
}

/// Whether any entry of `s` is a short-term reference.
pub open spec fn any_short_term(s: Seq<DpbEntry>) -> bool {
    exists|i: int| 0 <= i < s.len() && short_term(#[trigger] s[i])
}

/// `s` once the sliding window (8.2.5.3) has made room for one more reference
/// among `max`.
pub open spec fn slid(s: Seq<DpbEntry>, max: nat) -> Seq<DpbEntry>
    decreases reference_count(s),
    via slid_ends
{
    if reference_count(s) >= max && any_short_term(s) {
        slid(s.update(oldest(s), marked(s[oldest(s)], Reference::Unused)), max)
    } else {
        s
    }
}

#[via_fn]
proof fn slid_ends(s: Seq<DpbEntry>, max: nat) {
    if any_short_term(s) {
        lemma_oldest_exists(s);
        lemma_reference_count_update(s, oldest(s), marked(s[oldest(s)], Reference::Unused));
    }
}

/// Whether entry `i` is the first short-term reference of `s` numbered `pic_num`.
pub open spec fn is_short_term_numbered(s: Seq<DpbEntry>, pic_num: int, i: int) -> bool {
    &&& 0 <= i < s.len()
    &&& short_term(s[i])
    &&& s[i].pic.pic_num == pic_num
    &&& forall|j: int|
        0 <= j < i ==> !(short_term(#[trigger] s[j]) && s[j].pic.pic_num == pic_num)
}

/// The first short-term reference of `s` numbered `pic_num`, if there is one.
pub open spec fn short_term_numbered(s: Seq<DpbEntry>, pic_num: int) -> Option<int> {
    if exists|i: int| is_short_term_numbered(s, pic_num, i) {
        Some(choose|i: int| is_short_term_numbered(s, pic_num, i))
    } else {
        None
    }
}

/// Whether entry `i` is the first long-term reference of `s` numbered `num`.
pub open spec fn is_long_term_numbered(s: Seq<DpbEntry>, num: u32, i: int) -> bool {
    &&& 0 <= i < s.len()
    &&& long_term(s[i])
    &&& s[i].pic.long_term_pic_num == num
    &&& forall|j: int|
        0 <= j < i ==> !(long_term(#[trigger] s[j]) && s[j].pic.long_term_pic_num == num)
}

/// The first long-term reference of `s` numbered `num`, if there is one.
pub open spec fn long_term_numbered(s: Seq<DpbEntry>, num: u32) -> Option<int> {
    if exists|i: int| is_long_term_numbered(s, num, i) {
        Some(choose|i: int| is_long_term_numbered(s, num, i))
    } else {
        None
    }
}

/// `e`, no longer a reference if it holds the long-term frame index `idx`.
pub open spec fn index_freed(e: DpbEntry, idx: u32) -> DpbEntry {
    if long_term(e) && e.pic.long_term_frame_idx == idx {
        marked(e, Reference::Unused)
    } else {
        e
    }
}

/// Whether a long-term frame index of `idx` is above `max`.
pub open spec fn beyond(idx: u32, max: MaxLongTermFrameIdx) -> bool {
    match max {
        MaxLongTermFrameIdx::NoLongTermFrameIndices => true,
        MaxLongTermFrameIdx::Idx(m) => idx > m,
    }
}

/// `e`, no longer a reference if its long-term frame index is above `max`.
pub open spec fn capped(e: DpbEntry, max: MaxLongTermFrameIdx) -> DpbEntry {
    if long_term(e) && beyond(e.pic.long_term_frame_idx, max) {
        marked(e, Reference::Unused)
    } else {
        e
    }
}

/// `d` without the long-term references of a frame index above `max`.
pub open spec fn all_capped(d: DpbState, max: MaxLongTermFrameIdx) -> DpbState {
    d.with(d.entries.map_values(|e: DpbEntry| capped(e, max)))
}

/// The picture number operations 1 and 3 name: so many before the current one.
pub open spec fn pic_num_x(pic: PictureData, m: RefPicMarkingInner) -> int {
    pic.pic_num - (m.difference_of_pic_nums_minus1 + 1)
}

/// The current picture after operation 5 (8.2.1, 7.4.3): frame number zero, and
/// its order counts taken relative to their minimum.
pub open spec fn restarted(pic: PictureData) -> PictureData {
    PictureData {
        has_mmco_5: true,
        frame_num: 0,
        top_field_order_cnt: (pic.top_field_order_cnt - pic.pic_order_cnt) as i32,
        bottom_field_order_cnt: (pic.bottom_field_order_cnt - pic.pic_order_cnt) as i32,
        pic_order_cnt: 0,
        ..pic
    }
}

impl DpbState {
    /// An empty buffer of no frames, as it is before the first sequence.
    pub open spec fn initial() -> DpbState {
        DpbState { entries: Seq::empty(), max_num_pics: 0, max_num_reorder_frames: 0 }
    }

    /// This buffer holding `entries` instead.
    pub open spec fn with(self, entries: Seq<DpbEntry>) -> DpbState {
        DpbState { entries, ..self }
    }

    /// Whether a frame buffer is free.
    pub open spec fn has_room(self) -> bool {
        self.entries.len() < self.max_num_pics
    }

    /// Whether the next picture in output order leaves for `pic`.
    pub open spec fn bumps(self, pic: PictureData) -> bool {
        &&& needs_bumping(self.entries, self.max_num_pics, pic)
        &&& self.entries.len() >= self.max_num_reorder_frames
        &&& any_waiting(self.entries)
    }

    /// This buffer once the next picture has been output.
    pub open spec fn bumped_once(self) -> DpbState {
        self.with(after_bump(self.entries))
    }

    /// This buffer without the entries nothing needs any more.
    pub open spec fn pruned(self) -> DpbState {
        self.with(self.entries.filter(|e: DpbEntry| in_use(e)))
    }

    /// This buffer with `pic` stored in it; an invented picture is never output.
    pub open spec fn stored(self, pic: PictureData, reference: Option<Handle>) -> DpbState {
        self.with(
            self.entries.push(
                DpbEntry {
                    pic: PictureData { needed_for_output: !pic.nonexisting, ..pic },
                    reference,
                },
            ),
        )
    }

    /// This buffer with the picture numbers of 8.2.4.1.
    pub open spec fn renumbered(self, frame_num: u32, max_frame_num: u32) -> DpbState {
        self.with(
            self.entries.map_values(|e: DpbEntry| renumbered(e, frame_num, max_frame_num)),
        )
    }

    /// This buffer with no references left in it.
    pub open spec fn all_unused(self) -> DpbState {
        self.with(self.entries.map_values(|e: DpbEntry| marked(e, Reference::Unused)))
    }

    /// This buffer once the sliding window has made room among `max_num_ref_frames`.
    pub open spec fn slid(self, max_num_ref_frames: u8) -> DpbState {
        self.with(
            slid(
                self.entries,
                if max_num_ref_frames == 0 {
                    1
                } else {
                    max_num_ref_frames as nat
                },
            ),
        )
    }

    /// This buffer with the long-term frame index `idx` taken from whoever holds it.
    pub open spec fn index_freed(self, idx: u32) -> DpbState {
        self.with(self.entries.map_values(|e: DpbEntry| index_freed(e, idx)))
    }

    /// This buffer with entry `i` marked as `reference`.
    pub open spec fn remarked(self, i: int, reference: Reference) -> DpbState {
        self.with(self.entries.update(i, marked(self.entries[i], reference)))
    }
}

////// Counting

/// There is a next output wherever anything waits.
pub proof fn lemma_next_output_exists(s: Seq<DpbEntry>)
    requires
        any_waiting(s),
    ensures
        is_next_output(s, next_output(s)),
    decreases s.len(),
{
    let p = s.drop_last();
    let n = s.len() - 1;
    if any_waiting(p) {
        lemma_next_output_exists(p);
        let i = next_output(p);
        assert forall|j: int| 0 <= j < s.len() && waiting(#[trigger] s[j]) && j < n implies output_before(s, i, j) by {
            assert(p[j] == s[j]);
            assert(output_before(p, i, j));
        }
        assert(s[i] == p[i]);
        if waiting(s[n]) && !output_before(s, i, n) {
            assert(is_next_output(s, n)) by {
                assert forall|j: int| 0 <= j < s.len() && waiting(#[trigger] s[j]) implies output_before(s, n, j) by {
                    if j < n {
                        assert(output_before(s, i, j));
                    }
                }
            }
        } else {
            assert(is_next_output(s, i));
        }
    } else {
        let w = choose|i: int| 0 <= i < s.len() && waiting(#[trigger] s[i]);
        assert forall|j: int| 0 <= j < s.len() && waiting(#[trigger] s[j]) implies j == n by {
            if j < n {
                assert(waiting(p[j]));
            }
        }
        assert(is_next_output(s, n));
    }
}

/// Only one entry is output next.
pub proof fn lemma_next_output_unique(s: Seq<DpbEntry>, i: int)
    requires
        is_next_output(s, i),
    ensures
        next_output(s) == i,
{
    let k = next_output(s);
    assert(is_next_output(s, k));
    assert(waiting(s[k]));
    assert(waiting(s[i]));
}

proof fn lemma_waiting_count_update(s: Seq<DpbEntry>, i: int, e: DpbEntry)
    requires
        0 <= i < s.len(),
    ensures
        waiting_count(s.update(i, e)) + if waiting(s[i]) {
            1nat
        } else {
            0nat
        } == waiting_count(s) + if waiting(e) {
            1nat
        } else {
            0nat
        },
    decreases s.len(),
{
    let u = s.update(i, e);
    if i == s.len() - 1 {
        assert(u.drop_last() =~= s.drop_last());
    } else {
        lemma_waiting_count_update(s.drop_last(), i, e);
        assert(u.drop_last() =~= s.drop_last().update(i, e));
    }
}

proof fn lemma_waiting_count_remove(s: Seq<DpbEntry>, i: int)
    requires
        0 <= i < s.len(),
    ensures
        waiting_count(s.remove(i)) + if waiting(s[i]) {
            1nat
        } else {
            0nat
        } == waiting_count(s),
    decreases s.len(),
{
    let r = s.remove(i);
    if i == s.len() - 1 {
        assert(r =~= s.drop_last());
    } else {
        lemma_waiting_count_remove(s.drop_last(), i);
        assert(r.drop_last() =~= s.drop_last().remove(i));
        assert(r.last() == s.last());
    }
}

/// Outputting a picture leaves one fewer to output.
pub proof fn lemma_bump_counts_down(s: Seq<DpbEntry>)
    requires
        any_waiting(s),
    ensures
        waiting_count(after_bump(s)) + 1 == waiting_count(s),
{
    lemma_next_output_exists(s);
    let i = next_output(s);
    if s[i].pic.spec_is_ref() {
        lemma_waiting_count_update(s, i, shown(s[i]));
    } else {
        lemma_waiting_count_remove(s, i);
    }
}

pub proof fn lemma_reference_count_update(s: Seq<DpbEntry>, i: int, e: DpbEntry)
    requires
        0 <= i < s.len(),
    ensures
        reference_count(s.update(i, e)) + if s[i].pic.spec_is_ref() {
            1nat
        } else {
            0nat
        } == reference_count(s) + if e.pic.spec_is_ref() {
            1nat
        } else {
            0nat
        },
    decreases s.len(),
{
    let u = s.update(i, e);
    if i == s.len() - 1 {
        assert(u.drop_last() =~= s.drop_last());
    } else {
        lemma_reference_count_update(s.drop_last(), i, e);
        assert(u.drop_last() =~= s.drop_last().update(i, e));
    }
}

pub proof fn lemma_oldest_exists(s: Seq<DpbEntry>)
    requires
        any_short_term(s),
    ensures
        is_oldest(s, oldest(s)),
    decreases s.len(),
{
    let p = s.drop_last();
    let n = s.len() - 1;
    if any_short_term(p) {
        lemma_oldest_exists(p);
        let i = oldest(p);
        assert(s[i] == p[i]);
        assert forall|j: int| 0 <= j < n && short_term(#[trigger] s[j]) implies s[i].pic.frame_num_wrap
            < s[j].pic.frame_num_wrap || (s[i].pic.frame_num_wrap == s[j].pic.frame_num_wrap && i
            <= j) by {
            assert(short_term(p[j]));
        }
        if short_term(s[n]) && s[n].pic.frame_num_wrap < s[i].pic.frame_num_wrap {
            assert(is_oldest(s, n));
        } else {
            assert(is_oldest(s, i));
        }
    } else {
        let w = choose|i: int| 0 <= i < s.len() && short_term(#[trigger] s[i]);
        assert forall|j: int| 0 <= j < s.len() && short_term(#[trigger] s[j]) implies j == n by {
            if j < n {
                assert(short_term(p[j]));
            }
        }
        assert(is_oldest(s, n));
    }
}

pub proof fn lemma_oldest_unique(s: Seq<DpbEntry>, i: int)
    requires
        is_oldest(s, i),
    ensures
        oldest(s) == i,
{
    let k = oldest(s);
    assert(is_oldest(s, k));
    assert(short_term(s[k]));
    assert(short_term(s[i]));
}

////// The buffer itself

impl Dpb {
    /// Returns an empty buffer, with no frames until [`Dpb::set_limits`] is called.
    pub fn new() -> (dpb: Dpb)
        ensures
            dpb@ == DpbState::initial(),
    {
        Dpb { entries: Vec::new(), max_num_pics: 0, max_num_reorder_frames: 0 }
    }

    /// Sets how many frames the buffer holds and how deep the stream reorders.
    pub fn set_limits(&mut self, max_num_pics: usize, max_num_reorder_frames: usize)
        ensures
            final(self)@ == (DpbState { max_num_pics, max_num_reorder_frames, ..old(self)@ }),
    {
        self.max_num_pics = max_num_pics;
        self.max_num_reorder_frames = max_num_reorder_frames;
    }

    /// Returns the entries, in decoding order.
    pub fn entries(&self) -> (entries: &Vec<DpbEntry>)
        ensures
            entries@ == self@.entries,
    {
        &self.entries
    }

    /// Returns whether no frame buffer is in use.
    pub fn is_empty(&self) -> (b: bool)
        ensures
            b == (self@.entries.len() == 0),
    {
        self.entries.is_empty()
    }

    /// Returns whether a frame buffer is free.
    pub fn has_empty_frame_buffer(&self) -> (b: bool)
        ensures
            b == self@.has_room(),
    {
        self.entries.len() < self.max_num_pics
    }

    /// Empties every frame buffer without output.
    pub fn clear(&mut self)
        ensures
            final(self)@ == old(self)@.with(Seq::empty()),
    {
        self.entries.clear();
    }

    /// Marks every picture as unused for reference.
    pub fn mark_all_as_unused_for_ref(&mut self)
        ensures
            final(self)@ == old(self)@.all_unused(),
    {
        let ghost start = self.entries@;
        let mut i: usize = 0;
        while i < self.entries.len()
            invariant
                i <= self.entries@.len() == start.len(),
                start == old(self)@.entries,
                self.max_num_pics == old(self)@.max_num_pics,
                self.max_num_reorder_frames == old(self)@.max_num_reorder_frames,
                forall|k: int| 0 <= k < i ==> self.entries@[k] == marked(start[k], Reference::Unused),
                forall|k: int| i <= k < start.len() ==> self.entries@[k] == start[k],
            decreases self.entries@.len() - i,
        {
            let mut e = self.entries[i];
            e.pic.reference = Reference::Unused;
            self.entries[i] = e;
            i = i + 1;
        }
        assert(self@ =~= old(self)@.all_unused());
    }

    /// Finds the entry to be output next.
    fn find_next_output(&self) -> (found: Option<usize>)
        ensures
            match found {
                Some(i) => any_waiting(self@.entries) && is_next_output(self@.entries, i as int)
                    && i == next_output(self@.entries),
                None => !any_waiting(self@.entries),
            },
    {
        let ghost s = self.entries@;
        let mut best: Option<usize> = None;
        let mut i: usize = 0;
        while i < self.entries.len()
            invariant
                i <= self.entries@.len(),
                s == self.entries@,
                match best {
                    Some(b) => b < i && waiting(s[b as int]) && forall|j: int|
                        0 <= j < i && waiting(#[trigger] s[j]) ==> output_before(s, b as int, j),
                    None => forall|j: int| 0 <= j < i ==> !waiting(#[trigger] s[j]),
                },
            decreases self.entries@.len() - i,
        {
            if self.entries[i].pic.needed_for_output {
                match best {
                    Some(b) => {
                        if self.entries[i].pic.pic_order_cnt < self.entries[b].pic.pic_order_cnt {
                            best = Some(i);
                        }
                    },
                    None => {
                        best = Some(i);
                    },
                }
            }
            i = i + 1;
        }
        proof {
            match best {
                Some(b) => {
                    assert(is_next_output(s, b as int));
                    lemma_next_output_unique(s, b as int);
                },
                None => {},
            }
        }
        best
    }

    /// Outputs the next picture, if any waits (C.4.5.3).
    fn bump(&mut self) -> (out: Option<DpbEntry>)
        ensures
            out is Some == any_waiting(old(self)@.entries),
            match out {
                Some(e) => e == old(self)@.entries[next_output(old(self)@.entries)]
                    && final(self)@ == old(self)@.bumped_once(),
                None => final(self)@ == old(self)@,
            },
    {
        match self.find_next_output() {
            Some(i) => {
                let e = self.entries[i];
                if e.pic.is_ref() {
                    let mut after = e;
                    after.pic.needed_for_output = false;
                    self.entries[i] = after;
                } else {
                    self.entries.remove(i);
                }
                assert(self@ =~= old(self)@.bumped_once());
                Some(e)
            },
            None => None,
        }
    }

    /// Outputs every picture still waiting, in output order, and empties the buffer.
    pub fn drain(&mut self) -> (out: Vec<Handle>)
        ensures
            out@ == handles(output_sequence(old(self)@.entries)),
            final(self)@ == old(self)@.with(Seq::empty()),
    {
        let mut out: Vec<Handle> = Vec::new();
        let ghost start = self@;
        let ghost mut gone: Seq<DpbEntry> = Seq::empty();
        loop
            invariant
                self@ == start.with(self@.entries),
                out@ == handles(gone),
                gone + output_sequence(self@.entries) == output_sequence(start.entries),
            ensures
                self@ == start.with(self@.entries),
                out@ == handles(gone),
                gone == output_sequence(start.entries),
            decreases waiting_count(self@.entries),
        {
            let ghost before = self@.entries;
            match self.bump() {
                Some(e) => {
                    proof {
                        lemma_bump_counts_down(before);
                        lemma_handles_push(gone, e);
                        gone = gone.push(e);
                        assert(gone + output_sequence(self@.entries) =~= gone.drop_last() + (seq![e]
                            + output_sequence(self@.entries)));
                        assert(gone.drop_last() + output_sequence(before) == output_sequence(
                            start.entries,
                        )) by {
                            assert(gone.drop_last().push(e) =~= gone);
                        }
                    }
                    if let Some(h) = e.reference {
                        out.push(h);
                    }
                },
                None => {
                    assert(gone + Seq::<DpbEntry>::empty() =~= gone);
                    break;
                },
            }
        }
        self.entries.clear();
        assert(self@ =~= start.with(Seq::empty()));
        out
    }

    /// Drops the entries nothing needs any more.
    fn remove_unused(&mut self)
        ensures
            final(self)@ == old(self)@.pruned(),
    {
        let ghost start = self.entries@;
        let ghost p = |e: DpbEntry| in_use(e);
        let mut kept: Vec<DpbEntry> = Vec::new();
        let mut i: usize = 0;
        while i < self.entries.len()
            invariant
                i <= self.entries@.len(),
                start == self.entries@,
                p == (|e: DpbEntry| in_use(e)),
                kept@ == start.take(i as int).filter(p),
            decreases self.entries@.len() - i,
        {
            let e = self.entries[i];
            proof {
                let t = start.take(i as int + 1);
                assert(t.drop_last() =~= start.take(i as int));
                assert(t.last() == e);
                reveal(Seq::filter);
            }
            if e.pic.needed_for_output || e.pic.is_ref() {
                kept.push(e);
            }
            i = i + 1;
        }
        assert(start.take(i as int) =~= start);
        self.entries = kept;
    }

    /// Whether C.4.5.3 has `pic` push a picture out of the buffer.
    fn needs_bumping(&self, pic: &PictureData) -> (b: bool)
        ensures
            b == needs_bumping(self@.entries, self@.max_num_pics, *pic),
    {
        if self.has_empty_frame_buffer() {
            return false;
        }
        if pic.nonexisting {
            return true;
        }
        if pic.is_ref() && !pic.idr() {
            return true;
        }
        match self.find_next_output() {
            Some(i) => self.entries[i].pic.pic_order_cnt < pic.pic_order_cnt,
            None => false,
        }
    }

    /// Drops what nothing needs any more, then outputs pictures for as long as
    /// `pic` needs a frame buffer and none is free (C.4.5.3).
    pub fn bump_as_needed(&mut self, pic: &PictureData) -> (out: Vec<Handle>)
        ensures
            out@ == handles(bumped(old(self)@.pruned(), *pic)),
            final(self)@ == left_after_bumping(old(self)@.pruned(), *pic),
    {
        self.remove_unused();
        let ghost start = self@;
        let ghost mut gone: Seq<DpbEntry> = Seq::empty();
        let mut out: Vec<Handle> = Vec::new();
        while self.needs_bumping(pic) && self.entries.len() >= self.max_num_reorder_frames
            invariant_except_break
                out@ == handles(gone),
                gone + bumped(self@, *pic) == bumped(start, *pic),
                left_after_bumping(self@, *pic) == left_after_bumping(start, *pic),
            ensures
                out@ == handles(gone),
                gone == bumped(start, *pic),
                self@ == left_after_bumping(start, *pic),
            decreases waiting_count(self@.entries),
        {
            let ghost before = self@;
            match self.bump() {
                Some(e) => {
                    proof {
                        lemma_bump_counts_down(before.entries);
                        lemma_handles_push(gone, e);
                        let more = gone.push(e);
                        assert(more + bumped(self@, *pic) =~= gone + (seq![e] + bumped(self@, *pic)));
                        gone = more;
                    }
                    if let Some(h) = e.reference {
                        out.push(h);
                    }
                },
                None => {
                    assert(gone + Seq::<DpbEntry>::empty() =~= gone);
                    break;
                },
            }
        }
        out
    }

    /// Stores `pic` in a free frame buffer, to be output later unless it was
    /// invented. Returns whether there was one.
    pub fn store_picture(&mut self, pic: PictureData, reference: Option<Handle>) -> (stored: bool)
        ensures
            stored == old(self)@.has_room(),
            final(self)@ == if stored {
                old(self)@.stored(pic, reference)
            } else {
                old(self)@
            },
    {
        if !self.has_empty_frame_buffer() {
            return false;
        }
        let mut kept = pic;
        kept.needed_for_output = !pic.nonexisting;
        self.entries.push(DpbEntry { pic: kept, reference });
        true
    }

    /// Renumbers the references for the decoding of a frame numbered `frame_num`
    /// (8.2.4.1).
    pub fn update_pic_nums(&mut self, frame_num: u32, max_frame_num: u32)
        ensures
            final(self)@ == old(self)@.renumbered(frame_num, max_frame_num),
    {
        let ghost start = self.entries@;
        let mut i: usize = 0;
        while i < self.entries.len()
            invariant
                i <= self.entries@.len() == start.len(),
                start == old(self)@.entries,
                self.max_num_pics == old(self)@.max_num_pics,
                self.max_num_reorder_frames == old(self)@.max_num_reorder_frames,
                forall|k: int|
                    0 <= k < i ==> self.entries@[k] == renumbered(
                        start[k],
                        frame_num,
                        max_frame_num,
                    ),
                forall|k: int| i <= k < start.len() ==> self.entries@[k] == start[k],
            decreases self.entries@.len() - i,
        {
            let mut e = self.entries[i];
            match e.pic.reference {
                Reference::Unused => {},
                Reference::LongTerm => {
                    e.pic.long_term_pic_num = e.pic.long_term_frame_idx;
                },
                Reference::ShortTerm => {
                    let wrap: i32 = if e.pic.frame_num > frame_num {
                        #[verifier::truncate]
                        ((e.pic.frame_num as i64 - max_frame_num as i64) as i32)
                    } else {
                        #[verifier::truncate]
                        (e.pic.frame_num as i32)
                    };
                    e.pic.frame_num_wrap = wrap;
                    e.pic.pic_num = wrap;
                },
            }
            self.entries[i] = e;
            i = i + 1;
        }
        assert(self@ =~= old(self)@.renumbered(frame_num, max_frame_num));
    }

    /// Counts the references.
    fn num_ref_frames(&self) -> (n: usize)
        ensures
            n == reference_count(self@.entries),
    {
        let ghost s = self.entries@;
        let mut n: usize = 0;
        let mut i: usize = 0;
        while i < self.entries.len()
            invariant
                i <= self.entries@.len(),
                n <= i,
                s == self.entries@,
                n == reference_count(s.take(i as int)),
            decreases self.entries@.len() - i,
        {
            proof {
                let t = s.take(i as int + 1);
                assert(t.drop_last() =~= s.take(i as int));
                assert(t.last() == s[i as int]);
            }
            if self.entries[i].pic.is_ref() {
                n = n + 1;
            }
            i = i + 1;
        }
        assert(s.take(i as int) =~= s);
        n
    }

    /// Finds the short-term reference the sliding window drops next.
    fn find_oldest(&self) -> (found: Option<usize>)
        ensures
            match found {
                Some(i) => any_short_term(self@.entries) && is_oldest(self@.entries, i as int) && i
                    == oldest(self@.entries),
                None => !any_short_term(self@.entries),
            },
    {
        let ghost s = self.entries@;
        let mut best: Option<usize> = None;
        let mut i: usize = 0;
        while i < self.entries.len()
            invariant
                i <= self.entries@.len(),
                s == self.entries@,
                match best {
                    Some(b) => b < i && short_term(s[b as int]) && forall|j: int|
                        0 <= j < i && short_term(#[trigger] s[j]) ==> s[b as int].pic.frame_num_wrap
                            < s[j].pic.frame_num_wrap || (s[b as int].pic.frame_num_wrap
                            == s[j].pic.frame_num_wrap && b <= j),
                    None => forall|j: int| 0 <= j < i ==> !short_term(#[trigger] s[j]),
                },
            decreases self.entries@.len() - i,
        {
            if self.entries[i].pic.reference == Reference::ShortTerm {
                match best {
                    Some(b) => {
                        if self.entries[i].pic.frame_num_wrap < self.entries[b].pic.frame_num_wrap {
                            best = Some(i);
                        }
                    },
                    None => {
                        best = Some(i);
                    },
                }
            }
            i = i + 1;
        }
        proof {
            match best {
                Some(b) => {
                    assert(is_oldest(s, b as int));
                    lemma_oldest_unique(s, b as int);
                },
                None => {},
            }
        }
        best
    }

    /// 8.2.5.3: drops the oldest short-term references until one more picture
    /// fits among `max_num_ref_frames`.
    pub fn sliding_window_marking(&mut self, max_num_ref_frames: u8)
        ensures
            final(self)@ == old(self)@.slid(max_num_ref_frames),
    {
        let max: usize = if max_num_ref_frames == 0 {
            1
        } else {
            max_num_ref_frames as usize
        };
        let ghost start = self.entries@;
        while self.num_ref_frames() >= max
            invariant_except_break
                slid(self.entries@, max as nat) == slid(start, max as nat),
                self.max_num_pics == old(self)@.max_num_pics,
                self.max_num_reorder_frames == old(self)@.max_num_reorder_frames,
            ensures
                self.entries@ == slid(start, max as nat),
                self.max_num_pics == old(self)@.max_num_pics,
                self.max_num_reorder_frames == old(self)@.max_num_reorder_frames,
            decreases reference_count(self.entries@),
        {
            let ghost s = self.entries@;
            match self.find_oldest() {
                Some(i) => {
                    let mut e = self.entries[i];
                    e.pic.reference = Reference::Unused;
                    self.entries[i] = e;
                    proof {
                        lemma_reference_count_update(s, i as int, e);
                    }
                },
                None => {
                    break;
                },
            }
        }
    }

    /// Finds the short-term reference numbered `pic_num`.
    pub fn find_short_term_with_pic_num(&self, pic_num: i64) -> (found: Option<usize>)
        ensures
            match found {
                Some(i) => i < self@.entries.len() && short_term_numbered(
                    self@.entries,
                    pic_num as int,
                ) == Some(i as int),
                None => short_term_numbered(self@.entries, pic_num as int) is None,
            },
    {
        let ghost s = self.entries@;
        let mut i: usize = 0;
        while i < self.entries.len()
            invariant
                i <= self.entries@.len(),
                s == self.entries@,
                forall|j: int|
                    0 <= j < i ==> !(short_term(#[trigger] s[j]) && s[j].pic.pic_num == pic_num),
            decreases self.entries@.len() - i,
        {
            let e = self.entries[i];
            if e.pic.reference == Reference::ShortTerm && e.pic.pic_num as i64 == pic_num {
                proof {
                    assert(is_short_term_numbered(s, pic_num as int, i as int));
                    let k = choose|k: int| is_short_term_numbered(s, pic_num as int, k);
                    assert(short_term(s[k]));
                    assert(short_term(s[i as int]));
                    assert(k == i);
                }
                return Some(i);
            }
            i = i + 1;
        }
        None
    }

    /// Finds the long-term reference numbered `num`.
    pub fn find_long_term_with_long_term_pic_num(&self, num: u32) -> (found: Option<usize>)
        ensures
            match found {
                Some(i) => i < self@.entries.len() && long_term_numbered(self@.entries, num)
                    == Some(i as int),
                None => long_term_numbered(self@.entries, num) is None,
            },
    {
        let ghost s = self.entries@;
        let mut i: usize = 0;
        while i < self.entries.len()
            invariant
                i <= self.entries@.len(),
                s == self.entries@,
                forall|j: int|
                    0 <= j < i ==> !(long_term(#[trigger] s[j]) && s[j].pic.long_term_pic_num
                        == num),
            decreases self.entries@.len() - i,
        {
            let e = self.entries[i];
            if e.pic.reference == Reference::LongTerm && e.pic.long_term_pic_num == num {
                proof {
                    assert(is_long_term_numbered(s, num, i as int));
                    let k = choose|k: int| is_long_term_numbered(s, num, k);
                    assert(long_term(s[k]));
                    assert(long_term(s[i as int]));
                    assert(k == i);
                }
                return Some(i);
            }
            i = i + 1;
        }
        None
    }
}

proof fn lemma_handles_push(s: Seq<DpbEntry>, e: DpbEntry)
    ensures
        handles(s.push(e)) == match e.reference {
            Some(h) => handles(s).push(h),
            None => handles(s),
        },
    decreases s.len(),
{
    let t = s.push(e);
    if s.len() == 0 {
        assert(t.drop_first() =~= Seq::<DpbEntry>::empty());
        assert(handles(Seq::<DpbEntry>::empty()) =~= Seq::<Handle>::empty());
        assert(handles(s) =~= Seq::<Handle>::empty());
        assert(t[0] == e);
        match e.reference {
            Some(h) => {
                assert(seq![h] + handles(t.drop_first()) =~= Seq::<Handle>::empty().push(h));
            },
            None => {},
        }
    } else {
        lemma_handles_push(s.drop_first(), e);
        assert(t.drop_first() =~= s.drop_first().push(e));
        assert(t[0] == s[0]);
        match (s[0].reference, e.reference) {
            (Some(g), Some(h)) => {
                assert(seq![g] + handles(s.drop_first()).push(h) =~= (seq![g] + handles(
                    s.drop_first(),
                )).push(h));
            },
            _ => {},
        }
    }
}

} // verus!

//! What the initial lists promise: which references they name, and how near these are.

use vstd::prelude::*;

use crate::h264::dpb::ref_lists;
use crate::h264::dpb::ref_lists::{ReferencePicLists, Run};
use crate::h264::dpb::DpbEntry;
use crate::h264::picture::{PictureData, Reference};

verus! {

////// Every run has a listing

proof fn lemma_place(run: Run, s: Seq<DpbEntry>, i: int, list: Seq<usize>, at: int) -> (place: int)
    requires
        0 <= i < s.len(),
        0 <= at <= list.len(),
        run.is_listing(s.take(i), list),
        forall|k: int|
            at <= k < list.len() ==> run.rank(s[#[trigger] list[k] as int]) > run.rank(s[i]),
    ensures
        0 <= place <= list.len(),
        forall|k: int|
            place <= k < list.len() ==> run.rank(s[#[trigger] list[k] as int]) > run.rank(s[i]),
        place > 0 ==> run.rank(s[list[place - 1] as int]) <= run.rank(s[i]),
    decreases at,
{
    if at > 0 && run.rank(s[list[at - 1] as int]) > run.rank(s[i]) {
        lemma_place(run, s, i, list, at - 1)
    } else {
        at
    }
}

proof fn lemma_listed(run: Run, s: Seq<DpbEntry>, i: int) -> (list: Seq<usize>)
    requires
        0 <= i <= s.len() <= usize::MAX,
    ensures
        run.is_listing(s.take(i), list),
    decreases i,
{
    if i == 0 {
        Seq::empty()
    } else {
        let before = lemma_listed(run, s, i - 1);
        if run.selects(s[i - 1]) {
            let at = lemma_place(run, s, i - 1, before, before.len() as int);
            ref_lists::lemma_insert_listing(run, s, i - 1, before, at);
            before.insert(at, (i - 1) as usize)
        } else {
            ref_lists::lemma_skip_listing(run, s, i - 1, before);
            before
        }
    }
}

proof fn lemma_is_listing(run: Run, s: Seq<DpbEntry>)
    requires
        s.len() <= usize::MAX,
    ensures
        run.is_listing(s, run.listing(s)),
{
    let list = lemma_listed(run, s, s.len() as int);
    assert(s.take(s.len() as int) =~= s);
    ref_lists::lemma_listing_unique(run, s, list);
}

////// What a reference is

/// How far the order counts of `e` and `pic` lie apart.
pub open spec fn distance(e: DpbEntry, pic: PictureData) -> int {
    if e.pic.pic_order_cnt <= pic.pic_order_cnt {
        pic.pic_order_cnt - e.pic.pic_order_cnt
    } else {
        e.pic.pic_order_cnt - pic.pic_order_cnt
    }
}

/// Whether `e` is a short-term reference that `pic` can tell the place of in output order.
pub open spec fn is_placed(e: DpbEntry, pic: PictureData) -> bool {
    &&& e.pic.reference == Reference::ShortTerm
    &&& pic.pic_order_cnt_type != 0 || !e.pic.nonexisting
    &&& e.pic.pic_order_cnt != pic.pic_order_cnt
}

/// Whether `list` names each entry of `s` of which `wanted` holds once, and no other.
pub open spec fn names_exactly(
    list: Seq<usize>,
    s: Seq<DpbEntry>,
    wanted: spec_fn(DpbEntry) -> bool,
) -> bool {
    &&& forall|k: int|
        0 <= k < list.len() ==> (#[trigger] list[k]) < s.len() && wanted(s[list[k] as int])
    &&& forall|i: int|
        0 <= i < s.len() && wanted(#[trigger] s[i]) ==> exists|k: int|
            0 <= k < list.len() && #[trigger] list[k] == i
    &&& forall|a: int, b: int|
        0 <= a < b < list.len() ==> #[trigger] list[a] != #[trigger] list[b]
}

/// Whether `a` and `b` follow `pic`, or both come before it.
pub open spec fn on_one_side(a: DpbEntry, b: DpbEntry, pic: PictureData) -> bool {
    a.pic.pic_order_cnt < pic.pic_order_cnt <==> b.pic.pic_order_cnt < pic.pic_order_cnt
}

////// P slices

/// The initial list of a P slice names every reference once: the short-term ones first,
/// those decoded last in front, then the long-term ones, by their number.
pub proof fn p_lists_go_by_picture_number(
    lists: ReferencePicLists,
    s: Seq<DpbEntry>,
    pic: PictureData,
    a: int,
    b: int,
)
    requires
        lists.built(s, pic),
        s.len() <= usize::MAX,
    ensures
        names_exactly(
            lists.ref_pic_list_p0@,
            s,
            |e: DpbEntry| e.pic.reference != Reference::Unused,
        ),
        0 <= a < b < lists.ref_pic_list_p0@.len() ==> {
            let (x, y) = (
                s[lists.ref_pic_list_p0@[a] as int].pic,
                s[lists.ref_pic_list_p0@[b] as int].pic,
            );
            &&& y.reference == Reference::ShortTerm ==> x.reference == Reference::ShortTerm
                && x.pic_num >= y.pic_num
            &&& x.reference == Reference::LongTerm ==> y.reference == Reference::LongTerm
                && x.long_term_pic_num <= y.long_term_pic_num
        },
{
    lemma_is_listing(Run::ShortTerm, s);
    lemma_is_listing(Run::LongTerm, s);
    let short = Run::ShortTerm.listing(s);
    let long = Run::LongTerm.listing(s);
    let list = lists.ref_pic_list_p0@;
    assert(list == short + long);
    let wanted = |e: DpbEntry| e.pic.reference != Reference::Unused;
    assert forall|k: int| 0 <= k < list.len() implies (#[trigger] list[k]) < s.len() && wanted(
        s[list[k] as int],
    ) by {
        if k < short.len() {
            assert(list[k] == short[k]);
        } else {
            assert(list[k] == long[k - short.len()]);
        }
    }
    assert forall|i: int| 0 <= i < s.len() && wanted(#[trigger] s[i]) implies exists|k: int|
        0 <= k < list.len() && #[trigger] list[k] == i by {
        if Run::ShortTerm.selects(s[i]) {
            let k = choose|k: int| 0 <= k < short.len() && #[trigger] short[k] == i;
            assert(list[k] == i);
        } else {
            assert(Run::LongTerm.selects(s[i]));
            let k = choose|k: int| 0 <= k < long.len() && #[trigger] long[k] == i;
            assert(list[short.len() + k] == i);
        }
    }
    assert forall|c: int, d: int| 0 <= c < d < list.len() implies #[trigger] list[c]
        != #[trigger] list[d] by {
        lemma_apart(Run::ShortTerm, Run::LongTerm, s, short, long, c, d);
    }
    if 0 <= a < b < list.len() {
        lemma_apart(Run::ShortTerm, Run::LongTerm, s, short, long, a, b);
        if b < short.len() {
            assert(Run::ShortTerm.lists_before(s, short[a] as int, short[b] as int));
        } else if a >= short.len() {
            let n = short.len() as int;
            assert(Run::LongTerm.lists_before(s, long[a - n] as int, long[b - n] as int));
        }
    }
}

/// Two places of a listing followed by another name different entries, and so far as they
/// are in one of them, in its order.
proof fn lemma_apart(
    first: Run,
    second: Run,
    s: Seq<DpbEntry>,
    x: Seq<usize>,
    y: Seq<usize>,
    a: int,
    b: int,
)
    requires
        first.is_listing(s, x),
        second.is_listing(s, y),
        forall|e: DpbEntry| !(#[trigger] first.selects(e) && second.selects(e)),
        0 <= a < b < (x + y).len(),
    ensures
        (x + y)[a] != (x + y)[b],
        a < x.len() ==> (x + y)[a] == x[a] && first.selects(s[x[a] as int]),
        a >= x.len() ==> (x + y)[a] == y[a - x.len()] && second.selects(
            s[y[a - x.len()] as int],
        ),
        b < x.len() ==> (x + y)[b] == x[b] && first.selects(s[x[b] as int]),
        b >= x.len() ==> (x + y)[b] == y[b - x.len()] && second.selects(
            s[y[b - x.len()] as int],
        ),
{
    let n = x.len() as int;
    if b < n {
        assert(first.lists_before(s, x[a] as int, x[b] as int));
    } else if a >= n {
        assert(second.lists_before(s, y[a - n] as int, y[b - n] as int));
    } else {
        assert(first.selects(s[x[a] as int]));
        assert(second.selects(s[y[b - n] as int]));
    }
}

////// B slices

/// What holds of the two runs of short-term references and the long-term ones, in either
/// order.
proof fn lemma_three(
    near: Run,
    far: Run,
    s: Seq<DpbEntry>,
    pic: PictureData,
    list: Seq<usize>,
    a: int,
    b: int,
)
    requires
        s.len() <= usize::MAX,
        (near == Run::Before(pic) && far == Run::After(pic)) || (near == Run::After(pic) && far
            == Run::Before(pic)),
        list == near.listing(s) + far.listing(s) + Run::LongTerm.listing(s),
    ensures
        names_exactly(
            list,
            s,
            |e: DpbEntry| is_placed(e, pic) || e.pic.reference == Reference::LongTerm,
        ),
        0 <= a < b < list.len() ==> {
            let (x, y) = (s[list[a] as int], s[list[b] as int]);
            &&& is_placed(x, pic) && is_placed(y, pic) && on_one_side(x, y, pic) ==> distance(
                x,
                pic,
            ) <= distance(y, pic)
            &&& is_placed(x, pic) && is_placed(y, pic) && !on_one_side(x, y, pic) ==> (
            x.pic.pic_order_cnt < pic.pic_order_cnt <==> near is Before)
            &&& x.pic.reference == Reference::LongTerm ==> y.pic.reference == Reference::LongTerm
                && x.pic.long_term_pic_num <= y.pic.long_term_pic_num
        },
{
    lemma_is_listing(near, s);
    lemma_is_listing(far, s);
    lemma_is_listing(Run::LongTerm, s);
    let (n, f, l) = (near.listing(s), far.listing(s), Run::LongTerm.listing(s));
    let (p, q) = (n.len() as int, n.len() + f.len());
    let wanted = |e: DpbEntry| is_placed(e, pic) || e.pic.reference == Reference::LongTerm;
    assert forall|k: int| 0 <= k < list.len() implies {
        &&& k < p ==> list[k] == n[k] && near.selects(s[list[k] as int])
        &&& p <= k < q ==> list[k] == f[k - p] && far.selects(s[list[k] as int])
        &&& q <= k ==> list[k] == l[k - q] && Run::LongTerm.selects(s[list[k] as int])
        &&& (#[trigger] list[k]) < s.len() && wanted(s[list[k] as int])
    } by {
        if k < p {
            assert(list[k] == n[k]);
        } else if k < q {
            assert(list[k] == f[k - p]);
        } else {
            assert(list[k] == l[k - q]);
        }
    }
    assert forall|i: int| 0 <= i < s.len() && wanted(#[trigger] s[i]) implies exists|k: int|
        0 <= k < list.len() && #[trigger] list[k] == i by {
        if near.selects(s[i]) {
            let k = choose|k: int| 0 <= k < n.len() && #[trigger] n[k] == i;
            assert(list[k] == i);
        } else if far.selects(s[i]) {
            let k = choose|k: int| 0 <= k < f.len() && #[trigger] f[k] == i;
            assert(list[p + k] == i);
        } else {
            assert(Run::LongTerm.selects(s[i]));
            let k = choose|k: int| 0 <= k < l.len() && #[trigger] l[k] == i;
            assert(list[q + k] == i);
        }
    }
    assert forall|c: int, d: int| 0 <= c < d < list.len() implies #[trigger] list[c]
        != #[trigger] list[d] && (d < p ==> near.lists_before(
        s,
        list[c] as int,
        list[d] as int,
    )) && (p <= c && d < q ==> far.lists_before(s, list[c] as int, list[d] as int)) && (q <= c
        ==> Run::LongTerm.lists_before(s, list[c] as int, list[d] as int)) by {
        if d < p {
            assert(near.lists_before(s, n[c] as int, n[d] as int));
        } else if p <= c && d < q {
            assert(far.lists_before(s, f[c - p] as int, f[d - p] as int));
        } else if q <= c {
            assert(Run::LongTerm.lists_before(s, l[c - q] as int, l[d - q] as int));
        }
    }
}

/// List 0 of a B slice names every reference whose place in output order is known once:
/// those before the picture first, then those after it, each by how near they are, and the
/// long-term ones last, by their number.
pub proof fn b_list_0_goes_back_then_forth(
    lists: ReferencePicLists,
    s: Seq<DpbEntry>,
    pic: PictureData,
    a: int,
    b: int,
)
    requires
        lists.built(s, pic),
        s.len() <= usize::MAX,
    ensures
        names_exactly(
            lists.ref_pic_list_b0@,
            s,
            |e: DpbEntry| is_placed(e, pic) || e.pic.reference == Reference::LongTerm,
        ),
        0 <= a < b < lists.ref_pic_list_b0@.len() ==> {
            let list = lists.ref_pic_list_b0@;
            let (x, y) = (s[list[a] as int], s[list[b] as int]);
            &&& is_placed(x, pic) && is_placed(y, pic) && on_one_side(x, y, pic) ==> distance(
                x,
                pic,
            ) <= distance(y, pic)
            &&& is_placed(x, pic) && is_placed(y, pic) && !on_one_side(x, y, pic)
                ==> x.pic.pic_order_cnt < pic.pic_order_cnt
            &&& x.pic.reference == Reference::LongTerm ==> y.pic.reference == Reference::LongTerm
                && x.pic.long_term_pic_num <= y.pic.long_term_pic_num
        },
{
    lemma_three(Run::Before(pic), Run::After(pic), s, pic, lists.ref_pic_list_b0@, a, b);
}

/// Whether short-term references lie on both sides of `pic` in output order.
pub open spec fn is_between(s: Seq<DpbEntry>, pic: PictureData) -> bool {
    &&& exists|i: int|
        0 <= i < s.len() && is_placed(#[trigger] s[i], pic) && s[i].pic.pic_order_cnt
            < pic.pic_order_cnt
    &&& exists|i: int|
        0 <= i < s.len() && is_placed(#[trigger] s[i], pic) && s[i].pic.pic_order_cnt
            > pic.pic_order_cnt
}

/// List 1 of a B slice of a picture between its references names what list 0 does: those
/// after the picture first, then those before it, each by how near they are, and the
/// long-term ones last, by their number.
pub proof fn b_list_1_goes_forth_then_back(
    lists: ReferencePicLists,
    s: Seq<DpbEntry>,
    pic: PictureData,
    a: int,
    b: int,
)
    requires
        lists.built(s, pic),
        s.len() <= usize::MAX,
        is_between(s, pic),
    ensures
        names_exactly(
            lists.ref_pic_list_b1@,
            s,
            |e: DpbEntry| is_placed(e, pic) || e.pic.reference == Reference::LongTerm,
        ),
        0 <= a < b < lists.ref_pic_list_b1@.len() ==> {
            let list = lists.ref_pic_list_b1@;
            let (x, y) = (s[list[a] as int], s[list[b] as int]);
            &&& is_placed(x, pic) && is_placed(y, pic) && on_one_side(x, y, pic) ==> distance(
                x,
                pic,
            ) <= distance(y, pic)
            &&& is_placed(x, pic) && is_placed(y, pic) && !on_one_side(x, y, pic)
                ==> x.pic.pic_order_cnt > pic.pic_order_cnt
            &&& x.pic.reference == Reference::LongTerm ==> y.pic.reference == Reference::LongTerm
                && x.pic.long_term_pic_num <= y.pic.long_term_pic_num
        },
{
    lemma_is_listing(Run::Before(pic), s);
    lemma_is_listing(Run::After(pic), s);
    let (before, after) = (Run::Before(pic).listing(s), Run::After(pic).listing(s));
    let i = choose|i: int|
        0 <= i < s.len() && is_placed(#[trigger] s[i], pic) && s[i].pic.pic_order_cnt
            < pic.pic_order_cnt;
    let j = choose|j: int|
        0 <= j < s.len() && is_placed(#[trigger] s[j], pic) && s[j].pic.pic_order_cnt
            > pic.pic_order_cnt;
    assert(Run::Before(pic).selects(s[i]));
    assert(Run::After(pic).selects(s[j]));
    let (p, q) = (ref_lists::list_b1_plain(s, pic), ref_lists::list_b0(s, pic));
    assert(p[0] == after[0] && q[0] == before[0]);
    assert(Run::Before(pic).selects(s[before[0] as int]));
    assert(Run::After(pic).selects(s[after[0] as int]));
    assert(lists.ref_pic_list_b1@ == p);
    lemma_three(Run::After(pic), Run::Before(pic), s, pic, p, a, b);
}

/// Where all short-term references lie on one side of the picture, list 1 of a B slice is
/// list 0 with its first two entries traded, if it has two: the two lists never are the
/// same unless there is one reference at most.
pub proof fn equal_b_lists_are_told_apart(
    lists: ReferencePicLists,
    s: Seq<DpbEntry>,
    pic: PictureData,
)
    requires
        lists.built(s, pic),
        s.len() <= usize::MAX,
    ensures
        lists.ref_pic_list_b0@.len() == lists.ref_pic_list_b1@.len(),
        lists.ref_pic_list_b0@.len() > 1 ==> lists.ref_pic_list_b0@ != lists.ref_pic_list_b1@,
        !is_between(s, pic) && lists.ref_pic_list_b0@.len() <= 1 ==> lists.ref_pic_list_b1@
            == lists.ref_pic_list_b0@,
        !is_between(s, pic) && lists.ref_pic_list_b0@.len() > 1 ==> {
            let (x, y) = (lists.ref_pic_list_b0@, lists.ref_pic_list_b1@);
            &&& y[0] == x[1]
            &&& y[1] == x[0]
            &&& forall|k: int| 2 <= k < x.len() ==> #[trigger] y[k] == x[k]
        },
{
    lemma_is_listing(Run::Before(pic), s);
    lemma_is_listing(Run::After(pic), s);
    let (before, after) = (Run::Before(pic).listing(s), Run::After(pic).listing(s));
    let long = Run::LongTerm.listing(s);
    let (x, y) = (lists.ref_pic_list_b0@, lists.ref_pic_list_b1@);
    lemma_three(Run::Before(pic), Run::After(pic), s, pic, x, 0, 1);
    if !is_between(s, pic) {
        if before.len() > 0 && after.len() > 0 {
            assert(Run::Before(pic).selects(s[before[0] as int]));
            assert(Run::After(pic).selects(s[after[0] as int]));
            assert(is_placed(s[before[0] as int], pic));
            assert(is_placed(s[after[0] as int], pic));
        }
        assert(before.len() == 0 || after.len() == 0);
        assert(after + before =~= before + after);
    }
    if x.len() > 1 {
        assert(x[0] != x[1]);
        if ref_lists::list_b1_plain(s, pic) == x {
            assert(y[0] == x[1]);
        }
    }
}

} // verus!

//! The initial reference picture lists of a frame (8.2.4.2).

pub mod laws;

use vstd::prelude::*;

use crate::h264::dpb;
use crate::h264::dpb::{Dpb, DpbEntry};
use crate::h264::picture::{PictureData, Reference};

verus! {

/// A run of references, and the order it is listed in.
#[derive(Clone, Copy, Debug)]
pub enum Run {
    /// Short-term references, highest picture number first.
    ShortTerm,
    /// Long-term references, lowest long-term picture number first.
    LongTerm,
    /// Short-term references output before the picture, nearest first.
    Before(PictureData),
    /// Short-term references output after the picture, nearest first.
    After(PictureData),
}

/// Whether B slices of `pic` may refer to `e` as a short-term reference: where
/// order counts are coded, an invented picture has none to go by.
pub open spec fn has_order(e: DpbEntry, pic: PictureData) -> bool {
    dpb::short_term(e) && !(pic.pic_order_cnt_type == 0 && e.pic.nonexisting)
}

impl Run {
    /// Whether `e` is in this run.
    pub open spec fn selects(self, e: DpbEntry) -> bool {
        match self {
            Run::ShortTerm => dpb::short_term(e),
            Run::LongTerm => dpb::long_term(e),
            Run::Before(pic) => has_order(e, pic) && e.pic.pic_order_cnt < pic.pic_order_cnt,
            Run::After(pic) => has_order(e, pic) && e.pic.pic_order_cnt > pic.pic_order_cnt,
        }
    }

    /// The key this run is sorted by, lowest first.
    pub open spec fn rank(self, e: DpbEntry) -> int {
        match self {
            Run::ShortTerm => -e.pic.pic_num,
            Run::LongTerm => e.pic.long_term_pic_num as int,
            Run::Before(_) => -e.pic.pic_order_cnt,
            Run::After(_) => e.pic.pic_order_cnt as int,
        }
    }

    /// Whether entry `i` of `s` is listed before entry `j`.
    pub open spec fn lists_before(self, s: Seq<DpbEntry>, i: int, j: int) -> bool {
        self.rank(s[i]) < self.rank(s[j]) || (self.rank(s[i]) == self.rank(s[j]) && i < j)
    }

    /// Whether `list` holds the positions of this run's entries of `s`, in order.
    pub open spec fn is_listing(self, s: Seq<DpbEntry>, list: Seq<usize>) -> bool {
        &&& forall|k: int|
            0 <= k < list.len() ==> (#[trigger] list[k]) < s.len() && self.selects(
                s[list[k] as int],
            )
        &&& forall|i: int|
            0 <= i < s.len() && self.selects(#[trigger] s[i]) ==> exists|k: int|
                0 <= k < list.len() && #[trigger] list[k] == i
        &&& forall|a: int, b: int|
            0 <= a < b < list.len() ==> self.lists_before(
                s,
                #[trigger] list[a] as int,
                #[trigger] list[b] as int,
            )
    }

    /// The positions of this run's entries of `s`, in order.
    pub open spec fn listing(self, s: Seq<DpbEntry>) -> Seq<usize> {
        choose|list: Seq<usize>| self.is_listing(s, list)
    }

    fn is_selected(&self, e: &DpbEntry) -> (b: bool)
        ensures
            b == self.selects(*e),
    {
        match self {
            Run::ShortTerm => e.pic.reference == Reference::ShortTerm,
            Run::LongTerm => e.pic.reference == Reference::LongTerm,
            Run::Before(pic) => e.pic.reference == Reference::ShortTerm && !(pic.pic_order_cnt_type
                == 0 && e.pic.nonexisting) && e.pic.pic_order_cnt < pic.pic_order_cnt,
            Run::After(pic) => e.pic.reference == Reference::ShortTerm && !(pic.pic_order_cnt_type
                == 0 && e.pic.nonexisting) && e.pic.pic_order_cnt > pic.pic_order_cnt,
        }
    }

    fn key(&self, e: &DpbEntry) -> (k: i64)
        ensures
            k == self.rank(*e),
    {
        match self {
            Run::ShortTerm => -(e.pic.pic_num as i64),
            Run::LongTerm => e.pic.long_term_pic_num as i64,
            Run::Before(_) => -(e.pic.pic_order_cnt as i64),
            Run::After(_) => e.pic.pic_order_cnt as i64,
        }
    }
}

proof fn lemma_listings_agree(run: Run, s: Seq<DpbEntry>, a: Seq<usize>, b: Seq<usize>, k: nat)
    requires
        run.is_listing(s, a),
        run.is_listing(s, b),
        k <= a.len(),
        k <= b.len(),
    ensures
        a.take(k as int) == b.take(k as int),
    decreases k,
{
    if k > 0 {
        let n = (k - 1) as nat;
        lemma_listings_agree(run, s, a, b, n);
        let x = a[n as int];
        let y = b[n as int];
        assert forall|i: int| 0 <= i < n implies a[i] == b[i] by {
            assert(a.take(n as int)[i] == a[i]);
            assert(b.take(n as int)[i] == b[i]);
        }
        assert(run.selects(s[x as int]));
        assert(run.selects(s[y as int]));
        let m = choose|m: int| 0 <= m < b.len() && #[trigger] b[m] == x;
        let l = choose|l: int| 0 <= l < a.len() && #[trigger] a[l] == y;
        if x != y {
            if m < n {
                assert(run.lists_before(s, a[m] as int, a[n as int] as int));
            }
            if l < n {
                assert(run.lists_before(s, b[l] as int, b[n as int] as int));
            }
            assert(run.lists_before(s, b[n as int] as int, b[m] as int));
            assert(run.lists_before(s, a[n as int] as int, a[l] as int));
        }
        assert(a.take(k as int) =~= b.take(k as int));
    } else {
        assert(a.take(0) =~= b.take(0));
    }
}

/// A run has only one listing.
pub proof fn lemma_listing_unique(run: Run, s: Seq<DpbEntry>, list: Seq<usize>)
    requires
        run.is_listing(s, list),
    ensures
        run.listing(s) == list,
{
    let a = run.listing(s);
    let b = list;
    let k = if a.len() < b.len() {
        a.len()
    } else {
        b.len()
    };
    lemma_listings_agree(run, s, a, b, k);
    if a.len() < b.len() {
        let x = b[k as int];
        assert(run.selects(s[x as int]));
        let m = choose|m: int| 0 <= m < a.len() && #[trigger] a[m] == x;
        assert(a.take(k as int)[m] == b.take(k as int)[m]);
        assert(run.lists_before(s, b[m] as int, b[k as int] as int));
    }
    if b.len() < a.len() {
        let x = a[k as int];
        assert(run.selects(s[x as int]));
        let m = choose|m: int| 0 <= m < b.len() && #[trigger] b[m] == x;
        assert(a.take(k as int)[m] == b.take(k as int)[m]);
        assert(run.lists_before(s, a[m] as int, a[k as int] as int));
    }
    assert(a.take(k as int) =~= a);
    assert(b.take(k as int) =~= b);
}

/// The initial reference picture lists of one picture, as positions in the
/// decoded picture buffer.
#[derive(Debug)]
pub struct ReferencePicLists {
    pub ref_pic_list_p0: Vec<usize>,
    pub ref_pic_list_b0: Vec<usize>,
    pub ref_pic_list_b1: Vec<usize>,
}

/// RefPicList0 of a P slice: short-term references, then long-term ones.
pub open spec fn list_p0(s: Seq<DpbEntry>) -> Seq<usize> {
    Run::ShortTerm.listing(s) + Run::LongTerm.listing(s)
}

/// RefPicList0 of a B slice of `pic`: what comes before it, what comes after,
/// and the long-term references.
pub open spec fn list_b0(s: Seq<DpbEntry>, pic: PictureData) -> Seq<usize> {
    Run::Before(pic).listing(s) + Run::After(pic).listing(s) + Run::LongTerm.listing(s)
}

/// RefPicList1 of a B slice of `pic`, before it is told apart from RefPicList0.
pub open spec fn list_b1_plain(s: Seq<DpbEntry>, pic: PictureData) -> Seq<usize> {
    Run::After(pic).listing(s) + Run::Before(pic).listing(s) + Run::LongTerm.listing(s)
}

/// RefPicList1 of a B slice of `pic`: where it would equal RefPicList0, its
/// first two entries trade places.
pub open spec fn list_b1(s: Seq<DpbEntry>, pic: PictureData) -> Seq<usize> {
    let b1 = list_b1_plain(s, pic);
    if b1.len() > 1 && b1 == list_b0(s, pic) {
        b1.update(0, b1[1]).update(1, b1[0])
    } else {
        b1
    }
}

impl ReferencePicLists {
    /// Whether these are the initial lists of `pic` over the entries `s`.
    pub open spec fn built(self, s: Seq<DpbEntry>, pic: PictureData) -> bool {
        &&& self.ref_pic_list_p0@ == list_p0(s)
        &&& self.ref_pic_list_b0@ == list_b0(s, pic)
        &&& self.ref_pic_list_b1@ == list_b1(s, pic)
    }

    /// Whether every position lies within `len` entries.
    pub open spec fn within(self, len: nat) -> bool {
        &&& all_below(self.ref_pic_list_p0@, len)
        &&& all_below(self.ref_pic_list_b0@, len)
        &&& all_below(self.ref_pic_list_b1@, len)
    }
}

/// Whether every position in `list` is below `len`.
pub open spec fn all_below(list: Seq<usize>, len: nat) -> bool {
    forall|k: int| 0 <= k < list.len() ==> (#[trigger] list[k]) < len
}

fn joined(a: &Vec<usize>, b: &Vec<usize>) -> (r: Vec<usize>)
    ensures
        r@ == a@ + b@,
{
    let mut r: Vec<usize> = Vec::new();
    let mut i: usize = 0;
    while i < a.len()
        invariant
            i <= a@.len(),
            r@ == a@.take(i as int),
        decreases a@.len() - i,
    {
        r.push(a[i]);
        i = i + 1;
        assert(a@.take(i as int) =~= a@.take(i as int - 1).push(a@[i as int - 1]));
    }
    assert(a@.take(i as int) =~= a@);
    let mut j: usize = 0;
    while j < b.len()
        invariant
            j <= b@.len(),
            r@ == a@ + b@.take(j as int),
        decreases b@.len() - j,
    {
        r.push(b[j]);
        j = j + 1;
        assert(a@ + b@.take(j as int) =~= (a@ + b@.take(j as int - 1)).push(b@[j as int - 1]));
    }
    assert(b@.take(j as int) =~= b@);
    r
}

fn same(a: &Vec<usize>, b: &Vec<usize>) -> (r: bool)
    ensures
        r == (a@ == b@),
{
    if a.len() != b.len() {
        return false;
    }
    let mut i: usize = 0;
    while i < a.len()
        invariant
            i <= a@.len() == b@.len(),
            forall|k: int| 0 <= k < i ==> a@[k] == b@[k],
        decreases a@.len() - i,
    {
        if a[i] != b[i] {
            return false;
        }
        i = i + 1;
    }
    assert(a@ =~= b@);
    true
}

impl Dpb {
    /// Lists one run of references.
    fn list(&self, run: Run) -> (list: Vec<usize>)
        ensures
            list@ == run.listing(self@.entries),
            all_below(list@, self@.entries.len()),
    {
        let ghost s = self.entries@;
        let mut list: Vec<usize> = Vec::new();
        let mut i: usize = 0;
        while i < self.entries.len()
            invariant
                i <= self.entries@.len(),
                s == self.entries@,
                run.is_listing(s.take(i as int), list@),
            decreases self.entries@.len() - i,
        {
            let ghost before = list@;
            let ghost t = s.take(i as int);
            let ghost u = s.take(i as int + 1);
            if run.is_selected(&self.entries[i]) {
                let key: i64 = run.key(&self.entries[i]);
                let mut at: usize = list.len();
                while at > 0 && run.key(&self.entries[list[at - 1]]) > key
                    invariant
                        at <= list@.len(),
                        list@ == before,
                        i < self.entries@.len(),
                        s == self.entries@,
                        t == s.take(i as int),
                        key == run.rank(s[i as int]),
                        run.is_listing(t, list@),
                        forall|k: int| at <= k < list@.len() ==> run.rank(s[#[trigger] list@[k] as int]) > key,
                    decreases at,
                {
                    at = at - 1;
                }
                list.insert(at, i);
                proof {
                    lemma_insert_listing(run, s, i as int, before, at as int);
                }
            } else {
                proof {
                    lemma_skip_listing(run, s, i as int, before);
                }
            }
            i = i + 1;
        }
        proof {
            assert(s.take(i as int) =~= s);
            lemma_listing_unique(run, s, list@);
        }
        list
    }

    /// Builds the initial reference picture lists of `pic`.
    pub fn build_ref_pic_lists(&self, pic: &PictureData) -> (lists: ReferencePicLists)
        ensures
            lists.built(self@.entries, *pic),
            lists.within(self@.entries.len()),
    {
        let short = self.list(Run::ShortTerm);
        let long = self.list(Run::LongTerm);
        let before = self.list(Run::Before(*pic));
        let after = self.list(Run::After(*pic));

        let p0 = joined(&short, &long);
        let b0 = joined(&joined(&before, &after), &long);
        let mut b1 = joined(&joined(&after, &before), &long);
        if b1.len() > 1 && same(&b1, &b0) {
            let first: usize = b1[0];
            let second: usize = b1[1];
            b1[0] = second;
            b1[1] = first;
        }
        ReferencePicLists { ref_pic_list_p0: p0, ref_pic_list_b0: b0, ref_pic_list_b1: b1 }
    }
}

pub proof fn lemma_skip_listing(run: Run, s: Seq<DpbEntry>, i: int, list: Seq<usize>)
    requires
        0 <= i < s.len(),
        run.is_listing(s.take(i), list),
        !run.selects(s[i]),
    ensures
        run.is_listing(s.take(i + 1), list),
{
    let t = s.take(i);
    let u = s.take(i + 1);
    assert forall|j: int| 0 <= j < u.len() && run.selects(#[trigger] u[j]) implies exists|k: int|
        0 <= k < list.len() && #[trigger] list[k] == j by {
        assert(t[j] == u[j]);
    }
    assert forall|k: int| 0 <= k < list.len() implies (#[trigger] list[k]) < u.len()
        && run.selects(u[list[k] as int]) by {
        assert(t[list[k] as int] == u[list[k] as int]);
    }
    assert forall|a: int, b: int| 0 <= a < b < list.len() implies run.lists_before(
        u,
        #[trigger] list[a] as int,
        #[trigger] list[b] as int,
    ) by {
        assert(run.lists_before(t, list[a] as int, list[b] as int));
        assert(t[list[a] as int] == u[list[a] as int]);
        assert(t[list[b] as int] == u[list[b] as int]);
    }
}

pub proof fn lemma_insert_listing(run: Run, s: Seq<DpbEntry>, i: int, list: Seq<usize>, at: int)
    requires
        0 <= i < s.len() <= usize::MAX,
        run.is_listing(s.take(i), list),
        run.selects(s[i]),
        0 <= at <= list.len(),
        forall|k: int| at <= k < list.len() ==> run.rank(s[#[trigger] list[k] as int]) > run.rank(s[i]),
        at > 0 ==> run.rank(s[list[at - 1] as int]) <= run.rank(s[i]),
    ensures
        run.is_listing(s.take(i + 1), list.insert(at, i as usize)),
{
    let t = s.take(i);
    let u = s.take(i + 1);
    let out = list.insert(at, i as usize);
    assert forall|k: int| 0 <= k < list.len() implies (#[trigger] list[k]) < i && t[list[k] as int]
        == s[list[k] as int] && u[list[k] as int] == s[list[k] as int] && run.selects(
        s[list[k] as int],
    ) by {}
    assert forall|k: int| 0 <= k < at implies run.rank(s[#[trigger] list[k] as int]) <= run.rank(s[i]) by {
        if k < at - 1 {
            assert(run.lists_before(t, list[k] as int, list[at - 1] as int));
        }
    }
    assert forall|k: int| 0 <= k < out.len() implies (#[trigger] out[k]) < u.len() && run.selects(
        u[out[k] as int],
    ) by {
        if k < at {
            assert(out[k] == list[k]);
        } else if k > at {
            assert(out[k] == list[k - 1]);
        }
    }
    assert forall|j: int| 0 <= j < u.len() && run.selects(#[trigger] u[j]) implies exists|k: int|
        0 <= k < out.len() && #[trigger] out[k] == j by {
        if j == i {
            assert(out[at] == j);
        } else {
            assert(t[j] == u[j]);
            let k = choose|k: int| 0 <= k < list.len() && #[trigger] list[k] == j;
            if k < at {
                assert(out[k] == j);
            } else {
                assert(out[k + 1] == j);
            }
        }
    }
    assert forall|a: int, b: int| 0 <= a < b < out.len() implies run.lists_before(
        u,
        #[trigger] out[a] as int,
        #[trigger] out[b] as int,
    ) by {
        let pa = if a < at {
            a
        } else {
            a - 1
        };
        let pb = if b < at {
            b
        } else {
            b - 1
        };
        if a != at {
            assert(out[a] == list[pa]);
        }
        if b != at {
            assert(out[b] == list[pb]);
        }
        if a != at && b != at {
            assert(run.lists_before(t, list[pa] as int, list[pb] as int));
        }
    }
}

} // verus!

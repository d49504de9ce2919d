//! Cursor-based overscan pagination, shared by every listing endpoint.
//!
//! A listing walks an ordered source. A page holds at most `limit` items that
//! lie strictly beyond the cursor in the requested order; when strictly more
//! items exist beyond the page, `next_cursor` carries the key of the page's
//! last item, and resuming from it continues the walk without gaps or
//! repetition.

use vstd::prelude::*;

verus! {

/// Largest number of items a single page may carry; an absent or zero limit
/// falls back to it.
pub const MAX_PAGE_SIZE: usize = 50;

/// One page of a listing: the items in order, plus the key to resume from.
/// `next_cursor` is present exactly when strictly more items exist beyond
/// `data` under the requested ordering.
pub struct Page<T> {
    pub data: Vec<T>,
    pub next_cursor: Option<u64>,
}

/// A listing item ordered by an unsigned key.
pub trait Keyed: Sized + Copy {
    spec fn key_spec(self) -> u64;

    fn key(&self) -> (k: u64)
        ensures
            k == self.key_spec(),
    ;
}

impl Keyed for u64 {
    open spec fn key_spec(self) -> u64 {
        self
    }

    fn key(&self) -> (k: u64) {
        *self
    }
}

pub open spec fn spec_cap_page_limit(limit: Option<usize>) -> usize {
    match limit {
        None => MAX_PAGE_SIZE,
        Some(l) => if l == 0 || l > MAX_PAGE_SIZE {
            MAX_PAGE_SIZE
        } else {
            l
        },
    }
}

/// Clamps a caller-supplied page limit into `[1, MAX_PAGE_SIZE]`.
pub fn cap_page_limit(limit: Option<usize>) -> (r: usize)
    ensures
        1 <= r <= MAX_PAGE_SIZE,
        r == spec_cap_page_limit(limit),
{
    match limit {
        None => MAX_PAGE_SIZE,
        Some(l) => {
            if l == 0 || l > MAX_PAGE_SIZE {
                MAX_PAGE_SIZE
            } else {
                l
            }
        },
    }
}

/// `a` lies strictly before `b` in the requested order.
pub open spec fn key_before(a: u64, b: u64, descending: bool) -> bool {
    if descending {
        a > b
    } else {
        a < b
    }
}

fn key_before_exec(a: u64, b: u64, descending: bool) -> (r: bool)
    ensures
        r == key_before(a, b, descending),
{
    if descending {
        a > b
    } else {
        a < b
    }
}

/// The source is sorted strictly in the requested order.
pub open spec fn sorted_keys<T: Keyed>(s: Seq<T>, descending: bool) -> bool {
    forall|i: int, j: int|
        0 <= i < j < s.len() ==> key_before(
            #[trigger] s[i].key_spec(),
            #[trigger] s[j].key_spec(),
            descending,
        )
}

/// The items that lie strictly beyond the cursor key in the requested order:
/// the suffix starting at the first item the cursor key precedes. A cursor
/// whose key is no longer present still names a deterministic position, the
/// ordering boundary between smaller-or-equal and strictly larger keys.
pub open spec fn after_cursor<T: Keyed>(s: Seq<T>, c: u64, descending: bool) -> Seq<T>
    decreases s.len(),
{
    if s.len() == 0 {
        s
    } else if key_before(c, s[0].key_spec(), descending) {
        s
    } else {
        after_cursor(s.drop_first(), c, descending)
    }
}

/// What a listing still owes beyond the cursor: the whole source when no
/// cursor was given, and the part strictly beyond it otherwise.
pub open spec fn remaining<T: Keyed>(s: Seq<T>, cursor: Option<u64>, descending: bool) -> Seq<T> {
    match cursor {
        None => s,
        Some(c) => after_cursor(s, c, descending),
    }
}

/// The items a single page carries, given the clamped limit `k`.
pub open spec fn page_data<T: Keyed>(
    s: Seq<T>,
    cursor: Option<u64>,
    k: int,
    descending: bool,
) -> Seq<T> {
    let rem = remaining(s, cursor, descending);
    if rem.len() <= k {
        rem
    } else {
        rem.take(k)
    }
}

/// The cursor a single page hands back: the key of its last item when
/// strictly more items remain, and nothing otherwise.
pub open spec fn page_next_cursor<T: Keyed>(
    s: Seq<T>,
    cursor: Option<u64>,
    k: int,
    descending: bool,
) -> Option<u64> {
    let rem = remaining(s, cursor, descending);
    if rem.len() > k {
        Some(rem[k - 1].key_spec())
    } else {
        None
    }
}

proof fn lemma_after_cursor_at<T: Keyed>(s: Seq<T>, c: u64, descending: bool, i: int)
    requires
        0 <= i <= s.len(),
        forall|j: int| 0 <= j < i ==> !key_before(c, #[trigger] s[j].key_spec(), descending),
        i < s.len() ==> key_before(c, s[i].key_spec(), descending),
    ensures
        after_cursor(s, c, descending) == s.skip(i),
    decreases i,
{
    if i == 0 {
        assert(s.skip(0) =~= s);
    } else {
        assert(s.drop_first() =~= s.skip(1));
        lemma_after_cursor_at(s.skip(1), c, descending, i - 1);
        assert(s.skip(1).skip(i - 1) =~= s.skip(i));
    }
}

/// Fetches one page from an ordered snapshot of the source: at most the
/// clamped limit of items lying strictly beyond the cursor, plus the key to
/// resume from when strictly more items remain.
pub fn paginate<T: Keyed>(
    source: Vec<T>,
    cursor: Option<u64>,
    limit: Option<usize>,
    descending: bool,
) -> (page: Page<T>)
    requires
        sorted_keys(source@, descending),
    ensures
        page.data@ == page_data(source@, cursor, spec_cap_page_limit(limit) as int, descending),
        page.next_cursor == page_next_cursor(
            source@,
            cursor,
            spec_cap_page_limit(limit) as int,
            descending,
        ),
{
    let cap = cap_page_limit(limit);
    let ghost rem = remaining(source@, cursor, descending);

    let mut start: usize = 0;
    match cursor {
        None => {
            proof {
                assert(source@.skip(0) =~= source@);
            }
        },
        Some(c) => {
            while start < source.len() && !key_before_exec(c, source[start].key(), descending)
                invariant
                    start <= source.len(),
                    forall|j: int|
                        0 <= j < start ==> !key_before(
                            c,
                            #[trigger] source@[j].key_spec(),
                            descending,
                        ),
                decreases source.len() - start,
            {
                start += 1;
            }
            proof {
                lemma_after_cursor_at(source@, c, descending, start as int);
            }
        },
    }
    proof {
        assert(rem == source@.skip(start as int));
    }

    let mut data: Vec<T> = Vec::new();
    let mut i: usize = start;
    while i < source.len() && data.len() < cap
        invariant
            start <= i <= source.len(),
            i - start == data.len() <= cap,
            data@ =~= source@.subrange(start as int, i as int),
        decreases source.len() - i,
    {
        data.push(source[i]);
        i += 1;
    }
    proof {
        assert(data@ =~= rem.take(data@.len() as int));
        if i < source.len() {
            assert(rem.len() > cap);
            assert(data@ =~= rem.take(cap as int));
        } else {
            assert(rem.len() == data@.len());
            assert(data@ =~= rem);
        }
    }

    let next_cursor = if i < source.len() {
        proof {
            assert(data@.len() == cap);
            assert(data@[cap - 1] == rem[cap - 1]);
        }
        Some(data[cap - 1].key())
    } else {
        None
    };
    Page { data, next_cursor }
}

/// Everything that repeatedly following `next_cursor` yields, page after
/// page, starting from the given cursor. Each step takes one page of at most
/// `k` items and resumes from the key of its last item, exactly as `paginate`
/// reports it. The third arm can only be reached over an unsorted source; it
/// keeps the recursion well founded.
pub open spec fn collect_pages<T: Keyed>(
    s: Seq<T>,
    cursor: Option<u64>,
    k: int,
    descending: bool,
) -> Seq<T>
    decreases remaining(s, cursor, descending).len(),
{
    let rem = remaining(s, cursor, descending);
    if k < 1 {
        Seq::empty()
    } else if rem.len() <= k {
        rem
    } else if remaining(s, Some(rem[k - 1].key_spec()), descending).len() < rem.len() {
        rem.take(k) + collect_pages(s, Some(rem[k - 1].key_spec()), k, descending)
    } else {
        Seq::empty()
    }
}

proof fn lemma_remaining_is_suffix<T: Keyed>(s: Seq<T>, c: u64, descending: bool)
    ensures
        after_cursor(s, c, descending) == s.skip(s.len() - after_cursor(s, c, descending).len()),
        after_cursor(s, c, descending).len() <= s.len(),
    decreases s.len(),
{
    if s.len() == 0 {
        assert(s.skip(0) =~= s);
    } else if key_before(c, s[0].key_spec(), descending) {
        assert(s.skip(0) =~= s);
    } else {
        assert(s.drop_first() =~= s.skip(1));
        lemma_remaining_is_suffix(s.skip(1), c, descending);
        let rem = after_cursor(s, c, descending);
        assert(s.skip(1).skip(s.len() - 1 - rem.len()) =~= s.skip(s.len() - rem.len()));
    }
}

proof fn lemma_after_cursor_of_position<T: Keyed>(s: Seq<T>, j: int, descending: bool)
    requires
        sorted_keys(s, descending),
        0 <= j < s.len(),
    ensures
        after_cursor(s, s[j].key_spec(), descending) == s.skip(j + 1),
{
    let c = s[j].key_spec();
    assert forall|j2: int| 0 <= j2 < j + 1 implies !key_before(
        c,
        #[trigger] s[j2].key_spec(),
        descending,
    ) by {
        if j2 < j {
            assert(key_before(s[j2].key_spec(), s[j].key_spec(), descending));
        }
    }
    lemma_after_cursor_at(s, c, descending, j + 1);
}

proof fn lemma_collect_pages_all<T: Keyed>(
    s: Seq<T>,
    cursor: Option<u64>,
    k: int,
    descending: bool,
)
    requires
        sorted_keys(s, descending),
        1 <= k,
    ensures
        collect_pages(s, cursor, k, descending) == remaining(s, cursor, descending),
    decreases remaining(s, cursor, descending).len(),
{
    let rem = remaining(s, cursor, descending);
    if rem.len() <= k {
    } else {
        match cursor {
            None => {
                assert(s.skip(0) =~= s);
            },
            Some(c) => {
                lemma_remaining_is_suffix(s, c, descending);
            },
        }
        let start = s.len() - rem.len();
        assert(rem == s.skip(start));
        let j = start + k - 1;
        assert(rem[k - 1] == s[j]);
        lemma_after_cursor_of_position(s, j, descending);
        let rem2 = remaining(s, Some(rem[k - 1].key_spec()), descending);
        assert(rem2 == s.skip(j + 1));
        assert(rem2 =~= rem.skip(k));
        lemma_collect_pages_all(s, Some(rem[k - 1].key_spec()), k, descending);
        assert(rem.take(k) + rem.skip(k) =~= rem);
    }
}

/// Pagination completeness: over a source sorted strictly in the requested
/// order, starting with no cursor and repeatedly following each page's
/// `next_cursor` yields every item of the source exactly once, in order, with
/// no omission and no repetition; the walk ends at the page whose
/// `next_cursor` is absent.
pub proof fn lemma_pagination_completeness<T: Keyed>(s: Seq<T>, k: int, descending: bool)
    requires
        sorted_keys(s, descending),
        1 <= k,
    ensures
        collect_pages(s, None, k, descending) == s,
{
    lemma_collect_pages_all(s, None, k, descending);
}

/// One step of the walk that `collect_pages` formalizes agrees with what
/// `paginate` reports for the same cursor: the page's items come first, and
/// the rest is the walk resumed from the page's `next_cursor`; an absent
/// `next_cursor` ends the walk with nothing owed.
pub proof fn lemma_collect_pages_step<T: Keyed>(
    s: Seq<T>,
    cursor: Option<u64>,
    k: int,
    descending: bool,
)
    requires
        sorted_keys(s, descending),
        1 <= k,
    ensures
        collect_pages(s, cursor, k, descending) == page_data(s, cursor, k, descending)
            + (match page_next_cursor(s, cursor, k, descending) {
                None => Seq::<T>::empty(),
                Some(c) => collect_pages(s, Some(c), k, descending),
            }),
{
    let rem = remaining(s, cursor, descending);
    if rem.len() <= k {
        assert(rem + Seq::<T>::empty() =~= rem);
    } else {
        match cursor {
            None => {
                assert(s.skip(0) =~= s);
            },
            Some(c) => {
                lemma_remaining_is_suffix(s, c, descending);
            },
        }
        let start = s.len() - rem.len();
        assert(rem == s.skip(start));
        let j = start + k - 1;
        assert(rem[k - 1] == s[j]);
        lemma_after_cursor_of_position(s, j, descending);
        assert(remaining(s, Some(rem[k - 1].key_spec()), descending) =~= rem.skip(k));
    }
}

} // verus!

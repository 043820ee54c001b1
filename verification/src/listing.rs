//! Listing the events of a calendar in a time range: each of the four kinds
//! of event query is paged through, windows the API finds too big are split
//! in two, and an event met twice is only read once.
use vstd::prelude::*;

use crate::calendar::{split_window, window_halves};
use crate::constants::PAGE_SIZE;
use crate::ics::views;
use crate::text::{chars_equal, chars_of};

verus! {

/// The last kind of event query; kinds 0 to 3 are listed in turn.
pub const LAST_QUERY_TYPE: u8 = 3;

/// One page of events to request.
#[derive(Debug, Clone)]
pub struct PageRequest {
    pub from: i64,
    pub to: i64,
    pub query_type: u8,
    pub page: usize,
}

/// Whether a page says more follow: its `More` flag when present, else
/// whether it was full.
pub open spec fn page_has_more(count: nat, more: Option<u8>) -> bool {
    match more {
        Some(m) => m == 1,
        None => count == PAGE_SIZE,
    }
}

/// Whether more pages of a window follow one that held `count` events (see
/// [`page_has_more`]).
pub fn more_pages_follow(count: usize, more: Option<u8>) -> (r: bool)
    ensures
        r == page_has_more(count as nat, more),
{
    match more {
        Some(m) => m == 1,
        None => count == PAGE_SIZE,
    }
}

/// The event IDs seen after a page, and the indices of the page's events
/// that were not seen before (in order, each ID once).
pub open spec fn fresh_scan(seen: Seq<Seq<char>>, ids: Seq<Seq<char>>) -> (Seq<Seq<char>>, Seq<int>)
    decreases ids.len(),
{
    if ids.len() == 0 {
        (seen, Seq::empty())
    } else {
        let prev = fresh_scan(seen, ids.drop_last());
        if prev.0.contains(ids.last()) {
            prev
        } else {
            (prev.0.push(ids.last()), prev.1.push(ids.len() - 1))
        }
    }
}

/// Windows that tile `[from, to]` in order: the first starts at `from`, the
/// last ends at `to`, and each ends where the next starts.
pub open spec fn tiles(from: i64, to: i64, ws: Seq<(i64, i64)>) -> bool {
    &&& ws.len() > 0
    &&& ws[0].0 == from
    &&& ws.last().1 == to
    &&& forall|k: int| 0 <= k < ws.len() - 1 ==> #[trigger] ws[k].1 == ws[k + 1].0
}

/// The state of a listing of the events between `from` and `to`.
pub struct EventListing {
    from: i64,
    to: i64,
    query_type: u8,
    windows: Vec<(i64, i64)>,
    current: Option<(i64, i64)>,
    page: usize,
    seen: Vec<String>,
    paged: Ghost<Seq<(i64, i64)>>,
}

impl EventListing {
    /// The start of the listed range.
    pub closed spec fn range_from(&self) -> i64 {
        self.from
    }

    /// The end of the listed range.
    pub closed spec fn range_to(&self) -> i64 {
        self.to
    }

    /// The kind of event query being listed.
    pub closed spec fn query_type_of(&self) -> u8 {
        self.query_type
    }

    /// The windows still to list for this kind, the next one last.
    pub closed spec fn pending_windows(&self) -> Seq<(i64, i64)> {
        self.windows@
    }

    /// The window being paged through; `None` when the listing is done.
    pub closed spec fn current_window(&self) -> Option<(i64, i64)> {
        self.current
    }

    /// The page of the current window to request next.
    pub closed spec fn page_of(&self) -> usize {
        self.page
    }

    /// The IDs of the events handed out so far.
    pub closed spec fn seen_ids(&self) -> Seq<Seq<char>> {
        views(self.seen@)
    }

    /// The windows of this kind already paged through to their last page, in
    /// order.
    pub closed spec fn paged_windows(&self) -> Seq<(i64, i64)> {
        self.paged@
    }

    /// The query kind is at most 3 while the listing runs, no windows wait
    /// once it is done, no event ID was handed out twice, and the windows of
    /// the current kind (paged, current, then waiting in the order they come)
    /// tile the listed range.
    pub closed spec fn well_formed(&self) -> bool {
        &&& self.current is Some ==> self.query_type <= LAST_QUERY_TYPE
        &&& self.current is None ==> self.windows@.len() == 0
        &&& views(self.seen@).no_duplicates()
        &&& self.current matches Some(c) ==> tiles(
            self.from,
            self.to,
            self.paged@ + seq![c] + self.windows@.reverse(),
        )
    }

    /// A listing of the events between `from` and `to`: the first page of
    /// the whole range, for query kind 0.
    pub fn new(from: i64, to: i64) -> (r: EventListing)
        ensures
            r.well_formed(),
            r.range_from() == from,
            r.range_to() == to,
            r.query_type_of() == 0,
            r.pending_windows() == Seq::<(i64, i64)>::empty(),
            r.current_window() == Some((from, to)),
            r.page_of() == 0,
            r.seen_ids() == Seq::<Seq<char>>::empty(),
            r.paged_windows() == Seq::<(i64, i64)>::empty(),
    {
        let r = EventListing {
            from,
            to,
            query_type: 0,
            windows: Vec::new(),
            current: Some((from, to)),
            page: 0,
            seen: Vec::new(),
            paged: Ghost(Seq::empty()),
        };
        assert(views(r.seen@) =~= Seq::<Seq<char>>::empty());
        assert(r.paged@ + seq![(from, to)] + r.windows@.reverse() =~= seq![(from, to)]);
        r
    }

    /// The page to request next; `None` once the listing is done.
    pub fn next_request(&self) -> (r: Option<PageRequest>)
        ensures
            match self.current_window() {
                Some(w) => r matches Some(p) && p.from == w.0 && p.to == w.1 && p.query_type
                    == self.query_type_of() && p.page == self.page_of(),
                None => r is None,
            },
    {
        match self.current {
            Some((from, to)) => Some(
                PageRequest { from, to, query_type: self.query_type, page: self.page },
            ),
            None => None,
        }
    }

    /// Moves on after the last page of the current window: to the next
    /// window of this kind, else to the whole range for the next kind, else
    /// to the end of the listing.
    fn advance(&mut self)
        requires
            old(self).well_formed(),
            old(self).current is Some,
        ensures
            final(self).well_formed(),
            final(self).seen_ids() == old(self).seen_ids(),
            final(self).range_from() == old(self).range_from(),
            final(self).range_to() == old(self).range_to(),
            final(self).page_of() == 0,
            advanced(*old(self), *final(self)),
            old(self).pending_windows().len() == 0 ==> tiles(
                old(self).range_from(),
                old(self).range_to(),
                old(self).paged_windows().push(old(self).current_window()->0),
            ),
    {
        let ghost c = self.current->0;
        let ghost before = self.paged@ + seq![c] + self.windows@.reverse();
        proof {
            self.paged = Ghost(self.paged@.push(c));
        }
        let ghost w0 = self.windows@;
        match self.windows.pop() {
            Some(w) => {
                self.current = Some(w);
                assert(w0 =~= self.windows@.push(w));
                assert(self.paged@ + seq![w] + self.windows@.reverse() =~= before);
            },
            None => {
                assert(self.windows@ =~= Seq::<(i64, i64)>::empty());
                assert(before =~= self.paged@);
                if self.query_type < LAST_QUERY_TYPE {
                    self.query_type = self.query_type + 1;
                    self.current = Some((self.from, self.to));
                    proof {
                        self.paged = Ghost(Seq::empty());
                    }
                    assert(self.paged@ + seq![(self.from, self.to)] + self.windows@.reverse()
                        =~= seq![(self.from, self.to)]);
                } else {
                    self.current = None;
                }
            },
        }
        self.page = 0;
    }

    /// Reads a page: hands out the indices of its events whose IDs were not
    /// handed out before (see [`fresh_scan`]), then requests the next page
    /// of the window when the page says more follow, else moves on (see
    /// [`advanced`]).
    pub fn on_page(&mut self, ids: &Vec<String>, more: Option<u8>) -> (r: Vec<usize>)
        requires
            old(self).well_formed(),
            old(self).current_window() is Some,
            page_has_more(ids@.len(), more) ==> old(self).page_of() < usize::MAX,
        ensures
            final(self).well_formed(),
            r@.map_values(|i: usize| i as int) == fresh_scan(old(self).seen_ids(), views(ids@)).1,
            final(self).seen_ids() == fresh_scan(old(self).seen_ids(), views(ids@)).0,
            final(self).seen_ids().no_duplicates(),
            final(self).range_from() == old(self).range_from(),
            final(self).range_to() == old(self).range_to(),
            page_has_more(ids@.len(), more) ==> {
                &&& final(self).current_window() == old(self).current_window()
                &&& final(self).pending_windows() == old(self).pending_windows()
                &&& final(self).query_type_of() == old(self).query_type_of()
                &&& final(self).page_of() == old(self).page_of() + 1
            },
            !page_has_more(ids@.len(), more) ==> final(self).page_of() == 0 && advanced(
                *old(self),
                *final(self),
            ),
            !page_has_more(ids@.len(), more) && old(self).pending_windows().len() == 0 ==> tiles(
                old(self).range_from(),
                old(self).range_to(),
                old(self).paged_windows().push(old(self).current_window()->0),
            ),
    {
        let ghost seen0 = views(self.seen@);
        let mut fresh: Vec<usize> = Vec::new();
        let mut i: usize = 0;
        while i < ids.len()
            invariant
                i <= ids.len(),
                self.well_formed(),
                self.from == old(self).from,
                self.to == old(self).to,
                self.query_type == old(self).query_type,
                self.windows == old(self).windows,
                self.current == old(self).current,
                self.page == old(self).page,
                self.paged == old(self).paged,
                seen0 == old(self).seen_ids(),
                (views(self.seen@), fresh@.map_values(|k: usize| k as int)) == fresh_scan(
                    seen0,
                    views(ids@).take(i as int),
                ),
            decreases ids.len() - i,
        {
            let ghost before = views(self.seen@);
            let ghost picked = fresh@.map_values(|k: usize| k as int);
            assert(views(ids@).take(i + 1).drop_last() =~= views(ids@).take(i as int));
            assert(views(ids@).take(i + 1).last() == ids@[i as int]@);
            if !self.has_seen(ids[i].as_str()) {
                self.seen.push(ids[i].clone());
                fresh.push(i);
                assert(views(self.seen@) =~= before.push(ids@[i as int]@));
                assert(fresh@.map_values(|k: usize| k as int) =~= picked.push(i as int));
                proof {
                    lemma_push_keeps_unique(before, ids@[i as int]@);
                }
            }
            i = i + 1;
        }
        assert(views(ids@).take(ids.len() as int) =~= views(ids@));
        let has_more = more_pages_follow(ids.len(), more);
        if has_more {
            self.page = self.page + 1;
        } else {
            self.advance();
        }
        fresh
    }

    /// Whether an event ID was handed out already.
    fn has_seen(&self, id: &str) -> (r: bool)
        ensures
            r == self.seen_ids().contains(id@),
    {
        let key = chars_of(id);
        let mut i: usize = 0;
        while i < self.seen.len()
            invariant
                i <= self.seen.len(),
                key@ == id@,
                forall|j: int| 0 <= j < i ==> self.seen_ids()[j] != id@,
            decreases self.seen.len() - i,
        {
            let item = chars_of(self.seen[i].as_str());
            if chars_equal(&item, &key) {
                assert(self.seen_ids()[i as int] == id@);
                return true;
            }
            i = i + 1;
        }
        false
    }

    /// The API found the current window too big: list its two halves instead,
    /// the earlier one first, from their first pages. Returns `false`, and
    /// changes nothing, when the window cannot be split (see
    /// [`window_halves`]).
    pub fn on_window_too_big(&mut self) -> (r: bool)
        requires
            old(self).well_formed(),
            old(self).current_window() is Some,
        ensures
            final(self).well_formed(),
            final(self).seen_ids() == old(self).seen_ids(),
            final(self).range_from() == old(self).range_from(),
            final(self).range_to() == old(self).range_to(),
            final(self).query_type_of() == old(self).query_type_of(),
            split_outcome(*old(self), *final(self), r),
    {
        let (from, to) = match self.current {
            Some(w) => w,
            None => {
                return false;
            },
        };
        match split_window(from, to) {
            Some(halves) => {
                let ghost w0 = self.windows@;
                proof {
                    lemma_tiles_split(
                        self.from,
                        self.to,
                        self.paged@,
                        (from, to),
                        halves[0].1,
                        w0.reverse(),
                    );
                }
                self.windows.push(halves[1]);
                self.current = Some(halves[0]);
                self.page = 0;
                assert(self.windows@.reverse() =~= seq![halves[1]] + w0.reverse());
                assert(self.paged@ + seq![halves[0]] + self.windows@.reverse() =~= self.paged@
                    + seq![halves[0]] + (seq![halves[1]] + w0.reverse()));
                true
            },
            None => false,
        }
    }
}

/// Splitting one window of a tiling at a point inside it keeps the tiling.
proof fn lemma_tiles_split(
    from: i64,
    to: i64,
    p: Seq<(i64, i64)>,
    c: (i64, i64),
    m: i64,
    r: Seq<(i64, i64)>,
)
    requires
        tiles(from, to, p + seq![c] + r),
    ensures
        tiles(from, to, p + seq![(c.0, m)] + (seq![(m, c.1)] + r)),
{
    let a = p + seq![c] + r;
    let b = p + seq![(c.0, m)] + (seq![(m, c.1)] + r);
    let n = p.len() as int;
    assert(b.len() == a.len() + 1);
    assert(a[n] == c);
    assert(b[n] == (c.0, m));
    assert(b[n + 1] == (m, c.1));
    assert forall|k: int| 0 <= k < b.len() - 1 implies #[trigger] b[k].1 == b[k + 1].0 by {
        if k < n - 1 {
            assert(b[k] == a[k] && b[k + 1] == a[k + 1]);
            assert(a[k].1 == a[k + 1].0);
        } else if k == n - 1 {
            assert(b[k] == a[k]);
            assert(a[k].1 == a[k + 1].0);
        } else if k == n {
        } else if k == n + 1 {
            assert(b[k + 1] == a[k]);
            assert(a[n].1 == a[n + 1].0);
        } else {
            assert(b[k] == a[k - 1] && b[k + 1] == a[k]);
            assert(a[k - 1].1 == a[k].0);
        }
    }
    if n == 0 {
        assert(b[0] == (c.0, m));
    } else {
        assert(b[0] == a[0]);
    }
    if r.len() == 0 {
        assert(b.last() == (m, c.1));
        assert(a.last() == c);
    } else {
        assert(b.last() == a.last());
    }
}

/// What splitting the current window does: when it can be split (see
/// [`window_halves`]) the earlier half becomes current, from its first page,
/// and the later half waits next; otherwise nothing changes.
pub open spec fn split_outcome(before: EventListing, after: EventListing, split: bool) -> bool {
    match before.current_window() {
        Some(w) => match window_halves(w.0, w.1) {
            None => !split && after.current_window() == before.current_window()
                && after.pending_windows() == before.pending_windows() && after.page_of()
                == before.page_of(),
            Some((earlier, later)) => split && after.current_window() == Some(earlier)
                && after.pending_windows() == before.pending_windows().push(later)
                && after.page_of() == 0,
        },
        None => !split,
    }
}

/// How a listing moves on after the last page of a window: to the next
/// pending window of the same kind, else to the whole range for the next
/// kind, else to its end.
pub open spec fn advanced(before: EventListing, after: EventListing) -> bool {
    if before.pending_windows().len() > 0 {
        &&& after.current_window() == Some(before.pending_windows().last())
        &&& after.pending_windows() == before.pending_windows().drop_last()
        &&& after.query_type_of() == before.query_type_of()
    } else if before.query_type_of() < LAST_QUERY_TYPE {
        &&& after.current_window() == Some((before.range_from(), before.range_to()))
        &&& after.pending_windows() == Seq::<(i64, i64)>::empty()
        &&& after.query_type_of() == before.query_type_of() + 1
    } else {
        &&& after.current_window() is None
        &&& after.pending_windows() == Seq::<(i64, i64)>::empty()
    }
}

/// Adding an ID that is not there keeps the IDs unique.
proof fn lemma_push_keeps_unique(s: Seq<Seq<char>>, x: Seq<char>)
    requires
        s.no_duplicates(),
        !s.contains(x),
    ensures
        s.push(x).no_duplicates(),
{
    let t = s.push(x);
    assert forall|i: int, j: int| 0 <= i < t.len() && 0 <= j < t.len() && i != j implies t[i]
        != t[j] by {
        if i == s.len() {
            assert(t[j] == s[j]);
        } else if j == s.len() {
            assert(t[i] == s[i]);
        }
    }
}

/// Every ID a page hands out was not handed out before, and none twice.
pub proof fn lemma_fresh_ids_are_new(seen: Seq<Seq<char>>, ids: Seq<Seq<char>>)
    requires
        seen.no_duplicates(),
    ensures
        fresh_scan(seen, ids).0.no_duplicates(),
        fresh_scan(seen, ids).0.len() == seen.len() + fresh_scan(seen, ids).1.len(),
        forall|k: int|
            0 <= k < fresh_scan(seen, ids).1.len() ==> {
                let i = #[trigger] fresh_scan(seen, ids).1[k];
                &&& 0 <= i < ids.len()
                &&& !seen.contains(ids[i])
                &&& fresh_scan(seen, ids).0[seen.len() + k] == ids[i]
            },
        forall|j: int| 0 <= j < seen.len() ==> fresh_scan(seen, ids).0[j] == seen[j],
    decreases ids.len(),
{
    if ids.len() > 0 {
        let prev = fresh_scan(seen, ids.drop_last());
        lemma_fresh_ids_are_new(seen, ids.drop_last());
        if !prev.0.contains(ids.last()) {
            lemma_push_keeps_unique(prev.0, ids.last());
            let cur = fresh_scan(seen, ids);
            assert forall|k: int| 0 <= k < cur.1.len() implies {
                let i = #[trigger] cur.1[k];
                &&& 0 <= i < ids.len()
                &&& !seen.contains(ids[i])
                &&& cur.0[seen.len() + k] == ids[i]
            } by {
                if k < prev.1.len() {
                    let i = prev.1[k];
                    assert(ids.drop_last()[i] == ids[i]);
                } else {
                    assert(cur.1[k] == ids.len() - 1);
                    if seen.contains(ids.last()) {
                        let j = choose|j: int| 0 <= j < seen.len() && seen[j] == ids.last();
                        assert(prev.0[j] == seen[j]);
                        assert(prev.0.contains(ids.last()));
                    }
                }
            }
        } else {
            let cur = fresh_scan(seen, ids);
            assert forall|k: int| 0 <= k < cur.1.len() implies {
                let i = #[trigger] cur.1[k];
                &&& 0 <= i < ids.len()
                &&& !seen.contains(ids[i])
                &&& cur.0[seen.len() + k] == ids[i]
            } by {
                let i = prev.1[k];
                assert(ids.drop_last()[i] == ids[i]);
            }
        }
    }
}

/// No event ID is seen twice: the IDs a listing has handed out are pairwise
/// distinct in every state it can be in.
pub proof fn lemma_seen_ids_distinct(listing: EventListing)
    requires
        listing.well_formed(),
    ensures
        listing.seen_ids().no_duplicates(),
{
}

/// The windows of the kind being listed tile the listed range: those paged
/// to their end, then the current one, then those waiting, in the order they
/// come.
pub proof fn lemma_windows_tile_range(listing: EventListing)
    requires
        listing.well_formed(),
        listing.current_window() is Some,
    ensures
        tiles(
            listing.range_from(),
            listing.range_to(),
            listing.paged_windows() + seq![listing.current_window()->0]
                + listing.pending_windows().reverse(),
        ),
{
}

} // verus!

//! The budgeted list crawler's state: the wall-clock budget, the
//! session-scoped dedup set, page accounting, and the deadline-window
//! post-filter. The paging and network loop lives outside the library and
//! drives this state.

use vstd::prelude::*;
use crate::date;
use crate::date::Date;
use crate::merge;
use crate::notice::Notice;
use crate::text;

verus! {

/// The budget of one crawl invocation: an absolute deadline, a page cap
/// and a concurrency cap. Read-only after construction.
#[derive(Clone, Copy, Debug, PartialEq, Eq, Structural)]
pub struct CrawlBudget {
    pub deadline_ms: u64,
    pub max_pages: usize,
    pub max_concurrency: usize,
}

/// A first-occurrence key set: it records each key the first time the key
/// is offered and refuses repeats.
pub struct SeenKeys {
    pub keys: Vec<String>,
}

impl SeenKeys {
    /// The keys recorded so far, in acceptance order.
    pub open spec fn view_keys(self) -> Seq<Seq<char>> {
        self.keys@.map_values(|s: String| s@)
    }

    /// An empty set.
    pub fn new() -> (r: SeenKeys)
        ensures
            r.view_keys() == Seq::<Seq<char>>::empty(),
    {
        let r = SeenKeys { keys: Vec::new() };
        proof {
            assert(r.view_keys() =~= Seq::<Seq<char>>::empty());
        }
        r
    }

    /// Accepts a key: true when it was not offered before, in which case
    /// it is now recorded.
    pub fn accept(&mut self, key: &String) -> (r: bool)
        ensures
            r == !old(self).view_keys().contains(key@),
            r ==> final(self).view_keys() == old(self).view_keys().push(key@),
            !r ==> *final(self) == *old(self),
    {
        let kc = text::chars_of(key.as_str());
        let mut i: usize = 0;
        while i < self.keys.len()
            invariant
                *self == *old(self),
                kc@ == key@,
                i <= self.keys@.len(),
                forall|j: int| 0 <= j < i ==> self.keys@[j]@ != key@,
            decreases self.keys@.len() - i,
        {
            let sc = text::chars_of(self.keys[i].as_str());
            if text::seq_eq(&sc, &kc) {
                proof {
                    assert(sc@ == self.keys@[i as int]@);
                    assert(self.keys@[i as int]@ == key@);
                    assert(old(self).view_keys() == old(self).keys@.map_values(
                        |s: String| s@,
                    ));
                    assert(old(self).view_keys()[i as int] == old(self).keys@[i as int]@);
                    assert(old(self).view_keys().contains(key@));
                }
                return false;
            }
            i += 1;
        }
        proof {
            assert forall|j: int|
                0 <= j < old(self).view_keys().len() implies old(self).view_keys()[j]
                != key@ by {}
            assert(!old(self).view_keys().contains(key@));
        }
        self.keys.push(key.clone());
        proof {
            assert(self.view_keys() =~= old(self).view_keys().push(key@));
        }
        true
    }
}

/// The state of one crawl invocation: its budget, the identity keys seen
/// so far, and the next page to visit.
pub struct CrawlSession {
    pub budget: CrawlBudget,
    pub seen: SeenKeys,
    pub next_page: usize,
}

impl CrawlSession {
    /// The identity keys already accepted, in acceptance order.
    pub open spec fn seen_keys(self) -> Seq<Seq<char>> {
        self.seen.view_keys()
    }

    /// A fresh session over `budget`: nothing seen, pages start at 1.
    pub fn begin(budget: CrawlBudget) -> (r: CrawlSession)
        ensures
            r.budget == budget,
            r.seen_keys() == Seq::<Seq<char>>::empty(),
            r.next_page == 1,
    {
        CrawlSession { budget, seen: SeenKeys::new(), next_page: 1 }
    }

    /// New work may start: the deadline has not passed. Work already in
    /// flight is still awaited when this turns false.
    pub fn may_start(&self, now_ms: u64) -> (r: bool)
        ensures
            r == (now_ms < self.budget.deadline_ms),
    {
        now_ms < self.budget.deadline_ms
    }

    /// The next page number, while the page cap allows one.
    pub fn take_page(&mut self) -> (r: Option<usize>)
        requires
            old(self).budget.max_pages < usize::MAX,
        ensures
            final(self).budget == old(self).budget,
            final(self).seen == old(self).seen,
            match r {
                Some(p) => old(self).next_page <= old(self).budget.max_pages && p == old(
                    self,
                ).next_page && final(self).next_page == old(self).next_page + 1,
                None => old(self).next_page > old(self).budget.max_pages && *final(self)
                    == *old(self),
            },
    {
        if self.next_page <= self.budget.max_pages {
            let p = self.next_page;
            self.next_page = p + 1;
            Some(p)
        } else {
            None
        }
    }

    /// Accepts an identity key: true when it was not seen in this session,
    /// in which case it is now recorded. The set is touched only here,
    /// before any detail work is scheduled for the entry.
    pub fn accept_entry(&mut self, key: &String) -> (r: bool)
        ensures
            final(self).budget == old(self).budget,
            final(self).next_page == old(self).next_page,
            r == !old(self).seen_keys().contains(key@),
            r ==> final(self).seen_keys() == old(self).seen_keys().push(key@),
            !r ==> *final(self) == *old(self),
    {
        self.seen.accept(key)
    }
}

/// A notice stays only when its end date resolves and falls inside the
/// deadline window: items without a resolvable end date are excluded.
pub open spec fn keep_in_window(n: Notice, today: Date, window: int) -> bool {
    match merge::parse_opt(n.end) {
        Some(e) => date::in_window(e, today, window),
        None => false,
    }
}

/// The notices of `l` from `i` on that stay inside the window.
pub open spec fn window_filter_from(l: Seq<Notice>, i: int, today: Date, window: int) -> Seq<
    Notice,
>
    decreases l.len() - i when 0 <= i <= l.len()
{
    if i >= l.len() {
        Seq::empty()
    } else if keep_in_window(l[i], today, window) {
        seq![l[i]] + window_filter_from(l, i + 1, today, window)
    } else {
        window_filter_from(l, i + 1, today, window)
    }
}

/// The notices of `l` that stay inside the window.
pub open spec fn window_filter(l: Seq<Notice>, today: Date, window: int) -> Seq<Notice> {
    window_filter_from(l, 0, today, window)
}

/// Whether a notice stays inside the window; see [`keep_in_window`].
pub fn keep_in_window_exec(n: &Notice, today: &Date, window: i64) -> (r: bool)
    requires
        today.wf(),
    ensures
        r == keep_in_window(*n, *today, window as int),
{
    match &n.end {
        Some(s) => {
            let cs = text::chars_of(s.as_str());
            match date::parse_ymd(&cs) {
                Some(e) => date::in_window_exec(&e, today, window),
                None => false,
            }
        },
        None => false,
    }
}

/// The deadline-window post-filter, applied to the whole accumulated
/// collection; see [`window_filter`].
pub fn retain_within_window(l: Vec<Notice>, today: &Date, window: i64) -> (r: Vec<Notice>)
    requires
        today.wf(),
    ensures
        r@ == window_filter(l@, *today, window as int),
{
    let mut out: Vec<Notice> = Vec::new();
    let mut i: usize = 0;
    while i < l.len()
        invariant
            i <= l@.len(),
            today.wf(),
            window_filter(l@, *today, window as int) == out@ + window_filter_from(
                l@,
                i as int,
                *today,
                window as int,
            ),
        decreases l@.len() - i,
    {
        if keep_in_window_exec(&l[i], today, window) {
            let ghost prev = out@;
            out.push(l[i].duplicate());
            proof {
                assert(prev + (seq![l@[i as int]] + window_filter_from(
                    l@,
                    i as int + 1,
                    *today,
                    window as int,
                )) =~= (prev + seq![l@[i as int]]) + window_filter_from(
                    l@,
                    i as int + 1,
                    *today,
                    window as int,
                ));
            }
        }
        i += 1;
    }
    proof {
        assert(out@ + window_filter_from(l@, i as int, *today, window as int) =~= out@);
    }
    out
}

/// A notice whose end date is today stays exactly when the window is not
/// negative.
pub proof fn lemma_window_today(n: Notice, today: Date, window: int)
    requires
        merge::parse_opt(n.end) == Some(today),
    ensures
        keep_in_window(n, today, window) <==> window >= 0,
{
}

/// A notice whose end date is the day before today is always dropped.
pub proof fn lemma_window_past(n: Notice, e: Date, today: Date, window: int)
    requires
        merge::parse_opt(n.end) == Some(e),
        date::day_number(e.y as int, e.m as int, e.d as int) == date::day_number(
            today.y as int,
            today.m as int,
            today.d as int,
        ) - 1,
    ensures
        !keep_in_window(n, today, window),
{
}

/// A notice whose end date lies one day past the window is dropped.
pub proof fn lemma_window_beyond(n: Notice, e: Date, today: Date, window: int)
    requires
        merge::parse_opt(n.end) == Some(e),
        date::day_number(e.y as int, e.m as int, e.d as int) == date::day_number(
            today.y as int,
            today.m as int,
            today.d as int,
        ) + window + 1,
    ensures
        !keep_in_window(n, today, window),
{
}

} // verus!

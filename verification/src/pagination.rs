//! The walk through the pages of results for one search term: which page
//! comes next, and when the walk ends.
use vstd::prelude::*;
use crate::searcher::SearchError;

verus! {

/// Whether page `page` may be asked for under the page limit `max_pages`.
pub open spec fn within_limit(max_pages: Option<u32>, page: int) -> bool {
    match max_pages {
        Some(m) => page <= m,
        None => true,
    }
}

/// How many pages are asked for, from page `page` on, when the answers to
/// them say in turn whether more pages follow. A page is asked for only within
/// the limit, and only where the answer to the page before said that more
/// follow; answers past the known ones are not counted.
pub open spec fn pages_asked(max_pages: Option<u32>, page: int, more: Seq<bool>) -> nat
    decreases more.len(),
{
    if !within_limit(max_pages, page) || more.len() == 0 {
        0
    } else if !more[0] {
        1
    } else {
        1 + pages_asked(max_pages, page + 1, more.drop_first())
    }
}

/// What the walk does next: ask for a page, stop, or stop on an error.
#[derive(Debug, PartialEq)]
pub enum WalkStep {
    Ask(u32),
    Done,
    Failed(SearchError),
}

/// The position of the walk for one term: the page that is asked for next,
/// the page limit, whether the walk is over, and the answers so far.
pub struct PageCursor {
    page: u32,
    max_pages: Option<u32>,
    finished: bool,
    answers: Ghost<Seq<bool>>,
}

/// Where every page asked for lies within the limit and every answer but the
/// last said that more pages follow, the walk asked for as many pages as it
/// has answers. If it stops there, no further answer adds a page; if it goes
/// on, the next page is asked for.
pub proof fn lemma_pages_asked(max: Option<u32>, page: int, more: Seq<bool>)
    requires
        forall|i: int| 0 <= i < more.len() - 1 ==> #[trigger] more[i],
        forall|k: int| page <= k < page + more.len() ==> within_limit(max, k),
    ensures
        pages_asked(max, page, more) == more.len(),
        (more.len() > 0 && !more[more.len() - 1]) || !within_limit(max, page + more.len())
            ==> forall|x: bool| #[trigger] pages_asked(max, page, more.push(x)) == more.len(),
        (more.len() == 0 || more[more.len() - 1]) && within_limit(max, page + more.len())
            ==> pages_asked(max, page, more.push(true)) == more.len() + 1,
    decreases more.len(),
{
    if more.len() == 0 {
        assert forall|x: bool| #[trigger] pages_asked(max, page, more.push(x)) == (if within_limit(max, page) { 1nat } else { 0nat }) by {
            let s = more.push(x);
            assert(s.drop_first() =~= Seq::<bool>::empty());
            assert(s[0] == x);
            assert(pages_asked(max, page + 1, Seq::<bool>::empty()) == 0);
        }
    } else {
        let rest = more.drop_first();
        assert(within_limit(max, page));
        assert forall|i: int| 0 <= i < rest.len() - 1 implies #[trigger] rest[i] by {
            assert(rest[i] == more[i + 1]);
        }
        assert forall|k: int| page + 1 <= k < page + 1 + rest.len() implies within_limit(max, k) by {}
        lemma_pages_asked(max, page + 1, rest);
        assert forall|x: bool| #[trigger] more.push(x).drop_first() == rest.push(x) by {
            assert(more.push(x).drop_first() =~= rest.push(x));
        }
        if more.len() > 1 {
            assert(more[0]);
        }
        if more.len() == 1 {
            assert(rest =~= Seq::<bool>::empty());
        }
        assert forall|x: bool|
            (more.len() > 0 && !more[more.len() - 1]) || !within_limit(max, page + more.len())
                implies #[trigger] pages_asked(max, page, more.push(x)) == more.len() by {
            let s = more.push(x);
            assert(s[0] == more[0]);
            assert(s.drop_first() == rest.push(x));
            assert(pages_asked(max, page, s) == if !s[0] {
                1
            } else {
                1 + pages_asked(max, page + 1, s.drop_first())
            });
            if more.len() > 1 {
                assert(rest[rest.len() - 1] == more[more.len() - 1]);
            }
            if more[0] {
                assert(pages_asked(max, page + 1, rest.push(x)) == rest.len());
            }
        }
        if (more.len() == 0 || more[more.len() - 1]) && within_limit(max, page + more.len()) {
            let s = more.push(true);
            assert(s[0] == more[0]);
            assert(s.drop_first() == rest.push(true));
            if more.len() > 1 {
                assert(rest[rest.len() - 1] == more[more.len() - 1]);
            }
        }
    }
}

impl PageCursor {
    /// The page that is asked for next.
    pub closed spec fn current(&self) -> u32 {
        self.page
    }

    /// The page limit of the walk.
    pub closed spec fn limit(&self) -> Option<u32> {
        self.max_pages
    }

    /// Whether the walk is over.
    pub closed spec fn is_finished(&self) -> bool {
        self.finished
    }

    /// The answers to the pages asked for so far, in page order: whether more
    /// pages follow.
    pub closed spec fn answers(&self) -> Seq<bool> {
        self.answers@
    }

    #[verifier::type_invariant]
    spec fn walk_so_far(&self) -> bool {
        &&& self.page == self.answers@.len() + 1 || (self.finished && self.page
            == self.answers@.len())
        &&& self.page >= 1
        &&& forall|i: int| 0 <= i < self.answers@.len() - 1 ==> #[trigger] self.answers@[i]
        &&& forall|k: int| 1 <= k <= self.answers@.len() ==> within_limit(self.max_pages, k)
        &&& !self.finished ==> within_limit(self.max_pages, self.page as int) && (
        self.answers@.len() > 0 ==> self.answers@[self.answers@.len() - 1])
    }

    /// A walk that has asked for nothing yet. It is over at once where the
    /// limit allows no page at all.
    pub fn new(max_pages: Option<u32>) -> (c: PageCursor)
        ensures
            c.limit() == max_pages,
            c.answers() == Seq::<bool>::empty(),
            c.current() == 1,
            c.is_finished() == !within_limit(max_pages, 1),
            c.is_finished() == (max_pages == Some(0u32)),
    {
        let finished = match max_pages {
            Some(m) => m == 0,
            None => false,
        };
        PageCursor { page: 1, max_pages, finished, answers: Ghost(Seq::empty()) }
    }

    /// What the walk does first: ask for the first page, or, where the limit
    /// allows none, stop without asking for any.
    pub fn start(&self) -> (step: WalkStep)
        ensures
            self.is_finished() ==> step == WalkStep::Done,
            !self.is_finished() ==> step == WalkStep::Ask(self.current()),
            self.limit() == Some(0u32) ==> step == WalkStep::Done,
            !within_limit(self.limit(), 1) ==> step == WalkStep::Done && forall|x: bool|
                #[trigger] pages_asked(self.limit(), 1, seq![x]) == 0,
    {
        proof {
            use_type_invariant(self);
            assert forall|x: bool| !within_limit(self.max_pages, 1) implies #[trigger] pages_asked(self.max_pages, 1, seq![x]) == 0 by {}
        }
        if self.finished {
            WalkStep::Done
        } else {
            WalkStep::Ask(self.page)
        }
    }

    /// Takes in the outcome of asking for the current page and says what comes
    /// next. An error ends the walk with that error. An answer is recorded;
    /// the next page is asked for where the answer says more follow and the
    /// next page lies within the limit; otherwise the walk is done, and no
    /// further answer could add a page to it.
    pub fn advance(&mut self, outcome: Result<bool, SearchError>) -> (step: WalkStep)
        requires
            !old(self).is_finished(),
            outcome matches Ok(true) ==> old(self).current() < u32::MAX,
        ensures
            final(self).limit() == old(self).limit(),
            final(self).is_finished() == !(step is Ask),
            pages_asked(final(self).limit(), 1, final(self).answers()) == final(self).answers().len(),
            match outcome {
                Err(e) => step == WalkStep::Failed(e) && final(self).answers() == old(self).answers(),
                Ok(more) => {
                    &&& final(self).answers() == old(self).answers().push(more)
                    &&& more && within_limit(old(self).limit(), old(self).current() + 1) ==> step
                        == WalkStep::Ask((old(self).current() + 1) as u32)
                    &&& !(more && within_limit(old(self).limit(), old(self).current() + 1)) ==> step
                        == WalkStep::Done
                },
            },
            outcome matches Ok(true) ==> match old(self).limit() {
                Some(m) => if old(self).current() + 1 <= m {
                    step == WalkStep::Ask((old(self).current() + 1) as u32)
                } else {
                    step == WalkStep::Done
                },
                None => step == WalkStep::Ask((old(self).current() + 1) as u32),
            },
            outcome matches Ok(false) ==> step == WalkStep::Done,
            step matches WalkStep::Ask(p) ==> p == final(self).current() && pages_asked(
                final(self).limit(),
                1,
                final(self).answers().push(true),
            ) == final(self).answers().len() + 1,
            step is Done ==> forall|x: bool|
                #[trigger] pages_asked(final(self).limit(), 1, final(self).answers().push(x))
                    == final(self).answers().len(),
    {
        proof {
            use_type_invariant(&*self);
        }
        let ghost before = self.answers@;
        let more = match outcome {
            Err(e) => {
                self.finished = true;
                proof {
                    lemma_pages_asked(self.max_pages, 1, self.answers@);
                }
                return WalkStep::Failed(e);
            },
            Ok(more) => more,
        };
        let ghost now = before.push(more);
        proof {
            assert forall|i: int| 0 <= i < now.len() - 1 implies #[trigger] now[i] by {
                if i < before.len() - 1 {
                    assert(now[i] == before[i]);
                } else {
                    assert(now[i] == before[before.len() - 1]);
                }
            }
            assert forall|k: int| 1 <= k <= now.len() implies within_limit(self.max_pages, k) by {
                if k == now.len() {
                    assert(k == self.page);
                }
            }
            lemma_pages_asked(self.max_pages, 1, now);
        }
        if !more {
            *self = PageCursor {
                page: self.page,
                max_pages: self.max_pages,
                finished: true,
                answers: Ghost(now),
            };
            return WalkStep::Done;
        }
        let next: u32 = self.page + 1;
        let go_on = match self.max_pages {
            Some(m) => next <= m,
            None => true,
        };
        *self = PageCursor { page: next, max_pages: self.max_pages, finished: !go_on, answers: Ghost(now) };
        if go_on {
            WalkStep::Ask(next)
        } else {
            WalkStep::Done
        }
    }
}

/// No walk asks for more pages than its limit, however the answers fall:
/// from page `page` at most `max - page + 1` pages, and none past the limit.
pub proof fn lemma_pages_within_limit(max: u32, page: int, more: Seq<bool>)
    requires
        page >= 1,
    ensures
        pages_asked(Some(max), page, more) <= (if page <= max { max - page + 1 } else { 0 }),
    decreases more.len(),
{
    if more.len() > 0 && within_limit(Some(max), page) && more[0] {
        lemma_pages_within_limit(max, page + 1, more.drop_first());
    }
}

/// A walk that starts at the first page under a limit of `max` asks for at
/// most `max` pages; under a limit of zero it asks for none.
pub proof fn lemma_walk_respects_limit(max: u32, more: Seq<bool>)
    ensures
        pages_asked(Some(max), 1, more) <= max,
{
    lemma_pages_within_limit(max, 1, more);
}

/// Where every answer says that more pages follow, a walk under a limit of
/// `max` starting at page `page` asks for every page up to and including
/// `max`: exactly `max - page + 1` of them, given that many answers.
pub proof fn lemma_pages_up_to_limit(max: u32, page: int, more: Seq<bool>)
    requires
        1 <= page,
        more.len() >= max - page + 1,
        forall|i: int| 0 <= i < more.len() ==> #[trigger] more[i],
    ensures
        pages_asked(Some(max), page, more) == (if page <= max { max - page + 1 } else { 0 }),
    decreases more.len(),
{
    if page <= max {
        let rest = more.drop_first();
        assert forall|i: int| 0 <= i < rest.len() implies #[trigger] rest[i] by {
            assert(rest[i] == more[i + 1]);
        }
        assert(more[0]);
        lemma_pages_up_to_limit(max, page + 1, rest);
    }
}

/// Under a limit of `m`, a walk whose answers all say that more pages follow
/// asks for exactly `m` pages: pages 1 to `m`, none fewer and none more.
pub proof fn law_limit_reached_exactly(m: u32, more: Seq<bool>)
    requires
        more.len() >= m,
        forall|i: int| 0 <= i < more.len() ==> #[trigger] more[i],
    ensures
        pages_asked(Some(m), 1, more) == m,
        forall|k: int| 1 <= k <= m ==> within_limit(Some(m), k),
        !within_limit(Some(m), m + 1),
{
    lemma_pages_up_to_limit(m, 1, more);
}

/// Without a limit, a walk whose answers all say that more pages follow asks
/// for a page for every answer.
pub proof fn law_no_limit_no_end(more: Seq<bool>)
    requires
        forall|i: int| 0 <= i < more.len() ==> #[trigger] more[i],
    ensures
        pages_asked(None, 1, more) == more.len(),
{
    lemma_no_limit_from(more, 1);
}

proof fn lemma_no_limit_from(more: Seq<bool>, page: int)
    requires
        forall|i: int| 0 <= i < more.len() ==> #[trigger] more[i],
    ensures
        pages_asked(None, page, more) == more.len(),
    decreases more.len(),
{
    if more.len() > 0 {
        let rest = more.drop_first();
        assert forall|i: int| 0 <= i < rest.len() implies #[trigger] rest[i] by {
            assert(rest[i] == more[i + 1]);
        }
        assert(more[0]);
        lemma_no_limit_from(rest, page + 1);
    }
}

/// Without a limit, the walk asks for pages until an answer says no more
/// follow: as many pages as answers up to and including the first such one.
pub proof fn lemma_walk_without_limit(more: Seq<bool>, last: int)
    requires
        0 <= last < more.len(),
        !more[last],
        forall|i: int| 0 <= i < last ==> more[i],
    ensures
        pages_asked(None, 1, more) == last + 1,
{
    lemma_walk_without_limit_from(more, last, 1);
}

proof fn lemma_walk_without_limit_from(more: Seq<bool>, last: int, page: int)
    requires
        0 <= last < more.len(),
        !more[last],
        forall|i: int| 0 <= i < last ==> more[i],
    ensures
        pages_asked(None, page, more) == last + 1,
    decreases last,
{
    if last > 0 {
        let rest = more.drop_first();
        assert forall|i: int| 0 <= i < last - 1 implies rest[i] by {
            assert(rest[i] == more[i + 1]);
        }
        lemma_walk_without_limit_from(rest, last - 1, page + 1);
    }
}

} // verus!

//! The depth-first search for a titled window under a top-level window, as a
//! state machine: it says which question to put to the window system next and
//! takes the answer back, so the questions can be asked by whoever holds the
//! connection.

use vstd::prelude::*;

verus! {

/// The deepest level below the top-level window that the search visits.
pub const MAX_SEARCH_DEPTH: u32 = 10;

/// Where a search stands: which window, at which depth, it waits to hear about.
pub enum Phase {
    /// About to take the next window from the stack.
    Ready,
    /// Waiting to hear whether the window is viewable.
    Viewable(u32, u32),
    /// Waiting for the window's title.
    Title(u32, u32),
    /// Waiting for the window's children.
    Children(u32, u32),
    /// Done.
    Finished,
}

/// What a search asks for, or its outcome.
pub enum Query {
    /// Is this window viewable?
    Viewable(u32),
    /// What is this window's title?
    Title(u32),
    /// Which children does this window have, in tree order?
    Children(u32),
    /// This window, with this title, is the one found.
    Found(u32, String),
    /// No window under the top-level one qualifies.
    NotFound,
}

/// An answer from the window system. A query that failed is `false` or `None`.
pub enum Reply {
    Viewable(bool),
    Title(Option<String>),
    Children(Option<Vec<u32>>),
}

/// A search under one top-level window. `stack` holds the windows still to
/// visit with their depth; the last entry is visited first.
pub struct TitleSearch {
    pub stack: Vec<(u32, u32)>,
    pub phase: Phase,
}

/// The stack with the entries deeper than the limit taken off its top, up to
/// the first one that is within it.
pub open spec fn skip_deep(stack: Seq<(u32, u32)>) -> Seq<(u32, u32)>
    decreases stack.len(),
{
    if stack.len() == 0 {
        stack
    } else if stack.last().1 > MAX_SEARCH_DEPTH {
        skip_deep(stack.drop_last())
    } else {
        stack
    }
}

/// The stack entries for the children of a window at depth `depth`, so that
/// the first child comes off the stack first.
pub open spec fn child_entries(children: Seq<u32>, depth: int) -> Seq<(u32, u32)> {
    Seq::new(children.len(), |k: int| (children[children.len() - 1 - k], depth as u32))
}

/// The state and query after taking the next window within the depth limit
/// off `stack`: a question on whether it is viewable, or the end of the search.
pub open spec fn resume(stack: Seq<(u32, u32)>) -> (Seq<(u32, u32)>, Phase, Query) {
    let s = skip_deep(stack);
    if s.len() == 0 {
        (s, Phase::Finished, Query::NotFound)
    } else {
        (s.drop_last(), Phase::Viewable(s.last().0, s.last().1), Query::Viewable(s.last().0))
    }
}

/// The state and query after `reply` reaches a search in `phase` over `stack`.
/// A viewable window is asked for its title; a window that is not viewable, or
/// has no title, is asked for its children, which are then searched in order
/// one level deeper. The first titled viewable window is the one found. A reply
/// that does not answer the pending question ends the search.
pub open spec fn answered(stack: Seq<(u32, u32)>, phase: Phase, reply: Reply) -> (
    Seq<(u32, u32)>,
    Phase,
    Query,
) {
    match phase {
        Phase::Viewable(w, d) => match reply {
            Reply::Viewable(true) => (stack, Phase::Title(w, d), Query::Title(w)),
            Reply::Viewable(false) => (stack, Phase::Children(w, d), Query::Children(w)),
            _ => (stack, Phase::Finished, Query::NotFound),
        },
        Phase::Title(w, d) => match reply {
            Reply::Title(Some(t)) => (stack, Phase::Finished, Query::Found(w, t)),
            Reply::Title(None) => (stack, Phase::Children(w, d), Query::Children(w)),
            _ => (stack, Phase::Finished, Query::NotFound),
        },
        Phase::Children(w, d) => match reply {
            Reply::Children(Some(cs)) => resume(stack + child_entries(cs@, d + 1)),
            Reply::Children(None) => resume(stack),
            _ => (stack, Phase::Finished, Query::NotFound),
        },
        _ => (stack, Phase::Finished, Query::NotFound),
    }
}

/// The search is well formed: every window it waits on is within the depth
/// limit, and every stacked depth is at most one past it.
pub open spec fn search_wf(stack: Seq<(u32, u32)>, phase: Phase) -> bool {
    &&& forall|k: int| 0 <= k < stack.len() ==> #[trigger] stack[k].1 <= MAX_SEARCH_DEPTH + 1
    &&& match phase {
        Phase::Viewable(_, d) => d <= MAX_SEARCH_DEPTH,
        Phase::Title(_, d) => d <= MAX_SEARCH_DEPTH,
        Phase::Children(_, d) => d <= MAX_SEARCH_DEPTH,
        _ => true,
    }
}

impl TitleSearch {
    /// The search is well formed.
    pub open spec fn wf(&self) -> bool {
        search_wf(self.stack@, self.phase)
    }

    /// A search under top-level window `window`, which is at depth 0.
    pub fn new(window: u32) -> (r: TitleSearch)
        ensures
            r.wf(),
            r.stack@ == seq![(window, 0u32)],
            r.phase == Phase::Ready,
    {
        let mut stack: Vec<(u32, u32)> = Vec::new();
        stack.push((window, 0));
        TitleSearch { stack, phase: Phase::Ready }
    }

    /// Takes the next window within the depth limit off the stack and asks
    /// whether it is viewable; `NotFound` when none is left.
    fn next_window(&mut self) -> (r: Query)
        requires
            old(self).wf(),
        ensures
            final(self).wf(),
            (final(self).stack@, final(self).phase, r) == resume(old(self).stack@),
    {
        let ghost start = self.stack@;
        loop
            invariant
                self.phase == old(self).phase,
                search_wf(self.stack@, self.phase),
                skip_deep(self.stack@) == skip_deep(start),
                start == old(self).stack@,
            decreases self.stack@.len(),
        {
            let ghost before = self.stack@;
            match self.stack.pop() {
                None => {
                    self.phase = Phase::Finished;
                    return Query::NotFound;
                },
                Some(top) => {
                    let (window, depth) = top;
                    if depth <= MAX_SEARCH_DEPTH {
                        proof {
                            assert(skip_deep(before) == before);
                            assert forall|k: int| 0 <= k < self.stack@.len() implies #[trigger] self.stack@[k].1
                                <= MAX_SEARCH_DEPTH + 1 by {
                                assert(self.stack@[k] == before[k]);
                            }
                        }
                        self.phase = Phase::Viewable(window, depth);
                        return Query::Viewable(window);
                    }
                    proof {
                        assert(skip_deep(before) == skip_deep(before.drop_last()));
                        assert forall|k: int| 0 <= k < self.stack@.len() implies #[trigger] self.stack@[k].1
                            <= MAX_SEARCH_DEPTH + 1 by {
                            assert(self.stack@[k] == before[k]);
                        }
                    }
                },
            }
        }
    }

    /// Begins the search: asks about the top-level window. A search that has
    /// already begun ends with `NotFound`.
    pub fn start(&mut self) -> (r: Query)
        requires
            old(self).wf(),
        ensures
            final(self).wf(),
            old(self).phase == Phase::Ready ==> (final(self).stack@, final(self).phase, r) == resume(
                old(self).stack@,
            ),
            old(self).phase != Phase::Ready ==> final(self).phase == Phase::Finished && r
                == Query::NotFound,
    {
        match self.phase {
            Phase::Ready => self.next_window(),
            _ => {
                self.phase = Phase::Finished;
                Query::NotFound
            },
        }
    }

    /// Takes the answer to the pending question and says what to ask next,
    /// or how the search ended.
    pub fn answer(&mut self, reply: Reply) -> (r: Query)
        requires
            old(self).wf(),
        ensures
            final(self).wf(),
            (final(self).stack@, final(self).phase, r) == answered(
                old(self).stack@,
                old(self).phase,
                reply,
            ),
    {
        match self.phase {
            Phase::Viewable(w, d) => match reply {
                Reply::Viewable(true) => {
                    self.phase = Phase::Title(w, d);
                    Query::Title(w)
                },
                Reply::Viewable(false) => {
                    self.phase = Phase::Children(w, d);
                    Query::Children(w)
                },
                _ => {
                    self.phase = Phase::Finished;
                    Query::NotFound
                },
            },
            Phase::Title(w, d) => match reply {
                Reply::Title(Some(t)) => {
                    self.phase = Phase::Finished;
                    Query::Found(w, t)
                },
                Reply::Title(None) => {
                    self.phase = Phase::Children(w, d);
                    Query::Children(w)
                },
                _ => {
                    self.phase = Phase::Finished;
                    Query::NotFound
                },
            },
            Phase::Children(w, d) => match reply {
                Reply::Children(Some(children)) => {
                    let depth = d + 1;
                    let ghost base = self.stack@;
                    let mut k: usize = children.len();
                    while k > 0
                        invariant
                            k <= children@.len(),
                            depth == d + 1,
                            d <= MAX_SEARCH_DEPTH,
                            self.phase == Phase::Children(w, d),
                            self.stack@ == base + child_entries(children@, depth as int).subrange(
                                0,
                                children@.len() - k,
                            ),
                        decreases k,
                    {
                        k = k - 1;
                        self.stack.push((children[k], depth));
                        proof {
                            let all = child_entries(children@, depth as int);
                            assert(all.subrange(0, children@.len() - k) =~= all.subrange(
                                0,
                                children@.len() - k - 1,
                            ).push((children@[k as int], depth)));
                        }
                    }
                    proof {
                        let all = child_entries(children@, depth as int);
                        assert(all.subrange(0, children@.len() as int) =~= all);
                        assert forall|i: int| 0 <= i < self.stack@.len() implies #[trigger] self.stack@[i].1
                            <= MAX_SEARCH_DEPTH + 1 by {
                            if i >= base.len() {
                                assert(self.stack@[i] == all[i - base.len()]);
                            } else {
                                assert(self.stack@[i] == base[i]);
                            }
                        }
                    }
                    self.phase = Phase::Ready;
                    self.next_window()
                },
                Reply::Children(None) => {
                    self.phase = Phase::Ready;
                    self.next_window()
                },
                _ => {
                    self.phase = Phase::Finished;
                    Query::NotFound
                },
            },
            _ => {
                self.phase = Phase::Finished;
                Query::NotFound
            },
        }
    }
}

/// The root's children in most-recently-raised-first order. The server lists
/// them bottom to top, so this is that list reversed; each top-level window
/// then yields at most one candidate.
pub fn mru_order(children: &Vec<u32>) -> (r: Vec<u32>)
    ensures
        r@.len() == children@.len(),
        forall|i: int| 0 <= i < r@.len() ==> r@[i] == children@[children@.len() - 1 - i],
{
    let mut out: Vec<u32> = Vec::new();
    let mut k: usize = children.len();
    while k > 0
        invariant
            k <= children@.len(),
            out@.len() == children@.len() - k,
            forall|i: int| 0 <= i < out@.len() ==> out@[i] == children@[children@.len() - 1 - i],
        decreases k,
    {
        k = k - 1;
        out.push(children[k]);
    }
    out
}

/// The most parent lookups a climb to the top-level window makes.
pub const MAX_CLIMB: u32 = 20;

/// What a climb asks for next, or where it ended.
#[derive(Clone, Copy, Debug, PartialEq, Eq, Structural)]
pub enum Climb {
    /// What is the parent of this window?
    Parent(u32),
    /// The top-level window: a direct child of the root.
    Done(u32),
}

/// A climb from `window` up to its top-level ancestor, a direct child of
/// `root`. A failed lookup, or a climb longer than [`MAX_CLIMB`] lookups,
/// ends at `window` itself.
pub struct ToplevelClimb {
    pub window: u32,
    pub root: u32,
    pub current: u32,
    pub lookups: u32,
}

impl ToplevelClimb {
    /// At most [`MAX_CLIMB`] lookups have been made.
    pub open spec fn wf(&self) -> bool {
        1 <= self.lookups <= MAX_CLIMB
    }

    /// A climb from `window` that asks first for its parent.
    pub fn new(window: u32, root: u32) -> (r: (ToplevelClimb, Climb))
        ensures
            r.0.wf(),
            r.0.window == window && r.0.root == root && r.0.current == window && r.0.lookups == 1,
            r.1 == Climb::Parent(window),
    {
        (ToplevelClimb { window, root, current: window, lookups: 1 }, Climb::Parent(window))
    }

    /// Takes the parent of the current window (`None` if the lookup failed):
    /// the root, or no window, means the current window is the top-level
    /// one; any other parent is climbed to while lookups are left.
    pub fn parent(&mut self, parent: Option<u32>) -> (r: Climb)
        requires
            old(self).wf(),
        ensures
            final(self).wf(),
            final(self).window == old(self).window,
            final(self).root == old(self).root,
            r == match parent {
                None => Climb::Done(old(self).window),
                Some(p) => if p == old(self).root || p == 0 {
                    Climb::Done(old(self).current)
                } else if old(self).lookups >= MAX_CLIMB {
                    Climb::Done(old(self).window)
                } else {
                    Climb::Parent(p)
                },
            },
            r matches Climb::Parent(p) ==> final(self).current == p && final(self).lookups
                == old(self).lookups + 1,
    {
        match parent {
            None => Climb::Done(self.window),
            Some(p) => {
                if p == self.root || p == 0 {
                    Climb::Done(self.current)
                } else if self.lookups >= MAX_CLIMB {
                    Climb::Done(self.window)
                } else {
                    self.current = p;
                    self.lookups = self.lookups + 1;
                    Climb::Parent(p)
                }
            },
        }
    }
}

} // verus!

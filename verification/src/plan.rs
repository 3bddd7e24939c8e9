//! The structure of a diagram's layout: which actor each name stands for,
//! the activation bars (when each begins and ends, and how deeply it nests),
//! the frames (where each opens and closes, its `else` lines and its depth)
//! and where actors are destroyed. Geometry is left to the renderer, which
//! places these by statement.

use vstd::prelude::*;

use crate::actors::pairs_view;
use crate::ast::{ActivationModifier, Document, Statement, StatementView};

verus! {

// ---------------------------------------------------------------------------
// Actor lookup
// ---------------------------------------------------------------------------

/// The actor at index `i` goes by `name` (its reference or display name).
pub open spec fn actor_named(actors: Seq<(Seq<char>, Seq<char>)>, i: int, name: Seq<char>) -> bool {
    actors[i].0 == name || actors[i].1 == name
}

/// The last of the first `k` actors that goes by `name`.
pub open spec fn find_actor_before(actors: Seq<(Seq<char>, Seq<char>)>, name: Seq<char>, k: int) -> Option<
    int,
>
    decreases k,
{
    if k <= 0 {
        None
    } else if actor_named(actors, k - 1, name) {
        Some(k - 1)
    } else {
        find_actor_before(actors, name, k - 1)
    }
}

/// The column of the actor that `name` stands for: the last actor that goes
/// by that name (references and display names share one table, and a later
/// entry takes a name over).
pub open spec fn actor_index(actors: Seq<(Seq<char>, Seq<char>)>, name: Seq<char>) -> Option<int> {
    find_actor_before(actors, name, actors.len() as int)
}

pub proof fn lemma_find_actor_before(actors: Seq<(Seq<char>, Seq<char>)>, name: Seq<char>, k: int)
    requires
        0 <= k <= actors.len(),
    ensures
        find_actor_before(actors, name, k) matches Some(i) ==> 0 <= i < k && actor_named(
            actors,
            i,
            name,
        ),
        find_actor_before(actors, name, k) is None ==> forall|i: int|
            0 <= i < k ==> !actor_named(actors, i, name),
    decreases k,
{
    if k > 0 {
        lemma_find_actor_before(actors, name, k - 1);
    }
}

/// The column of the actor that `name` stands for, if any.
pub fn actor_index_of(actors: &Vec<(String, String)>, name: &String) -> (r: Option<usize>)
    ensures
        match r {
            Some(i) => actor_index(pairs_view(actors@), name@) == Some(i as int),
            None => actor_index(pairs_view(actors@), name@) is None,
        },
{
    let ghost all = pairs_view(actors@);
    let mut k = actors.len();
    while k > 0
        invariant
            k <= actors@.len(),
            all == pairs_view(actors@),
            actor_index(all, name@) == find_actor_before(all, name@, k as int),
        decreases k,
    {
        if actors[k - 1].0 == *name || actors[k - 1].1 == *name {
            return Some(k - 1);
        }
        k = k - 1;
    }
    None
}

// ---------------------------------------------------------------------------
// Plans
// ---------------------------------------------------------------------------

/// An activation bar: the actor's column, the statement that begins it, the
/// statement that ends it (`None`: it runs to the bottom of the diagram) and
/// how many bars of the same actor it sits on.
#[derive(Clone, Copy, Debug)]
pub struct ActivationSpan {
    pub actor: usize,
    pub start: usize,
    pub end: Option<usize>,
    pub nesting: usize,
}

/// A frame: the statements that open and close it, its `else` lines, and how
/// many frames enclose it.
#[derive(Clone, Debug)]
pub struct FrameSpan {
    pub open: usize,
    pub close: usize,
    pub depth: usize,
    pub elses: Vec<usize>,
}

/// The mathematical content of a [`FrameSpan`].
pub struct FrameSpanView {
    pub open: usize,
    pub close: usize,
    pub depth: usize,
    pub elses: Seq<usize>,
}

impl View for FrameSpan {
    type V = FrameSpanView;

    open spec fn view(&self) -> FrameSpanView {
        FrameSpanView { open: self.open, close: self.close, depth: self.depth, elses: self.elses@ }
    }
}

/// The structure of a diagram's layout.
pub struct DiagramPlan {
    /// Activation bars, in the order they are drawn.
    pub activations: Vec<ActivationSpan>,
    /// Closed frames, in the order they close.
    pub frames: Vec<FrameSpan>,
    /// For each actor, the first statement that destroys it.
    pub destroyed_at: Vec<Option<usize>>,
    /// For each statement, how many frames are open just before it.
    pub frames_open_before: Vec<usize>,
}

/// The mathematical content of a [`DiagramPlan`].
pub struct PlanView {
    pub activations: Seq<ActivationSpan>,
    pub frames: Seq<FrameSpanView>,
    pub destroyed_at: Seq<Option<usize>>,
    pub frames_open_before: Seq<usize>,
}

pub open spec fn frames_view(v: Seq<FrameSpan>) -> Seq<FrameSpanView> {
    Seq::new(v.len(), |i: int| v[i]@)
}

impl View for DiagramPlan {
    type V = PlanView;

    open spec fn view(&self) -> PlanView {
        PlanView {
            activations: self.activations@,
            frames: frames_view(self.frames@),
            destroyed_at: self.destroyed_at@,
            frames_open_before: self.frames_open_before@,
        }
    }
}

/// The state of the walk over the statements: the open activations of each
/// actor (the statements that began them, oldest first), the bars finished
/// so far, the open frames (opening statement and `else` lines), the closed
/// frames, and the destruction of each actor.
pub struct PlanState {
    pub stacks: Seq<Seq<usize>>,
    pub spans: Seq<ActivationSpan>,
    pub open_frames: Seq<(usize, Seq<usize>)>,
    pub frames: Seq<FrameSpanView>,
    pub destroyed_at: Seq<Option<usize>>,
}

pub open spec fn initial_state(n: nat) -> PlanState {
    PlanState {
        stacks: Seq::new(n, |a: int| Seq::empty()),
        spans: Seq::empty(),
        open_frames: Seq::empty(),
        frames: Seq::empty(),
        destroyed_at: Seq::new(n, |a: int| None),
    }
}

/// Statement `i` begins an activation of actor `a`.
pub open spec fn begin_activation(st: PlanState, a: int, i: usize) -> PlanState {
    PlanState { stacks: st.stacks.update(a, st.stacks[a].push(i)), ..st }
}

/// Statement `i` ends the newest open activation of actor `a`, if any.
pub open spec fn end_activation(st: PlanState, a: int, i: usize) -> PlanState {
    let s = st.stacks[a];
    if s.len() == 0 {
        st
    } else {
        PlanState {
            stacks: st.stacks.update(a, s.drop_last()),
            spans: st.spans.push(
                ActivationSpan {
                    actor: a as usize,
                    start: s.last(),
                    end: Some(i),
                    nesting: (s.len() - 1) as usize,
                },
            ),
            ..st
        }
    }
}

/// The bars of the open activations `s` of actor `a`, all ended by statement
/// `i`, newest first.
pub open spec fn ended_together(a: int, s: Seq<usize>, i: usize) -> Seq<ActivationSpan> {
    Seq::new(
        s.len(),
        |k: int|
            ActivationSpan {
                actor: a as usize,
                start: s[s.len() - 1 - k],
                end: Some(i),
                nesting: (s.len() - 1 - k) as usize,
            },
    )
}

/// Statement `i` destroys actor `a`: its open activations end, newest first.
pub open spec fn destroy_actor(st: PlanState, a: int, i: usize) -> PlanState {
    PlanState {
        stacks: st.stacks.update(a, Seq::empty()),
        spans: st.spans + ended_together(a, st.stacks[a], i),
        destroyed_at: st.destroyed_at.update(
            a,
            if st.destroyed_at[a] is None {
                Some(i)
            } else {
                st.destroyed_at[a]
            },
        ),
        ..st
    }
}

/// The effect of statement `i`.
pub open spec fn plan_step(
    st: PlanState,
    actors: Seq<(Seq<char>, Seq<char>)>,
    i: usize,
    s: StatementView,
) -> PlanState {
    match s {
        StatementView::Message { from, to, activation, .. } => {
            match (actor_index(actors, from), actor_index(actors, to)) {
                (Some(_), Some(t)) => match activation {
                    Some(ActivationModifier::Activate) => begin_activation(st, t, i),
                    Some(ActivationModifier::Deactivate) => end_activation(st, t, i),
                    None => st,
                },
                _ => st,
            }
        },
        StatementView::Activate(a) => match actor_index(actors, a) {
            Some(t) => begin_activation(st, t, i),
            None => st,
        },
        StatementView::Deactivate(a) => match actor_index(actors, a) {
            Some(t) => end_activation(st, t, i),
            None => st,
        },
        StatementView::Destroy(a) => match actor_index(actors, a) {
            Some(t) => destroy_actor(st, t, i),
            None => st,
        },
        StatementView::FrameOpen { .. } => PlanState {
            open_frames: st.open_frames.push((i, Seq::empty())),
            ..st
        },
        StatementView::FrameElse { .. } => if st.open_frames.len() > 0 {
            let top = st.open_frames.last();
            PlanState {
                open_frames: st.open_frames.drop_last().push((top.0, top.1.push(i))),
                ..st
            }
        } else {
            st
        },
        StatementView::FrameEnd => if st.open_frames.len() > 0 {
            let top = st.open_frames.last();
            PlanState {
                open_frames: st.open_frames.drop_last(),
                frames: st.frames.push(
                    FrameSpanView {
                        open: top.0,
                        close: i,
                        depth: (st.open_frames.len() - 1) as usize,
                        elses: top.1,
                    },
                ),
                ..st
            }
        } else {
            st
        },
        _ => st,
    }
}

/// The state after the first `k` statements.
pub open spec fn plan_prefix(
    actors: Seq<(Seq<char>, Seq<char>)>,
    stmts: Seq<StatementView>,
    k: int,
) -> PlanState
    decreases k,
{
    if k <= 0 {
        initial_state(actors.len())
    } else {
        plan_step(plan_prefix(actors, stmts, k - 1), actors, (k - 1) as usize, stmts[k - 1])
    }
}

/// The bars of the activations still open at the bottom, actor by actor from
/// actor `a` on, oldest first.
pub open spec fn bottom_spans(stacks: Seq<Seq<usize>>, a: int) -> Seq<ActivationSpan>
    decreases stacks.len() - a,
{
    if a < 0 || a >= stacks.len() {
        Seq::empty()
    } else {
        Seq::new(
            stacks[a].len(),
            |k: int| ActivationSpan { actor: a as usize, start: stacks[a][k], end: None, nesting: k as usize },
        ) + bottom_spans(stacks, a + 1)
    }
}

/// The structure of the layout of `stmts` over the columns `actors`.
pub open spec fn plan_of(actors: Seq<(Seq<char>, Seq<char>)>, stmts: Seq<StatementView>) -> PlanView {
    let st = plan_prefix(actors, stmts, stmts.len() as int);
    PlanView {
        activations: st.spans + bottom_spans(st.stacks, 0),
        frames: st.frames,
        destroyed_at: st.destroyed_at,
        frames_open_before: Seq::new(
            stmts.len(),
            |k: int| plan_prefix(actors, stmts, k).open_frames.len() as usize,
        ),
    }
}

// ---------------------------------------------------------------------------
// The walk
// ---------------------------------------------------------------------------

/// The state of the walk over the statements.
struct Walk {
    stacks: Vec<Vec<usize>>,
    spans: Vec<ActivationSpan>,
    open_frames: Vec<(usize, Vec<usize>)>,
    frames: Vec<FrameSpan>,
    destroyed_at: Vec<Option<usize>>,
}

impl View for Walk {
    type V = PlanState;

    closed spec fn view(&self) -> PlanState {
        PlanState {
            stacks: Seq::new(self.stacks@.len(), |a: int| self.stacks@[a]@),
            spans: self.spans@,
            open_frames: Seq::new(
                self.open_frames@.len(),
                |j: int| (self.open_frames@[j].0, self.open_frames@[j].1@),
            ),
            frames: frames_view(self.frames@),
            destroyed_at: self.destroyed_at@,
        }
    }
}

impl Walk {
    fn begin(&mut self, a: usize, i: usize)
        requires
            a < old(self).stacks@.len(),
        ensures
            final(self)@ == begin_activation(old(self)@, a as int, i),
            final(self).stacks@.len() == old(self).stacks@.len(),
            final(self).destroyed_at@.len() == old(self).destroyed_at@.len(),
    {
        let ghost before = self@;
        let mut s: Vec<usize> = Vec::new();
        self.stacks.set_and_swap(a, &mut s);
        s.push(i);
        self.stacks.set_and_swap(a, &mut s);
        assert(self@.stacks =~= before.stacks.update(a as int, before.stacks[a as int].push(i)));
        assert(self@.open_frames =~= before.open_frames);
    }

    fn end(&mut self, a: usize, i: usize)
        requires
            a < old(self).stacks@.len(),
        ensures
            final(self)@ == end_activation(old(self)@, a as int, i),
            final(self).stacks@.len() == old(self).stacks@.len(),
            final(self).destroyed_at@.len() == old(self).destroyed_at@.len(),
    {
        let ghost before = self@;
        let mut s: Vec<usize> = Vec::new();
        self.stacks.set_and_swap(a, &mut s);
        assert(s@ == before.stacks[a as int]);
        if s.len() == 0 {
            self.stacks.set_and_swap(a, &mut s);
            assert(self@.stacks =~= before.stacks);
            assert(self@.open_frames =~= before.open_frames);
            return;
        }
        let start = s.pop().unwrap();
        let nesting = s.len();
        self.spans.push(ActivationSpan { actor: a, start, end: Some(i), nesting });
        self.stacks.set_and_swap(a, &mut s);
        assert(self@.stacks =~= before.stacks.update(a as int, before.stacks[a as int].drop_last()));
        assert(self@.open_frames =~= before.open_frames);
    }

    fn destroy(&mut self, a: usize, i: usize)
        requires
            a < old(self).stacks@.len(),
            old(self).destroyed_at@.len() == old(self).stacks@.len(),
        ensures
            final(self)@ == destroy_actor(old(self)@, a as int, i),
            final(self).stacks@.len() == old(self).stacks@.len(),
            final(self).destroyed_at@.len() == old(self).destroyed_at@.len(),
    {
        let ghost before = self@;
        let mut s: Vec<usize> = Vec::new();
        self.stacks.set_and_swap(a, &mut s);
        assert(s@ == before.stacks[a as int]);
        let n = s.len();
        let mut k = n;
        let ghost mid_stacks = self.stacks@;
        let ghost mid_destroyed = self.destroyed_at@;
        let ghost mid_open = self.open_frames@;
        let ghost mid_frames = self.frames@;
        while k > 0
            invariant
                k <= n == s@.len(),
                a < self.stacks@.len(),
                self.stacks@ == mid_stacks,
                self.destroyed_at@ == mid_destroyed,
                self.open_frames@ == mid_open,
                self.frames@ == mid_frames,
                mid_destroyed.len() == mid_stacks.len(),
                self.spans@ == before.spans + ended_together(a as int, s@, i).take((n - k) as int),
            decreases k,
        {
            let start = s[k - 1];
            self.spans.push(ActivationSpan { actor: a, start, end: Some(i), nesting: k - 1 });
            assert(ended_together(a as int, s@, i).take((n - k + 1) as int) =~= ended_together(
                a as int,
                s@,
                i,
            ).take((n - k) as int).push(ActivationSpan { actor: a, start, end: Some(i), nesting: (k - 1) as usize }));
            k = k - 1;
        }
        assert(ended_together(a as int, s@, i).take(n as int) =~= ended_together(a as int, s@, i));
        let mut empty: Vec<usize> = Vec::new();
        self.stacks.set_and_swap(a, &mut empty);
        if self.destroyed_at[a].is_none() {
            self.destroyed_at.set(a, Some(i));
        }
        assert(self@.destroyed_at =~= before.destroyed_at.update(
            a as int,
            if before.destroyed_at[a as int] is None {
                Some(i)
            } else {
                before.destroyed_at[a as int]
            },
        ));
        assert(self@.frames =~= before.frames);
        assert(self@.spans == before.spans + ended_together(a as int, before.stacks[a as int], i));
        assert(self@.stacks =~= before.stacks.update(a as int, Seq::empty()));
        assert(self@.open_frames =~= before.open_frames);
    }

    fn open_frame(&mut self, i: usize)
        ensures
            final(self)@ == (PlanState {
                open_frames: old(self)@.open_frames.push((i, Seq::empty())),
                ..old(self)@
            }),
            final(self).stacks@.len() == old(self).stacks@.len(),
            final(self).destroyed_at@.len() == old(self).destroyed_at@.len(),
    {
        let ghost before = self@;
        self.open_frames.push((i, Vec::new()));
        assert(self@.open_frames =~= before.open_frames.push((i, Seq::empty())));
        assert(self@.stacks =~= before.stacks);
    }

    fn frame_else(&mut self, i: usize)
        ensures
            final(self)@ == (if old(self)@.open_frames.len() > 0 {
                let top = old(self)@.open_frames.last();
                PlanState {
                    open_frames: old(self)@.open_frames.drop_last().push((top.0, top.1.push(i))),
                    ..old(self)@
                }
            } else {
                old(self)@
            }),
            final(self).stacks@.len() == old(self).stacks@.len(),
            final(self).destroyed_at@.len() == old(self).destroyed_at@.len(),
    {
        let ghost before = self@;
        match self.open_frames.pop() {
            Some((open, mut elses)) => {
                elses.push(i);
                self.open_frames.push((open, elses));
                let ghost top = before.open_frames.last();
                assert(self@.open_frames =~= before.open_frames.drop_last().push((top.0, top.1.push(i))));
                assert(self@.stacks =~= before.stacks);
            },
            None => {
                assert(self@.open_frames =~= before.open_frames);
                assert(self@.stacks =~= before.stacks);
            },
        }
    }

    fn close_frame(&mut self, i: usize)
        ensures
            final(self)@ == (if old(self)@.open_frames.len() > 0 {
                let top = old(self)@.open_frames.last();
                PlanState {
                    open_frames: old(self)@.open_frames.drop_last(),
                    frames: old(self)@.frames.push(
                        FrameSpanView {
                            open: top.0,
                            close: i,
                            depth: (old(self)@.open_frames.len() - 1) as usize,
                            elses: top.1,
                        },
                    ),
                    ..old(self)@
                }
            } else {
                old(self)@
            }),
            final(self).stacks@.len() == old(self).stacks@.len(),
            final(self).destroyed_at@.len() == old(self).destroyed_at@.len(),
    {
        let ghost before = self@;
        match self.open_frames.pop() {
            Some((open, elses)) => {
                let depth = self.open_frames.len();
                self.frames.push(FrameSpan { open, close: i, depth, elses });
                assert(self@.open_frames =~= before.open_frames.drop_last());
                let ghost top = before.open_frames.last();
                assert(self@.frames =~= before.frames.push(
                    FrameSpanView { open: top.0, close: i, depth: depth, elses: top.1 },
                ));
                assert(self@.stacks =~= before.stacks);
            },
            None => {
                assert(self@.open_frames =~= before.open_frames);
                assert(self@.stacks =~= before.stacks);
            },
        }
    }
}

/// The structure of the layout of a document over its columns `actors`
/// (as `resolve_actors` gives them): activation bars, frames and
/// destructions, each placed by statement index.
pub fn plan_diagram(doc: &Document, actors: &Vec<(String, String)>) -> (p: DiagramPlan)
    ensures
        p@ == plan_of(pairs_view(actors@), doc@),
{
    let ghost acts = pairs_view(actors@);
    let ghost stmts = doc@;
    let n_actors = actors.len();
    let mut stacks: Vec<Vec<usize>> = Vec::new();
    let mut destroyed_at: Vec<Option<usize>> = Vec::new();
    let mut a: usize = 0;
    while a < n_actors
        invariant
            a <= n_actors == actors@.len(),
            stacks@.len() == a,
            destroyed_at@.len() == a,
            forall|b: int| 0 <= b < a ==> (#[trigger] stacks@[b])@ == Seq::<usize>::empty(),
            forall|b: int| 0 <= b < a ==> (#[trigger] destroyed_at@[b]) is None,
        decreases n_actors - a,
    {
        stacks.push(Vec::new());
        destroyed_at.push(None);
        a = a + 1;
    }
    let mut w = Walk {
        stacks,
        spans: Vec::new(),
        open_frames: Vec::new(),
        frames: Vec::new(),
        destroyed_at,
    };
    assert(w@.stacks =~= initial_state(acts.len()).stacks);
    assert(w@.destroyed_at =~= initial_state(acts.len()).destroyed_at);
    assert(w@.open_frames =~= Seq::<(usize, Seq<usize>)>::empty());
    assert(w@.frames =~= Seq::<FrameSpanView>::empty());
    let n = doc.statements.len();
    let mut i: usize = 0;
    let mut open_before: Vec<usize> = Vec::new();
    while i < n
        invariant
            i <= n == doc.statements@.len(),
            stmts == doc@,
            open_before@ == Seq::new(
                i as nat,
                |k: int| plan_prefix(acts, stmts, k).open_frames.len() as usize,
            ),
            acts == pairs_view(actors@),
            w.stacks@.len() == acts.len(),
            w.destroyed_at@.len() == acts.len(),
            w@ == plan_prefix(acts, stmts, i as int),
        decreases n - i,
    {
        assert(stmts[i as int] == doc.statements@[i as int]@);
        open_before.push(w.open_frames.len());
        assert(open_before@ =~= Seq::new(
            (i + 1) as nat,
            |k: int| plan_prefix(acts, stmts, k).open_frames.len() as usize,
        ));
        match &doc.statements[i] {
            Statement::Message { from, to, activation, .. } => {
                let fi = actor_index_of(actors, from);
                let ti = actor_index_of(actors, to);
                proof {
                    lemma_find_actor_before(acts, to@, acts.len() as int);
                }
                if fi.is_some() {
                    if let Some(t) = ti {
                        match activation {
                            Some(ActivationModifier::Activate) => w.begin(t, i),
                            Some(ActivationModifier::Deactivate) => w.end(t, i),
                            None => {},
                        }
                    }
                }
            },
            Statement::Activate(name) => {
                proof {
                    lemma_find_actor_before(acts, name@, acts.len() as int);
                }
                if let Some(t) = actor_index_of(actors, name) {
                    w.begin(t, i);
                }
            },
            Statement::Deactivate(name) => {
                proof {
                    lemma_find_actor_before(acts, name@, acts.len() as int);
                }
                if let Some(t) = actor_index_of(actors, name) {
                    w.end(t, i);
                }
            },
            Statement::Destroy(name) => {
                proof {
                    lemma_find_actor_before(acts, name@, acts.len() as int);
                }
                if let Some(t) = actor_index_of(actors, name) {
                    w.destroy(t, i);
                }
            },
            Statement::FrameOpen { .. } => {
                w.open_frame(i);
            },
            Statement::FrameElse { .. } => {
                w.frame_else(i);
            },
            Statement::FrameEnd => {
                w.close_frame(i);
            },
            _ => {},
        }
        i = i + 1;
    }
    let Walk { stacks, mut spans, open_frames: _, frames, destroyed_at } = w;
    let ghost st = plan_prefix(acts, stmts, n as int);
    let ghost done = spans@;
    let mut a: usize = 0;
    assert(bottom_spans(st.stacks, 0) =~= bottom_spans(st.stacks, 0));
    assert(done + Seq::<ActivationSpan>::empty() =~= done);
    while a < n_actors
        invariant
            a <= n_actors == stacks@.len(),
            st.stacks == Seq::new(stacks@.len(), |b: int| stacks@[b]@),
            spans@ + bottom_spans(st.stacks, a as int) == done + bottom_spans(st.stacks, 0),
        decreases n_actors - a,
    {
        let s = &stacks[a];
        let ghost before = spans@;
        let mut k: usize = 0;
        while k < s.len()
            invariant
                k <= s@.len(),
                s@ == st.stacks[a as int],
                spans@ == before + Seq::new(
                    s@.len(),
                    |m: int| ActivationSpan { actor: a, start: s@[m], end: None, nesting: m as usize },
                ).take(k as int),
            decreases s@.len() - k,
        {
            spans.push(ActivationSpan { actor: a, start: s[k], end: None, nesting: k });
            assert(Seq::new(
                s@.len(),
                |m: int| ActivationSpan { actor: a, start: s@[m], end: None, nesting: m as usize },
            ).take(k + 1) =~= Seq::new(
                s@.len(),
                |m: int| ActivationSpan { actor: a, start: s@[m], end: None, nesting: m as usize },
            ).take(k as int).push(ActivationSpan { actor: a, start: s@[k as int], end: None, nesting: k }));
            k = k + 1;
        }
        let ghost here = Seq::new(
            s@.len(),
            |m: int| ActivationSpan { actor: a, start: s@[m], end: None, nesting: m as usize },
        );
        assert(here.take(s@.len() as int) =~= here);
        assert(bottom_spans(st.stacks, a as int) == here + bottom_spans(st.stacks, a + 1));
        assert(before + bottom_spans(st.stacks, a as int) =~= spans@ + bottom_spans(st.stacks, a + 1));
        a = a + 1;
    }
    assert(bottom_spans(st.stacks, a as int) == Seq::<ActivationSpan>::empty());
    assert(spans@ =~= spans@ + Seq::<ActivationSpan>::empty());
    DiagramPlan { activations: spans, frames, destroyed_at, frames_open_before: open_before }
}

// ---------------------------------------------------------------------------
// Laws
// ---------------------------------------------------------------------------

/// Statement `s` begins an activation: a message to a known actor marked `+`
/// (from a known actor), or `activate` of a known actor.
pub open spec fn begins_activation(actors: Seq<(Seq<char>, Seq<char>)>, s: StatementView) -> bool {
    match s {
        StatementView::Message { from, to, activation, .. } => actor_index(actors, from) is Some
            && actor_index(actors, to) is Some && activation == Some(ActivationModifier::Activate),
        StatementView::Activate(a) => actor_index(actors, a) is Some,
        _ => false,
    }
}

/// The number of statements among the first `k` that begin an activation.
pub open spec fn count_begins(
    actors: Seq<(Seq<char>, Seq<char>)>,
    stmts: Seq<StatementView>,
    k: int,
) -> nat
    decreases k,
{
    if k <= 0 {
        0
    } else {
        count_begins(actors, stmts, k - 1) + if begins_activation(actors, stmts[k - 1]) {
            1nat
        } else {
            0nat
        }
    }
}

/// The number of open activations of the actors from `a` on.
pub open spec fn open_count(stacks: Seq<Seq<usize>>, a: int) -> nat
    decreases stacks.len() - a,
{
    if a < 0 || a >= stacks.len() {
        0
    } else {
        stacks[a].len() + open_count(stacks, a + 1)
    }
}

proof fn lemma_bottom_len(stacks: Seq<Seq<usize>>, a: int)
    requires
        0 <= a,
    ensures
        bottom_spans(stacks, a).len() == open_count(stacks, a),
    decreases stacks.len() - a,
{
    if a < stacks.len() {
        lemma_bottom_len(stacks, a + 1);
    }
}

proof fn lemma_open_count_update(stacks: Seq<Seq<usize>>, a: int, b: int, x: Seq<usize>)
    requires
        0 <= a <= b < stacks.len(),
    ensures
        open_count(stacks.update(b, x), a) + stacks[b].len() == open_count(stacks, a) + x.len(),
    decreases stacks.len() - a,
{
    if a < b {
        lemma_open_count_update(stacks, a + 1, b, x);
    } else {
        assert(open_count(stacks.update(b, x), a + 1) == open_count(stacks, a + 1)) by {
            lemma_open_count_same(stacks, stacks.update(b, x), a + 1);
        }
    }
}

proof fn lemma_open_count_same(s1: Seq<Seq<usize>>, s2: Seq<Seq<usize>>, a: int)
    requires
        0 <= a,
        s1.len() == s2.len(),
        forall|b: int| a <= b < s1.len() ==> s1[b] == s2[b],
    ensures
        open_count(s1, a) == open_count(s2, a),
    decreases s1.len() - a,
{
    if a < s1.len() {
        lemma_open_count_same(s1, s2, a + 1);
    }
}

proof fn lemma_balance_prefix(actors: Seq<(Seq<char>, Seq<char>)>, stmts: Seq<StatementView>, k: int)
    requires
        0 <= k <= stmts.len(),
    ensures
        plan_prefix(actors, stmts, k).stacks.len() == actors.len(),
        plan_prefix(actors, stmts, k).spans.len() + open_count(plan_prefix(actors, stmts, k).stacks, 0)
            == count_begins(actors, stmts, k),
    decreases k,
{
    if k == 0 {
        let st = initial_state(actors.len());
        assert forall|a: int| 0 <= a <= actors.len() implies open_count(st.stacks, a) == 0 by {
            lemma_open_count_zero(st.stacks, a);
        }
    } else {
        lemma_balance_prefix(actors, stmts, k - 1);
        let st = plan_prefix(actors, stmts, k - 1);
        let i = (k - 1) as usize;
        let s = stmts[k - 1];
        match s {
            StatementView::Message { from, to, activation, .. } => {
                lemma_find_actor_before(actors, to, actors.len() as int);
                if actor_index(actors, from) is Some && actor_index(actors, to) is Some {
                    let t = actor_index(actors, to)->Some_0;
                    lemma_open_count_update(st.stacks, 0, t, st.stacks[t].push(i));
                    lemma_open_count_update(st.stacks, 0, t, st.stacks[t].drop_last());
                }
            },
            StatementView::Activate(a) => {
                lemma_find_actor_before(actors, a, actors.len() as int);
                if let Some(t) = actor_index(actors, a) {
                    lemma_open_count_update(st.stacks, 0, t, st.stacks[t].push(i));
                }
            },
            StatementView::Deactivate(a) => {
                lemma_find_actor_before(actors, a, actors.len() as int);
                if let Some(t) = actor_index(actors, a) {
                    lemma_open_count_update(st.stacks, 0, t, st.stacks[t].drop_last());
                }
            },
            StatementView::Destroy(a) => {
                lemma_find_actor_before(actors, a, actors.len() as int);
                if let Some(t) = actor_index(actors, a) {
                    lemma_open_count_update(st.stacks, 0, t, Seq::empty());
                }
            },
            _ => {},
        }
    }
}

proof fn lemma_open_count_zero(stacks: Seq<Seq<usize>>, a: int)
    requires
        0 <= a <= stacks.len(),
        forall|b: int| 0 <= b < stacks.len() ==> (#[trigger] stacks[b]).len() == 0,
    ensures
        open_count(stacks, a) == 0,
    decreases stacks.len() - a,
{
    if a < stacks.len() {
        lemma_open_count_zero(stacks, a + 1);
    }
}

/// Every activation gets exactly one bar: the bars number as many as the
/// statements that begin an activation (each ends at its deactivation, at its
/// actor's destruction, or at the bottom of the diagram).
pub proof fn law_one_bar_per_activation(actors: Seq<(Seq<char>, Seq<char>)>, stmts: Seq<StatementView>)
    ensures
        plan_of(actors, stmts).activations.len() == count_begins(actors, stmts, stmts.len() as int),
{
    lemma_balance_prefix(actors, stmts, stmts.len() as int);
    lemma_bottom_len(plan_prefix(actors, stmts, stmts.len() as int).stacks, 0);
}

/// Two frames nest (one inside the other) or stand apart; a frame is as it
/// is to itself.
pub open spec fn nested_or_apart(f: FrameSpanView, g: FrameSpanView) -> bool {
    ||| (f.open < g.open && g.close < f.close)
    ||| (g.open < f.open && f.close < g.close)
    ||| f.close < g.open
    ||| g.close < f.open
    ||| (f.open == g.open && f.close == g.close)
}

/// A frame opens before it closes, and its `else` lines stand in between.
pub open spec fn frame_in_order(f: FrameSpanView) -> bool {
    &&& f.open < f.close
    &&& forall|e: int| 0 <= e < f.elses.len() ==> f.open < #[trigger] f.elses[e] < f.close
}

/// What holds of the frames after the statements before `i`.
pub open spec fn frames_inv(st: PlanState, i: int) -> bool {
    let fr = st.frames;
    let of = st.open_frames;
    &&& forall|x: int| 0 <= x < fr.len() ==> frame_in_order(#[trigger] fr[x]) && fr[x].close < i
    &&& forall|x: int, y: int|
        0 <= x < fr.len() && 0 <= y < fr.len() ==> nested_or_apart(
            #[trigger] fr[x],
            #[trigger] fr[y],
        )
    &&& forall|j: int|
        0 <= j < of.len() ==> (#[trigger] of[j]).0 < i && forall|e: int|
            0 <= e < of[j].1.len() ==> of[j].0 < #[trigger] of[j].1[e] < i
    &&& forall|j1: int, j2: int| 0 <= j1 < j2 < of.len() ==> (#[trigger] of[j1]).0 < (#[trigger] of[j2]).0
    &&& forall|x: int, j: int|
        0 <= x < fr.len() && 0 <= j < of.len() ==> (#[trigger] of[j]).0 < (#[trigger] fr[x]).open
            || fr[x].close < of[j].0
}

proof fn lemma_frames_step(st: PlanState, actors: Seq<(Seq<char>, Seq<char>)>, i: usize, s: StatementView)
    requires
        frames_inv(st, i as int),
    ensures
        frames_inv(plan_step(st, actors, i, s), i + 1),
{
    let fr = st.frames;
    let of = st.open_frames;
    let next = plan_step(st, actors, i, s);
    assert(next.frames == fr && next.open_frames == of || s is FrameOpen || s is FrameElse
        || s is FrameEnd);
    match s {
        StatementView::FrameOpen { .. } => {
            let of2 = next.open_frames;
            assert(of2 == of.push((i, Seq::<usize>::empty())));
            assert forall|j: int| 0 <= j < of2.len() implies (#[trigger] of2[j]).0 < i + 1
                && forall|e: int| 0 <= e < of2[j].1.len() ==> of2[j].0 < #[trigger] of2[j].1[e] < i
                + 1 by {
                if j < of.len() {
                    assert(of2[j] == of[j]);
                }
            }
            assert forall|j1: int, j2: int| 0 <= j1 < j2 < of2.len() implies (#[trigger] of2[j1]).0
                < (#[trigger] of2[j2]).0 by {
                assert(of2[j1] == of[j1]);
                if j2 < of.len() {
                    assert(of2[j2] == of[j2]);
                }
            }
            assert forall|x: int, j: int| 0 <= x < fr.len() && 0 <= j < of2.len() implies (
            #[trigger] of2[j]).0 < (#[trigger] fr[x]).open || fr[x].close < of2[j].0 by {
                if j < of.len() {
                    assert(of2[j] == of[j]);
                }
            }
        },
        StatementView::FrameElse { .. } => {
            if of.len() > 0 {
                let top = of.last();
                let of2 = next.open_frames;
                assert(of2 == of.drop_last().push((top.0, top.1.push(i))));
                assert forall|j: int| 0 <= j < of2.len() implies (#[trigger] of2[j]).0 < i + 1
                    && forall|e: int|
                    0 <= e < of2[j].1.len() ==> of2[j].0 < #[trigger] of2[j].1[e] < i + 1 by {
                    if j < of.len() - 1 {
                        assert(of2[j] == of[j]);
                    } else {
                        assert(of2[j] == (top.0, top.1.push(i)));
                        assert forall|e: int| 0 <= e < of2[j].1.len() implies of2[j].0
                            < #[trigger] of2[j].1[e] < i + 1 by {
                            if e < top.1.len() {
                                assert(of2[j].1[e] == top.1[e]);
                                assert(of[of.len() - 1] == top);
                            }
                        }
                    }
                }
                assert forall|j1: int, j2: int| 0 <= j1 < j2 < of2.len() implies (
                #[trigger] of2[j1]).0 < (#[trigger] of2[j2]).0 by {
                    assert(of2[j1].0 == of[j1].0);
                    assert(of2[j2].0 == of[j2].0);
                }
                assert forall|x: int, j: int| 0 <= x < fr.len() && 0 <= j < of2.len() implies (
                #[trigger] of2[j]).0 < (#[trigger] fr[x]).open || fr[x].close < of2[j].0 by {
                    assert(of2[j].0 == of[j].0);
                }
            }
        },
        StatementView::FrameEnd => {
            if of.len() > 0 {
                let top = of.last();
                let t = of.len() - 1;
                assert(of[t] == top);
                let of2 = next.open_frames;
                let fr2 = next.frames;
                let nf = FrameSpanView {
                    open: top.0,
                    close: i,
                    depth: (of.len() - 1) as usize,
                    elses: top.1,
                };
                assert(of2 == of.drop_last());
                assert(fr2 == fr.push(nf));
                assert(frame_in_order(nf));
                assert forall|x: int| 0 <= x < fr2.len() implies frame_in_order(#[trigger] fr2[x])
                    && fr2[x].close < i + 1 by {
                    if x < fr.len() {
                        assert(fr2[x] == fr[x]);
                    }
                }
                assert forall|x: int, y: int| 0 <= x < fr2.len() && 0 <= y < fr2.len() implies nested_or_apart(
                    #[trigger] fr2[x],
                    #[trigger] fr2[y],
                ) by {
                    if x < fr.len() && y < fr.len() {
                        assert(fr2[x] == fr[x] && fr2[y] == fr[y]);
                    } else if x < fr.len() {
                        assert(fr2[x] == fr[x]);
                        assert(of[t].0 < fr[x].open || fr[x].close < of[t].0);
                    } else if y < fr.len() {
                        assert(fr2[y] == fr[y]);
                        assert(of[t].0 < fr[y].open || fr[y].close < of[t].0);
                    }
                }
                assert forall|j: int| 0 <= j < of2.len() implies (#[trigger] of2[j]).0 < i + 1
                    && forall|e: int|
                    0 <= e < of2[j].1.len() ==> of2[j].0 < #[trigger] of2[j].1[e] < i + 1 by {
                    assert(of2[j] == of[j]);
                }
                assert forall|j1: int, j2: int| 0 <= j1 < j2 < of2.len() implies (
                #[trigger] of2[j1]).0 < (#[trigger] of2[j2]).0 by {
                    assert(of2[j1] == of[j1] && of2[j2] == of[j2]);
                }
                assert forall|x: int, j: int| 0 <= x < fr2.len() && 0 <= j < of2.len() implies (
                #[trigger] of2[j]).0 < (#[trigger] fr2[x]).open || fr2[x].close < of2[j].0 by {
                    assert(of2[j] == of[j]);
                    if x < fr.len() {
                        assert(fr2[x] == fr[x]);
                    } else {
                        assert(of[j].0 < of[t].0);
                    }
                }
            }
        },
        _ => {
            assert(next.frames == fr && next.open_frames == of);
        },
    }
}

proof fn lemma_frames_prefix(actors: Seq<(Seq<char>, Seq<char>)>, stmts: Seq<StatementView>, k: int)
    requires
        0 <= k <= stmts.len() <= usize::MAX,
    ensures
        frames_inv(plan_prefix(actors, stmts, k), k),
    decreases k,
{
    if k > 0 {
        lemma_frames_prefix(actors, stmts, k - 1);
        lemma_frames_step(plan_prefix(actors, stmts, k - 1), actors, (k - 1) as usize, stmts[k - 1]);
    }
}

/// Frames are blocks: each opens before it closes with its `else` lines in
/// between, closes before the end of the document, and any two frames nest
/// one inside the other or stand apart.
pub proof fn law_frames_nest(actors: Seq<(Seq<char>, Seq<char>)>, stmts: Seq<StatementView>)
    requires
        stmts.len() <= usize::MAX,
    ensures
        forall|x: int|
            0 <= x < plan_of(actors, stmts).frames.len() ==> frame_in_order(
                #[trigger] plan_of(actors, stmts).frames[x],
            ) && plan_of(actors, stmts).frames[x].close < stmts.len(),
        forall|x: int, y: int|
            0 <= x < plan_of(actors, stmts).frames.len() && 0 <= y < plan_of(
                actors,
                stmts,
            ).frames.len() ==> nested_or_apart(
                #[trigger] plan_of(actors, stmts).frames[x],
                #[trigger] plan_of(actors, stmts).frames[y],
            ),
{
    lemma_frames_prefix(actors, stmts, stmts.len() as int);
}

/// Each open frame sits at the position of the number of frames that were
/// open just before it opened, and each closed frame's depth is that number.
pub open spec fn depth_inv(
    actors: Seq<(Seq<char>, Seq<char>)>,
    stmts: Seq<StatementView>,
    k: int,
) -> bool {
    let st = plan_prefix(actors, stmts, k);
    &&& st.open_frames.len() <= k
    &&& forall|j: int|
        0 <= j < st.open_frames.len() ==> (#[trigger] st.open_frames[j]).0 < k && plan_prefix(
            actors,
            stmts,
            st.open_frames[j].0 as int,
        ).open_frames.len() == j
    &&& forall|x: int|
        0 <= x < st.frames.len() ==> plan_prefix(
            actors,
            stmts,
            (#[trigger] st.frames[x]).open as int,
        ).open_frames.len() == st.frames[x].depth
}

proof fn lemma_depth_prefix(actors: Seq<(Seq<char>, Seq<char>)>, stmts: Seq<StatementView>, k: int)
    requires
        0 <= k <= stmts.len() <= usize::MAX,
    ensures
        depth_inv(actors, stmts, k),
    decreases k,
{
    if k > 0 {
        lemma_depth_prefix(actors, stmts, k - 1);
        let st = plan_prefix(actors, stmts, k - 1);
        let next = plan_prefix(actors, stmts, k);
        assert(next == plan_step(st, actors, (k - 1) as usize, stmts[k - 1]));
        let of = st.open_frames;
        let fr = st.frames;
        match stmts[k - 1] {
            StatementView::FrameOpen { .. } => {
                assert(next.open_frames == of.push(((k - 1) as usize, Seq::<usize>::empty())));
                assert(next.frames == fr);
                assert forall|j: int| 0 <= j < next.open_frames.len() implies (
                #[trigger] next.open_frames[j]).0 < k && plan_prefix(
                    actors,
                    stmts,
                    next.open_frames[j].0 as int,
                ).open_frames.len() == j by {
                    if j < of.len() {
                        assert(next.open_frames[j] == of[j]);
                    }
                }
            },
            StatementView::FrameElse { .. } => {
                assert(next.frames == fr);
                if of.len() > 0 {
                    let top = of.last();
                    assert(next.open_frames == of.drop_last().push((top.0, top.1.push((k - 1) as usize))));
                    assert forall|j: int| 0 <= j < next.open_frames.len() implies (
                    #[trigger] next.open_frames[j]).0 < k && plan_prefix(
                        actors,
                        stmts,
                        next.open_frames[j].0 as int,
                    ).open_frames.len() == j by {
                        assert(next.open_frames[j].0 == of[j].0);
                    }
                } else {
                    assert(next.open_frames == of);
                }
            },
            StatementView::FrameEnd => {
                if of.len() > 0 {
                    let top = of.last();
                    let t = of.len() - 1;
                    assert(of[t] == top);
                    assert(next.open_frames == of.drop_last());
                    assert(next.frames == fr.push(
                        FrameSpanView {
                            open: top.0,
                            close: (k - 1) as usize,
                            depth: (of.len() - 1) as usize,
                            elses: top.1,
                        },
                    ));
                    assert forall|j: int| 0 <= j < next.open_frames.len() implies (
                    #[trigger] next.open_frames[j]).0 < k && plan_prefix(
                        actors,
                        stmts,
                        next.open_frames[j].0 as int,
                    ).open_frames.len() == j by {
                        assert(next.open_frames[j] == of[j]);
                    }
                    assert forall|x: int| 0 <= x < next.frames.len() implies plan_prefix(
                        actors,
                        stmts,
                        (#[trigger] next.frames[x]).open as int,
                    ).open_frames.len() == next.frames[x].depth by {
                        if x < fr.len() {
                            assert(next.frames[x] == fr[x]);
                        } else {
                            assert(plan_prefix(actors, stmts, of[t].0 as int).open_frames.len() == t);
                        }
                    }
                } else {
                    assert(next.open_frames == of && next.frames == fr);
                }
            },
            _ => {
                assert(next.frames == fr && next.open_frames == of);
            },
        }
    }
}

/// A frame's depth is the number of frames open just before it opens: the
/// frames that enclose it.
pub proof fn law_frame_depth_is_nesting(actors: Seq<(Seq<char>, Seq<char>)>, stmts: Seq<StatementView>)
    requires
        stmts.len() <= usize::MAX,
    ensures
        forall|x: int|
            0 <= x < plan_of(actors, stmts).frames.len() ==> (#[trigger] plan_of(
                actors,
                stmts,
            ).frames[x]).open < stmts.len() && plan_of(actors, stmts).frames_open_before[plan_of(
                actors,
                stmts,
            ).frames[x].open as int] == plan_of(actors, stmts).frames[x].depth,
{
    lemma_frames_prefix(actors, stmts, stmts.len() as int);
    lemma_depth_prefix(actors, stmts, stmts.len() as int);
    let p = plan_of(actors, stmts);
    let st = plan_prefix(actors, stmts, stmts.len() as int);
    assert forall|x: int| 0 <= x < p.frames.len() implies (#[trigger] p.frames[x]).open < stmts.len()
        && p.frames_open_before[p.frames[x].open as int] == p.frames[x].depth by {
        assert(p.frames[x] == st.frames[x]);
        assert(frame_in_order(st.frames[x]));
    }
}

/// The actor whose activation statement `s` begins.
pub open spec fn activation_target(actors: Seq<(Seq<char>, Seq<char>)>, s: StatementView) -> Option<
    int,
> {
    match s {
        StatementView::Message { to, .. } => actor_index(actors, to),
        StatementView::Activate(a) => actor_index(actors, a),
        _ => None,
    }
}

/// Statement `s` begins an activation of actor `a`.
pub open spec fn begins_for(actors: Seq<(Seq<char>, Seq<char>)>, s: StatementView, a: int) -> bool {
    begins_activation(actors, s) && activation_target(actors, s) == Some(a)
}

/// A bar of `stmts` over `actors`: its actor is a column, it begins at a
/// statement that begins an activation of that actor, and it ends (if not at
/// the bottom) at a later statement.
pub open spec fn bar_in_order(
    actors: Seq<(Seq<char>, Seq<char>)>,
    stmts: Seq<StatementView>,
    b: ActivationSpan,
) -> bool {
    &&& b.actor < actors.len()
    &&& b.start < stmts.len()
    &&& begins_for(actors, stmts[b.start as int], b.actor as int)
    &&& (b.end matches Some(e) ==> b.start < e < stmts.len())
}

/// What holds of the bars after the statements before `i`.
pub open spec fn bars_inv(
    st: PlanState,
    actors: Seq<(Seq<char>, Seq<char>)>,
    stmts: Seq<StatementView>,
    i: int,
) -> bool {
    &&& st.stacks.len() == actors.len()
    &&& i <= stmts.len()
    &&& forall|a: int, k: int|
        0 <= a < st.stacks.len() && 0 <= k < st.stacks[a].len() ==> (#[trigger] st.stacks[a][k]) < i
            && begins_for(actors, stmts[st.stacks[a][k] as int], a)
    &&& forall|x: int|
        0 <= x < st.spans.len() ==> bar_in_order(actors, stmts, #[trigger] st.spans[x])
            && st.spans[x].end is Some && st.spans[x].end->Some_0 < i
}

proof fn lemma_bars_step(
    st: PlanState,
    actors: Seq<(Seq<char>, Seq<char>)>,
    stmts: Seq<StatementView>,
    i: usize,
)
    requires
        i < stmts.len(),
        actors.len() <= usize::MAX,
        bars_inv(st, actors, stmts, i as int),
    ensures
        bars_inv(plan_step(st, actors, i, stmts[i as int]), actors, stmts, i + 1),
{
    let s = stmts[i as int];
    let next = plan_step(st, actors, i, s);
    let target = activation_target(actors, s);
    match s {
        StatementView::Message { from, to, activation, .. } => {
            lemma_find_actor_before(actors, to, actors.len() as int);
        },
        StatementView::Activate(a) => {
            lemma_find_actor_before(actors, a, actors.len() as int);
        },
        StatementView::Deactivate(a) => {
            lemma_find_actor_before(actors, a, actors.len() as int);
        },
        StatementView::Destroy(a) => {
            lemma_find_actor_before(actors, a, actors.len() as int);
        },
        _ => {},
    }
    // The actor whose stack the statement changes, if any.
    let changed: Option<int> = match s {
        StatementView::Message { from, to, activation, .. } => if actor_index(actors, from) is Some
            && actor_index(actors, to) is Some && activation is Some {
            actor_index(actors, to)
        } else {
            None
        },
        StatementView::Activate(a) => actor_index(actors, a),
        StatementView::Deactivate(a) => actor_index(actors, a),
        StatementView::Destroy(a) => actor_index(actors, a),
        _ => None,
    };
    if changed is None {
        assert(next.stacks == st.stacks && next.spans == st.spans);
    } else {
        let t = changed->Some_0;
        assert(0 <= t < actors.len());
        let old_s = st.stacks[t];
        assert forall|a: int, k: int|
            0 <= a < next.stacks.len() && 0 <= k < next.stacks[a].len() implies (
        #[trigger] next.stacks[a][k]) < i + 1 && begins_for(
            actors,
            stmts[next.stacks[a][k] as int],
            a,
        ) by {
            if a != t {
                assert(next.stacks[a] == st.stacks[a]);
            } else if k < old_s.len() {
                assert(next.stacks[a][k] == old_s[k]);
            } else {
                assert(begins_activation(actors, s));
                assert(next.stacks[a][k] == i);
            }
        }
        assert forall|x: int| 0 <= x < next.spans.len() implies bar_in_order(
            actors,
            stmts,
            #[trigger] next.spans[x],
        ) && next.spans[x].end is Some && next.spans[x].end->Some_0 < i + 1 by {
            if x < st.spans.len() {
                assert(next.spans[x] == st.spans[x]);
            } else if s is Destroy {
                let m = x - st.spans.len();
                assert(next.spans[x] == ended_together(t, old_s, i)[m]);
                assert(old_s[old_s.len() - 1 - m] == st.stacks[t][old_s.len() - 1 - m]);
            } else {
                assert(old_s.len() > 0);
                assert(old_s.last() == st.stacks[t][old_s.len() - 1]);
            }
        }
    }
}

proof fn lemma_bars_prefix(actors: Seq<(Seq<char>, Seq<char>)>, stmts: Seq<StatementView>, k: int)
    requires
        0 <= k <= stmts.len() <= usize::MAX,
        actors.len() <= usize::MAX,
    ensures
        bars_inv(plan_prefix(actors, stmts, k), actors, stmts, k),
    decreases k,
{
    if k > 0 {
        lemma_bars_prefix(actors, stmts, k - 1);
        lemma_bars_step(plan_prefix(actors, stmts, k - 1), actors, stmts, (k - 1) as usize);
    }
}

proof fn lemma_bottom_bars(
    stacks: Seq<Seq<usize>>,
    a: int,
    actors: Seq<(Seq<char>, Seq<char>)>,
    stmts: Seq<StatementView>,
)
    requires
        0 <= a,
        stacks.len() == actors.len() <= usize::MAX,
        forall|b: int, k: int|
            0 <= b < stacks.len() && 0 <= k < stacks[b].len() ==> (#[trigger] stacks[b][k])
                < stmts.len() && begins_for(actors, stmts[stacks[b][k] as int], b),
    ensures
        forall|x: int|
            0 <= x < bottom_spans(stacks, a).len() ==> bar_in_order(
                actors,
                stmts,
                #[trigger] bottom_spans(stacks, a)[x],
            ),
    decreases stacks.len() - a,
{
    if a < stacks.len() {
        lemma_bottom_bars(stacks, a + 1, actors, stmts);
        let here = Seq::new(
            stacks[a].len(),
            |k: int| ActivationSpan { actor: a as usize, start: stacks[a][k], end: None, nesting: k as usize },
        );
        assert(bottom_spans(stacks, a) == here + bottom_spans(stacks, a + 1));
        assert forall|x: int| 0 <= x < bottom_spans(stacks, a).len() implies bar_in_order(
            actors,
            stmts,
            #[trigger] bottom_spans(stacks, a)[x],
        ) by {
            if x < here.len() {
                assert(bottom_spans(stacks, a)[x] == here[x]);
                assert(here[x].start == stacks[a][x]);
            } else {
                assert(bottom_spans(stacks, a)[x] == bottom_spans(stacks, a + 1)[x - here.len()]);
            }
        }
    }
}

/// Every bar belongs to its activation: its actor is a column, it begins at a
/// statement that activates that actor, and, unless it runs to the bottom,
/// it ends at a later statement.
pub proof fn law_bars_in_order(actors: Seq<(Seq<char>, Seq<char>)>, stmts: Seq<StatementView>)
    requires
        stmts.len() <= usize::MAX,
        actors.len() <= usize::MAX,
    ensures
        forall|x: int|
            0 <= x < plan_of(actors, stmts).activations.len() ==> bar_in_order(
                actors,
                stmts,
                #[trigger] plan_of(actors, stmts).activations[x],
            ),
{
    let st = plan_prefix(actors, stmts, stmts.len() as int);
    lemma_bars_prefix(actors, stmts, stmts.len() as int);
    lemma_bottom_bars(st.stacks, 0, actors, stmts);
    let all = plan_of(actors, stmts).activations;
    assert(all == st.spans + bottom_spans(st.stacks, 0));
    assert forall|x: int| 0 <= x < all.len() implies bar_in_order(actors, stmts, #[trigger] all[x]) by {
        if x < st.spans.len() {
            assert(all[x] == st.spans[x]);
        } else {
            assert(all[x] == bottom_spans(st.stacks, 0)[x - st.spans.len()]);
        }
    }
}

} // verus!

//! The actors of a diagram, in the order in which they take their columns.
//!
//! Participant declarations come first, in their order; then each actor that
//! a message, `activate`, `deactivate` or `destroy` names for the first time.
//! An actor is listed once, by its reference name (the alias when it has one),
//! with its display name.

use vstd::prelude::*;

use crate::ast::{statements_view, Document, Statement, StatementView};

verus! {

/// Actors found so far, as (reference, display) pairs, and the names already
/// taken (references, and the declared names of aliased participants).
pub type ActorState = (Seq<(Seq<char>, Seq<char>)>, Seq<Seq<char>>);

/// The effect of one statement in the pass over participant declarations.
pub open spec fn declare_step(st: ActorState, s: StatementView) -> ActorState {
    match s {
        StatementView::Participant { actor, alias } => {
            let r = match alias {
                Some(a) => a,
                None => actor,
            };
            if st.1.contains(r) {
                st
            } else {
                let seen = st.1.push(r);
                (
                    st.0.push((r, actor)),
                    if alias is Some {
                        seen.push(actor)
                    } else {
                        seen
                    },
                )
            }
        },
        _ => st,
    }
}

/// `name`, used by a statement: listed unless already taken.
pub open spec fn mention(st: ActorState, name: Seq<char>) -> ActorState {
    if st.1.contains(name) {
        st
    } else {
        (st.0.push((name, name)), st.1.push(name))
    }
}

/// The effect of one statement in the pass over the statements that use
/// actors.
pub open spec fn use_step(st: ActorState, s: StatementView) -> ActorState {
    match s {
        StatementView::Message { from, to, .. } => mention(mention(st, from), to),
        StatementView::Activate(a) => mention(st, a),
        StatementView::Deactivate(a) => mention(st, a),
        StatementView::Destroy(a) => mention(st, a),
        _ => st,
    }
}

/// The first pass, over `stmts`.
pub open spec fn declare_all(stmts: Seq<StatementView>) -> ActorState
    decreases stmts.len(),
{
    if stmts.len() == 0 {
        (Seq::empty(), Seq::empty())
    } else {
        declare_step(declare_all(stmts.drop_last()), stmts.last())
    }
}

/// The second pass, over `stmts`, from the state `st0`.
pub open spec fn use_all(st0: ActorState, stmts: Seq<StatementView>) -> ActorState
    decreases stmts.len(),
{
    if stmts.len() == 0 {
        st0
    } else {
        use_step(use_all(st0, stmts.drop_last()), stmts.last())
    }
}

/// The actors of a document, as (reference, display) pairs.
pub open spec fn resolved_actors(stmts: Seq<StatementView>) -> Seq<(Seq<char>, Seq<char>)> {
    use_all(declare_all(stmts), stmts).0
}

/// Pairs of strings, by their views.
pub open spec fn pairs_view(v: Seq<(String, String)>) -> Seq<(Seq<char>, Seq<char>)> {
    Seq::new(v.len(), |i: int| (v[i].0@, v[i].1@))
}

/// Strings, by their views.
pub open spec fn strings_view(v: Seq<String>) -> Seq<Seq<char>> {
    Seq::new(v.len(), |i: int| v[i]@)
}

/// Whether `v` holds `s`.
pub fn contains_string(v: &Vec<String>, s: &String) -> (b: bool)
    ensures
        b == strings_view(v@).contains(s@),
{
    let mut i: usize = 0;
    while i < v.len()
        invariant
            i <= v@.len(),
            forall|j: int| 0 <= j < i ==> v@[j]@ != s@,
        decreases v@.len() - i,
    {
        if v[i] == *s {
            assert(strings_view(v@)[i as int] == s@);
            return true;
        }
        i = i + 1;
    }
    assert forall|j: int| 0 <= j < strings_view(v@).len() implies strings_view(v@)[j] != s@ by {}
    false
}

/// Lists `name` (as reference and display) unless it is already taken.
fn mention_exec(actors: &mut Vec<(String, String)>, seen: &mut Vec<String>, name: &String)
    ensures
        (pairs_view(final(actors)@), strings_view(final(seen)@)) == mention(
            (pairs_view(old(actors)@), strings_view(old(seen)@)),
            name@,
        ),
{
    if !contains_string(seen, name) {
        let ghost a0 = pairs_view(actors@);
        let ghost s0 = strings_view(seen@);
        actors.push((name.clone(), name.clone()));
        seen.push(name.clone());
        assert(pairs_view(actors@) =~= a0.push((name@, name@)));
        assert(strings_view(seen@) =~= s0.push(name@));
    }
}

/// Extracts the ordered list of unique actors from a document, as
/// (reference name, display name) pairs: declared participants first, then
/// the actors that other statements name, in order of first mention.
pub fn resolve_actors(doc: &Document) -> (r: Vec<(String, String)>)
    ensures
        pairs_view(r@) == resolved_actors(doc@),
{
    let ghost stmts = doc@;
    let mut actors: Vec<(String, String)> = Vec::new();
    let mut seen: Vec<String> = Vec::new();
    let n = doc.statements.len();
    assert(pairs_view(actors@) =~= Seq::<(Seq<char>, Seq<char>)>::empty());
    assert(strings_view(seen@) =~= Seq::<Seq<char>>::empty());
    assert(stmts.take(0) =~= Seq::<StatementView>::empty());
    let mut i: usize = 0;
    while i < n
        invariant
            i <= n,
            n == doc.statements@.len(),
            stmts == doc@,
            (pairs_view(actors@), strings_view(seen@)) == declare_all(stmts.take(i as int)),
        decreases n - i,
    {
        assert(stmts.take(i + 1).drop_last() =~= stmts.take(i as int));
        assert(stmts.take(i + 1).last() == doc.statements@[i as int]@);
        match &doc.statements[i] {
            Statement::Participant { actor, alias } => {
                let r = match alias {
                    Some(a) => a,
                    None => actor,
                };
                if !contains_string(&seen, r) {
                    let ghost a0 = pairs_view(actors@);
                    let ghost s0 = strings_view(seen@);
                    seen.push(r.clone());
                    if alias.is_some() {
                        seen.push(actor.clone());
                        assert(strings_view(seen@) =~= s0.push(r@).push(actor@));
                    } else {
                        assert(strings_view(seen@) =~= s0.push(r@));
                    }
                    actors.push((r.clone(), actor.clone()));
                    assert(pairs_view(actors@) =~= a0.push((r@, actor@)));
                }
            },
            _ => {},
        }
        i = i + 1;
    }
    assert(stmts.take(n as int) =~= stmts);
    let ghost declared = (pairs_view(actors@), strings_view(seen@));
    assert(stmts.take(0) =~= Seq::<StatementView>::empty());
    i = 0;
    while i < n
        invariant
            i <= n,
            n == doc.statements@.len(),
            stmts == doc@,
            declared == declare_all(stmts),
            (pairs_view(actors@), strings_view(seen@)) == use_all(declared, stmts.take(i as int)),
        decreases n - i,
    {
        assert(stmts.take(i + 1).drop_last() =~= stmts.take(i as int));
        assert(stmts.take(i + 1).last() == doc.statements@[i as int]@);
        match &doc.statements[i] {
            Statement::Message { from, to, .. } => {
                mention_exec(&mut actors, &mut seen, from);
                mention_exec(&mut actors, &mut seen, to);
            },
            Statement::Activate(a) => {
                mention_exec(&mut actors, &mut seen, a);
            },
            Statement::Deactivate(a) => {
                mention_exec(&mut actors, &mut seen, a);
            },
            Statement::Destroy(a) => {
                mention_exec(&mut actors, &mut seen, a);
            },
            _ => {},
        }
        i = i + 1;
    }
    assert(stmts.take(n as int) =~= stmts);
    actors
}

// ---------------------------------------------------------------------------
// Laws
// ---------------------------------------------------------------------------

/// The names that a statement refers an actor by: both ends of a message, the
/// actor of `activate`, `deactivate` and `destroy`, and the reference name of
/// a participant (its alias when it has one).
pub open spec fn mentions(s: StatementView, x: Seq<char>) -> bool {
    match s {
        StatementView::Message { from, to, .. } => x == from || x == to,
        StatementView::Activate(a) => x == a,
        StatementView::Deactivate(a) => x == a,
        StatementView::Destroy(a) => x == a,
        StatementView::Participant { actor, alias } => x == (match alias {
            Some(a) => a,
            None => actor,
        }),
        _ => false,
    }
}

/// References are distinct, and each is taken.
pub open spec fn refs_distinct_and_taken(st: ActorState) -> bool {
    &&& forall|i: int, j: int|
        0 <= i < j < st.0.len() ==> (#[trigger] st.0[i]).0 != (#[trigger] st.0[j]).0
    &&& forall|i: int| 0 <= i < st.0.len() ==> st.1.contains((#[trigger] st.0[i]).0)
}

/// Every taken name is the reference or the display name of a listed actor.
pub open spec fn taken_names_listed(st: ActorState) -> bool {
    forall|x: Seq<char>|
        #[trigger] st.1.contains(x) ==> exists|i: int|
            0 <= i < st.0.len() && ((#[trigger] st.0[i]).0 == x || st.0[i].1 == x)
}

/// `big` extends `small`: its actors begin with those of `small`, and it takes
/// every name that `small` takes.
pub open spec fn extends(small: ActorState, big: ActorState) -> bool {
    &&& small.0.len() <= big.0.len()
    &&& big.0.subrange(0, small.0.len() as int) == small.0
    &&& forall|x: Seq<char>| small.1.contains(x) ==> #[trigger] big.1.contains(x)
}

proof fn lemma_mention(st: ActorState, x: Seq<char>)
    requires
        refs_distinct_and_taken(st),
        taken_names_listed(st),
    ensures
        refs_distinct_and_taken(mention(st, x)),
        taken_names_listed(mention(st, x)),
        extends(st, mention(st, x)),
        mention(st, x).1.contains(x),
{
    let m = mention(st, x);
    if !st.1.contains(x) {
        assert(m.0.subrange(0, st.0.len() as int) =~= st.0);
        assert forall|i: int| 0 <= i < m.0.len() implies m.1.contains((#[trigger] m.0[i]).0) by {
            if i < st.0.len() {
                assert(st.1.contains(st.0[i].0));
                assert(m.1[st.1.len() as int] == x);
                let k = choose|k: int| 0 <= k < st.1.len() && st.1[k] == st.0[i].0;
                assert(m.1[k] == st.0[i].0);
            } else {
                assert(m.1[st.1.len() as int] == x);
            }
        }
        assert forall|y: Seq<char>| #[trigger] m.1.contains(y) implies exists|i: int|
            0 <= i < m.0.len() && ((#[trigger] m.0[i]).0 == y || m.0[i].1 == y) by {
            let k = choose|k: int| 0 <= k < m.1.len() && m.1[k] == y;
            if k < st.1.len() {
                assert(st.1[k] == y);
                assert(st.1.contains(y));
                let i = choose|i: int| 0 <= i < st.0.len() && (st.0[i].0 == y || st.0[i].1 == y);
                assert(m.0[i] == st.0[i]);
            } else {
                assert(m.0[st.0.len() as int].0 == y);
            }
        }
        assert forall|z: Seq<char>| st.1.contains(z) implies #[trigger] m.1.contains(z) by {
            let k = choose|k: int| 0 <= k < st.1.len() && st.1[k] == z;
            assert(m.1[k] == z);
        }
        assert(m.1[st.1.len() as int] == x);
    } else {
        assert(m.0.subrange(0, st.0.len() as int) =~= st.0);
    }
}

proof fn lemma_extends_trans(a: ActorState, b: ActorState, c: ActorState)
    requires
        extends(a, b),
        extends(b, c),
    ensures
        extends(a, c),
{
    assert(c.0.subrange(0, a.0.len() as int) =~= b.0.subrange(0, a.0.len() as int));
}

proof fn lemma_extends_refl(a: ActorState)
    ensures
        extends(a, a),
{
    assert(a.0.subrange(0, a.0.len() as int) =~= a.0);
}

proof fn lemma_declare_step(st: ActorState, s: StatementView)
    requires
        refs_distinct_and_taken(st),
        taken_names_listed(st),
    ensures
        refs_distinct_and_taken(declare_step(st, s)),
        taken_names_listed(declare_step(st, s)),
        extends(st, declare_step(st, s)),
        forall|x: Seq<char>| mentions(s, x) && s is Participant ==> declare_step(st, s).1.contains(x),
{
    lemma_extends_refl(st);
    match s {
        StatementView::Participant { actor, alias } => {
            let r = match alias {
                Some(a) => a,
                None => actor,
            };
            if !st.1.contains(r) {
                let m = mention(st, r);
                lemma_mention(st, r);
                let d = declare_step(st, s);
                if alias is Some {
                    // `d` is `m` with the display taken as well; it is listed
                    // as the display of the last actor.
                    assert(d.0 == st.0.push((r, actor)));
                    assert(d.1 == m.1.push(actor));
                    assert(d.0.subrange(0, st.0.len() as int) =~= st.0);
                    assert forall|i: int| 0 <= i < d.0.len() implies d.1.contains(
                        (#[trigger] d.0[i]).0,
                    ) by {
                        if i < st.0.len() {
                            let k = choose|k: int| 0 <= k < st.1.len() && st.1[k] == st.0[i].0;
                            assert(d.1[k] == st.0[i].0);
                        } else {
                            assert(d.1[st.1.len() as int] == r);
                        }
                    }
                    assert forall|y: Seq<char>| #[trigger] d.1.contains(y) implies exists|i: int|
                        0 <= i < d.0.len() && ((#[trigger] d.0[i]).0 == y || d.0[i].1 == y) by {
                        let k = choose|k: int| 0 <= k < d.1.len() && d.1[k] == y;
                        if k < st.1.len() {
                            assert(st.1[k] == y);
                            assert(st.1.contains(y));
                            let i = choose|i: int|
                                0 <= i < st.0.len() && (st.0[i].0 == y || st.0[i].1 == y);
                            assert(d.0[i] == st.0[i]);
                        } else {
                            assert(d.0[st.0.len() as int] == (r, actor));
                        }
                    }
                    assert forall|z: Seq<char>| st.1.contains(z) implies #[trigger] d.1.contains(
                        z,
                    ) by {
                        let k = choose|k: int| 0 <= k < st.1.len() && st.1[k] == z;
                        assert(d.1[k] == z);
                    }
                    assert(d.1[st.1.len() as int] == r);
                    assert forall|i: int, j: int| 0 <= i < j < d.0.len() implies (
                    #[trigger] d.0[i]).0 != (#[trigger] d.0[j]).0 by {
                        assert(m.0[i].0 == d.0[i].0);
                        assert(m.0[j].0 == d.0[j].0);
                    }
                } else {
                    assert(d == (st.0.push((r, r)), st.1.push(r)));
                    assert(d == m);
                }
            }
        },
        _ => {},
    }
}

proof fn lemma_use_step(st: ActorState, s: StatementView)
    requires
        refs_distinct_and_taken(st),
        taken_names_listed(st),
    ensures
        refs_distinct_and_taken(use_step(st, s)),
        taken_names_listed(use_step(st, s)),
        extends(st, use_step(st, s)),
        forall|x: Seq<char>| mentions(s, x) && !(s is Participant) ==> use_step(st, s).1.contains(x),
{
    lemma_extends_refl(st);
    match s {
        StatementView::Message { from, to, .. } => {
            lemma_mention(st, from);
            lemma_mention(mention(st, from), to);
            lemma_extends_trans(st, mention(st, from), use_step(st, s));
        },
        StatementView::Activate(a) => {
            lemma_mention(st, a);
        },
        StatementView::Deactivate(a) => {
            lemma_mention(st, a);
        },
        StatementView::Destroy(a) => {
            lemma_mention(st, a);
        },
        _ => {},
    }
}

proof fn lemma_declare_all(stmts: Seq<StatementView>)
    ensures
        refs_distinct_and_taken(declare_all(stmts)),
        taken_names_listed(declare_all(stmts)),
        forall|k: int, x: Seq<char>|
            0 <= k < stmts.len() && #[trigger] mentions(stmts[k], x) && stmts[k] is Participant
                ==> declare_all(stmts).1.contains(x),
    decreases stmts.len(),
{
    if stmts.len() > 0 {
        let prev = declare_all(stmts.drop_last());
        lemma_declare_all(stmts.drop_last());
        lemma_declare_step(prev, stmts.last());
        assert forall|k: int, x: Seq<char>|
            0 <= k < stmts.len() && #[trigger] mentions(stmts[k], x) && stmts[k] is Participant
                implies declare_all(stmts).1.contains(x) by {
            if k < stmts.len() - 1 {
                assert(stmts.drop_last()[k] == stmts[k]);
                assert(prev.1.contains(x));
            }
        }
    }
}

proof fn lemma_use_all(st0: ActorState, stmts: Seq<StatementView>)
    requires
        refs_distinct_and_taken(st0),
        taken_names_listed(st0),
    ensures
        refs_distinct_and_taken(use_all(st0, stmts)),
        taken_names_listed(use_all(st0, stmts)),
        extends(st0, use_all(st0, stmts)),
        forall|k: int, x: Seq<char>|
            0 <= k < stmts.len() && #[trigger] mentions(stmts[k], x) && !(stmts[k] is Participant)
                ==> use_all(st0, stmts).1.contains(x),
    decreases stmts.len(),
{
    if stmts.len() == 0 {
        lemma_extends_refl(st0);
    } else {
        let prev = use_all(st0, stmts.drop_last());
        lemma_use_all(st0, stmts.drop_last());
        lemma_use_step(prev, stmts.last());
        lemma_extends_trans(st0, prev, use_all(st0, stmts));
        assert forall|k: int, x: Seq<char>|
            0 <= k < stmts.len() && #[trigger] mentions(stmts[k], x) && !(stmts[k] is Participant)
                implies use_all(st0, stmts).1.contains(x) by {
            if k < stmts.len() - 1 {
                assert(stmts.drop_last()[k] == stmts[k]);
                assert(prev.1.contains(x));
            }
        }
    }
}

/// Each actor is listed once: the reference names of the resolved actors are
/// pairwise distinct.
pub proof fn law_actor_references_distinct(stmts: Seq<StatementView>)
    ensures
        forall|i: int, j: int|
            0 <= i < j < resolved_actors(stmts).len() ==> (#[trigger] resolved_actors(stmts)[i]).0
                != (#[trigger] resolved_actors(stmts)[j]).0,
{
    lemma_declare_all(stmts);
    lemma_use_all(declare_all(stmts), stmts);
}

/// No actor is lost: every name by which a statement refers to an actor is
/// the reference name or the display name of a resolved actor.
pub proof fn law_mentioned_actors_resolved(stmts: Seq<StatementView>, k: int, x: Seq<char>)
    requires
        0 <= k < stmts.len(),
        mentions(stmts[k], x),
    ensures
        exists|i: int|
            0 <= i < resolved_actors(stmts).len() && ((#[trigger] resolved_actors(stmts)[i]).0
                == x || resolved_actors(stmts)[i].1 == x),
{
    let d = declare_all(stmts);
    let u = use_all(d, stmts);
    lemma_declare_all(stmts);
    lemma_use_all(d, stmts);
    if stmts[k] is Participant {
        assert(d.1.contains(x));
    }
    assert(u.1.contains(x));
    let i = choose|i: int| 0 <= i < u.0.len() && (u.0[i].0 == x || u.0[i].1 == x);
    assert(resolved_actors(stmts)[i] == u.0[i]);
}

/// Declared participants come first: the actors of the participant
/// declarations, in their order, begin the list.
pub proof fn law_declared_participants_first(stmts: Seq<StatementView>)
    ensures
        declare_all(stmts).0.len() <= resolved_actors(stmts).len(),
        resolved_actors(stmts).subrange(0, declare_all(stmts).0.len() as int) == declare_all(
            stmts,
        ).0,
{
    lemma_declare_all(stmts);
    lemma_use_all(declare_all(stmts), stmts);
}

/// The names that a statement uses an actor by (participants aside), in
/// order: both ends of a message, sender first; the actor of `activate`,
/// `deactivate` and `destroy`.
pub open spec fn used_names(s: StatementView) -> Seq<Seq<char>> {
    match s {
        StatementView::Message { from, to, .. } => seq![from, to],
        StatementView::Activate(a) => seq![a],
        StatementView::Deactivate(a) => seq![a],
        StatementView::Destroy(a) => seq![a],
        _ => Seq::empty(),
    }
}

/// The names that the statements use actors by, in order.
pub open spec fn use_names(stmts: Seq<StatementView>) -> Seq<Seq<char>>
    decreases stmts.len(),
{
    if stmts.len() == 0 {
        Seq::empty()
    } else {
        use_names(stmts.drop_last()) + used_names(stmts.last())
    }
}

/// The names among `names` that are not in `taken`, each at its first
/// occurrence, in order.
pub open spec fn new_names(names: Seq<Seq<char>>, taken: Seq<Seq<char>>) -> Seq<Seq<char>>
    decreases names.len(),
{
    if names.len() == 0 {
        Seq::empty()
    } else {
        let prev = new_names(names.drop_last(), taken);
        let x = names.last();
        if taken.contains(x) || prev.contains(x) {
            prev
        } else {
            prev.push(x)
        }
    }
}

/// Each name as an actor whose reference and display name are that name.
pub open spec fn self_pairs(names: Seq<Seq<char>>) -> Seq<(Seq<char>, Seq<char>)> {
    Seq::new(names.len(), |i: int| (names[i], names[i]))
}

proof fn lemma_mention_new(st0: ActorState, names: Seq<Seq<char>>, x: Seq<char>)
    ensures
        mention(
            (st0.0 + self_pairs(new_names(names, st0.1)), st0.1 + new_names(names, st0.1)),
            x,
        ) == (st0.0 + self_pairs(new_names(names.push(x), st0.1)), st0.1 + new_names(
            names.push(x),
            st0.1,
        )),
{
    let prev = new_names(names, st0.1);
    let t = st0.1;
    assert(names.push(x).drop_last() =~= names);
    let taken = t + prev;
    assert(taken.contains(x) <==> (t.contains(x) || prev.contains(x))) by {
        if taken.contains(x) {
            let k = choose|k: int| 0 <= k < taken.len() && taken[k] == x;
            if k >= t.len() {
                assert(prev[k - t.len()] == x);
            }
        }
        if t.contains(x) {
            let k = choose|k: int| 0 <= k < t.len() && t[k] == x;
            assert(taken[k] == x);
        }
        if prev.contains(x) {
            let k = choose|k: int| 0 <= k < prev.len() && prev[k] == x;
            assert(taken[t.len() + k] == x);
        }
    }
    if !taken.contains(x) {
        assert(st0.0 + self_pairs(prev.push(x)) =~= (st0.0 + self_pairs(prev)).push((x, x)));
        assert(t + prev.push(x) =~= (t + prev).push(x));
    }
}

proof fn lemma_use_all_names(st0: ActorState, stmts: Seq<StatementView>)
    ensures
        use_all(st0, stmts) == (st0.0 + self_pairs(new_names(use_names(stmts), st0.1)), st0.1
            + new_names(use_names(stmts), st0.1)),
    decreases stmts.len(),
{
    if stmts.len() == 0 {
        assert(st0.0 + self_pairs(Seq::empty()) =~= st0.0);
        assert(st0.1 + Seq::<Seq<char>>::empty() =~= st0.1);
    } else {
        lemma_use_all_names(st0, stmts.drop_last());
        let a = use_names(stmts.drop_last());
        let s = stmts.last();
        match s {
            StatementView::Message { from, to, .. } => {
                lemma_mention_new(st0, a, from);
                lemma_mention_new(st0, a.push(from), to);
                assert(a + seq![from, to] =~= a.push(from).push(to));
            },
            StatementView::Activate(x) => {
                lemma_mention_new(st0, a, x);
                assert(a + seq![x] =~= a.push(x));
            },
            StatementView::Deactivate(x) => {
                lemma_mention_new(st0, a, x);
                assert(a + seq![x] =~= a.push(x));
            },
            StatementView::Destroy(x) => {
                lemma_mention_new(st0, a, x);
                assert(a + seq![x] =~= a.push(x));
            },
            _ => {
                assert(a + Seq::<Seq<char>>::empty() =~= a);
            },
        }
    }
}

/// After the declared participants, the other actors come in order of first
/// use (a message's sender before its receiver), each once, leaving out the
/// names that the declarations took; each goes by its name as reference and
/// display name.
pub proof fn law_undeclared_actors_in_order_of_use(stmts: Seq<StatementView>)
    ensures
        resolved_actors(stmts) == declare_all(stmts).0 + self_pairs(
            new_names(use_names(stmts), declare_all(stmts).1),
        ),
{
    lemma_use_all_names(declare_all(stmts), stmts);
}

/// The actor that statement `s` can give: a participant gives its reference
/// name (its alias when it has one) with its declared name; a name used by a
/// message, `activate`, `deactivate` or `destroy` gives that name as both.
pub open spec fn gives_actor(s: StatementView, p: (Seq<char>, Seq<char>)) -> bool {
    match s {
        StatementView::Participant { actor, alias } => p == (
            match alias {
                Some(a) => a,
                None => actor,
            },
            actor,
        ),
        _ => p.0 == p.1 && used_names(s).contains(p.0),
    }
}

/// Every actor of `pairs` is given by some statement of `stmts`.
pub open spec fn all_given(pairs: Seq<(Seq<char>, Seq<char>)>, stmts: Seq<StatementView>) -> bool {
    forall|i: int|
        0 <= i < pairs.len() ==> exists|k: int|
            0 <= k < stmts.len() && gives_actor(stmts[k], #[trigger] pairs[i])
}

proof fn lemma_declared_given(stmts: Seq<StatementView>)
    ensures
        all_given(declare_all(stmts).0, stmts),
    decreases stmts.len(),
{
    if stmts.len() > 0 {
        let dl = stmts.drop_last();
        lemma_declared_given(dl);
        let prev = declare_all(dl).0;
        let cur = declare_all(stmts).0;
        let n = stmts.len() - 1;
        assert(stmts[n] == stmts.last());
        assert forall|i: int| 0 <= i < cur.len() implies exists|k: int|
            0 <= k < stmts.len() && gives_actor(stmts[k], #[trigger] cur[i]) by {
            if i < prev.len() {
                assert(cur[i] == prev[i]);
                let k = choose|k: int| 0 <= k < dl.len() && gives_actor(dl[k], prev[i]);
                assert(stmts[k] == dl[k]);
            } else {
                assert(gives_actor(stmts[n], cur[i]));
            }
        }
    }
}

proof fn lemma_use_names_given(stmts: Seq<StatementView>, x: Seq<char>)
    requires
        use_names(stmts).contains(x),
    ensures
        exists|k: int| 0 <= k < stmts.len() && gives_actor(stmts[k], (x, x)),
    decreases stmts.len(),
{
    let dl = stmts.drop_last();
    let a = use_names(dl);
    let b = used_names(stmts.last());
    let j = choose|j: int| 0 <= j < use_names(stmts).len() && use_names(stmts)[j] == x;
    if j < a.len() {
        assert(a[j] == x);
        lemma_use_names_given(dl, x);
        let k = choose|k: int| 0 <= k < dl.len() && gives_actor(dl[k], (x, x));
        assert(stmts[k] == dl[k]);
    } else {
        assert(b[j - a.len()] == x);
        assert(b.contains(x));
        assert(!(stmts.last() is Participant));
        assert(gives_actor(stmts[stmts.len() - 1], (x, x)));
    }
}

proof fn lemma_new_names_from(names: Seq<Seq<char>>, taken: Seq<Seq<char>>, x: Seq<char>)
    requires
        new_names(names, taken).contains(x),
    ensures
        names.contains(x),
    decreases names.len(),
{
    let prev = new_names(names.drop_last(), taken);
    if prev.contains(x) {
        lemma_new_names_from(names.drop_last(), taken, x);
        let k = choose|k: int| 0 <= k < names.drop_last().len() && names.drop_last()[k] == x;
        assert(names[k] == x);
    } else {
        assert(names[names.len() - 1] == x);
    }
}

/// Every resolved actor comes from the document: it is the reference and
/// declared name of a participant, or a name that a message, `activate`,
/// `deactivate` or `destroy` uses, standing for itself.
pub proof fn law_actors_come_from_statements(stmts: Seq<StatementView>)
    ensures
        forall|i: int|
            0 <= i < resolved_actors(stmts).len() ==> exists|k: int|
                0 <= k < stmts.len() && gives_actor(stmts[k], #[trigger] resolved_actors(stmts)[i]),
{
    law_undeclared_actors_in_order_of_use(stmts);
    lemma_declared_given(stmts);
    let d = declare_all(stmts);
    let n = new_names(use_names(stmts), d.1);
    let r = resolved_actors(stmts);
    assert forall|i: int| 0 <= i < r.len() implies exists|k: int|
        0 <= k < stmts.len() && gives_actor(stmts[k], #[trigger] r[i]) by {
        if i < d.0.len() {
            assert(r[i] == d.0[i]);
        } else {
            let x = n[i - d.0.len()];
            assert(r[i] == (x, x));
            assert(n.contains(x));
            lemma_new_names_from(use_names(stmts), d.1, x);
            lemma_use_names_given(stmts, x);
        }
    }
}

} // verus!

//! The record of rendered diagrams that a note's metadata keeps: for each
//! diagram's checksum, the file rendered for each theme.

use vstd::prelude::*;

use crate::actors::strings_view;

verus! {

/// The map that a list of (key, value) pairs spells, a later pair for a key
/// overriding an earlier one.
pub open spec fn keyed<V>(s: Seq<(Seq<char>, V)>) -> Map<Seq<char>, V>
    decreases s.len(),
{
    if s.len() == 0 {
        Map::empty()
    } else {
        keyed(s.drop_last()).insert(s.last().0, s.last().1)
    }
}

/// No key occurs twice among the pairs.
pub open spec fn keys_distinct<V>(s: Seq<(Seq<char>, V)>) -> bool {
    forall|i: int, j: int| 0 <= i < j < s.len() ==> s[i].0 != s[j].0
}

/// The pairs whose key is not among `valid`, in their order.
pub open spec fn dropped<V>(s: Seq<(Seq<char>, V)>, valid: Seq<Seq<char>>) -> Seq<(Seq<char>, V)>
    decreases s.len(),
{
    if s.len() == 0 {
        Seq::empty()
    } else if valid.contains(s.last().0) {
        dropped(s.drop_last(), valid)
    } else {
        dropped(s.drop_last(), valid).push(s.last())
    }
}

/// The (theme, file) pairs of an entry, by their text.
pub open spec fn files_view(v: Seq<(String, String)>) -> Seq<(Seq<char>, Seq<char>)> {
    Seq::new(v.len(), |i: int| (v[i].0@, v[i].1@))
}

/// The entries, each as its checksum and its map from theme to file.
pub open spec fn entries_view(v: Seq<(String, Vec<(String, String)>)>) -> Seq<
    (Seq<char>, Map<Seq<char>, Seq<char>>),
> {
    Seq::new(v.len(), |i: int| (v[i].0@, keyed(files_view(v[i].1@))))
}

/// The map of an index after recording `file` for `checksum` and `theme`.
pub open spec fn with_file(
    m: Map<Seq<char>, Map<Seq<char>, Seq<char>>>,
    checksum: Seq<char>,
    theme: Seq<char>,
    file: Seq<char>,
) -> Map<Seq<char>, Map<Seq<char>, Seq<char>>> {
    let files = if m.contains_key(checksum) {
        m[checksum]
    } else {
        Map::empty()
    };
    m.insert(checksum, files.insert(theme, file))
}

proof fn lemma_keyed_domain<V>(s: Seq<(Seq<char>, V)>, k: Seq<char>)
    ensures
        keyed(s).contains_key(k) <==> exists|i: int| 0 <= i < s.len() && s[i].0 == k,
    decreases s.len(),
{
    if s.len() > 0 {
        lemma_keyed_domain(s.drop_last(), k);
        if keyed(s.drop_last()).contains_key(k) {
            let i = choose|i: int| 0 <= i < s.drop_last().len() && s.drop_last()[i].0 == k;
            assert(s[i].0 == k);
        }
        if exists|i: int| 0 <= i < s.len() && s[i].0 == k {
            let i = choose|i: int| 0 <= i < s.len() && s[i].0 == k;
            if i < s.len() - 1 {
                assert(s.drop_last()[i].0 == k);
            }
        }
    }
}

proof fn lemma_keyed_at<V>(s: Seq<(Seq<char>, V)>, i: int)
    requires
        keys_distinct(s),
        0 <= i < s.len(),
    ensures
        keyed(s).contains_key(s[i].0),
        keyed(s)[s[i].0] == s[i].1,
    decreases s.len(),
{
    if i < s.len() - 1 {
        lemma_keyed_at(s.drop_last(), i);
    }
}

proof fn lemma_keyed_update<V>(s: Seq<(Seq<char>, V)>, i: int, v: V)
    requires
        keys_distinct(s),
        0 <= i < s.len(),
    ensures
        keyed(s.update(i, (s[i].0, v))) =~= keyed(s).insert(s[i].0, v),
        keys_distinct(s.update(i, (s[i].0, v))),
    decreases s.len(),
{
    let p = (s[i].0, v);
    if i == s.len() - 1 {
        assert(s.update(i, p).drop_last() =~= s.drop_last());
    } else {
        lemma_keyed_update(s.drop_last(), i, v);
        assert(s.update(i, p).drop_last() =~= s.drop_last().update(i, p));
    }
}

proof fn lemma_keyed_push_new<V>(s: Seq<(Seq<char>, V)>, k: Seq<char>, v: V)
    requires
        keys_distinct(s),
        forall|j: int| 0 <= j < s.len() ==> s[j].0 != k,
    ensures
        keyed(s.push((k, v))) =~= keyed(s).insert(k, v),
        keys_distinct(s.push((k, v))),
        !keyed(s).contains_key(k),
{
    assert(s.push((k, v)).drop_last() =~= s);
    lemma_keyed_domain(s, k);
}

proof fn lemma_keyed_dropped<V>(s: Seq<(Seq<char>, V)>, valid: Seq<Seq<char>>)
    ensures
        keyed(dropped(s, valid)) =~= keyed(s).restrict(
            Set::new(|k: Seq<char>| !valid.contains(k)),
        ),
    decreases s.len(),
{
    if s.len() > 0 {
        lemma_keyed_dropped(s.drop_last(), valid);
        if !valid.contains(s.last().0) {
            let d = dropped(s.drop_last(), valid);
            assert(d.push(s.last()).drop_last() =~= d);
        }
    }
}

/// Finds the pair whose key is `key`.
fn find_key<V>(v: &Vec<(String, V)>, key: &String) -> (r: Option<usize>)
    ensures
        match r {
            Some(i) => i < v@.len() && v@[i as int].0@ == key@,
            None => forall|j: int| 0 <= j < v@.len() ==> v@[j].0@ != key@,
        },
{
    let mut i: usize = 0;
    while i < v.len()
        invariant
            i <= v@.len(),
            forall|j: int| 0 <= j < i ==> v@[j].0@ != key@,
        decreases v@.len() - i,
    {
        if v[i].0 == *key {
            return Some(i);
        }
        i = i + 1;
    }
    None
}

/// Sets the file of `theme` among an entry's files.
fn put_file(files: &mut Vec<(String, String)>, theme: &String, file: &String)
    requires
        keys_distinct(files_view(old(files)@)),
    ensures
        keys_distinct(files_view(final(files)@)),
        keyed(files_view(final(files)@)) == keyed(files_view(old(files)@)).insert(theme@, file@),
{
    let ghost before = files_view(files@);
    match find_key(files, theme) {
        Some(j) => {
            files.set(j, (theme.clone(), file.clone()));
            proof {
                lemma_keyed_update(before, j as int, file@);
                assert(files_view(files@) =~= before.update(j as int, (before[j as int].0, file@)));
            }
        },
        None => {
            files.push((theme.clone(), file.clone()));
            proof {
                assert forall|j: int| 0 <= j < before.len() implies before[j].0 != theme@ by {
                    assert(before[j].0 == files@[j].0@);
                }
                lemma_keyed_push_new(before, theme@, file@);
                assert(files_view(files@) =~= before.push((theme@, file@)));
            }
        },
    }
}

/// The diagrams rendered for a note: for each diagram's checksum, the file
/// rendered for each theme.
pub struct DiagramIndex {
    entries: Vec<(String, Vec<(String, String)>)>,
}

impl View for DiagramIndex {
    type V = Map<Seq<char>, Map<Seq<char>, Seq<char>>>;

    closed spec fn view(&self) -> Self::V {
        keyed(entries_view(self.entries@))
    }
}

impl DiagramIndex {
    /// No checksum has two entries, and no entry names a theme twice.
    pub closed spec fn wf(&self) -> bool {
        &&& keys_distinct(entries_view(self.entries@))
        &&& forall|i: int|
            0 <= i < self.entries@.len() ==> keys_distinct(
                files_view(#[trigger] self.entries@[i].1@),
            )
    }

    /// The entries in the order they were first recorded.
    pub closed spec fn entry_list(&self) -> Seq<(Seq<char>, Map<Seq<char>, Seq<char>>)> {
        entries_view(self.entries@)
    }

    /// An index that records nothing.
    pub fn new() -> (r: Self)
        ensures
            r.wf(),
            r@ == Map::<Seq<char>, Map<Seq<char>, Seq<char>>>::empty(),
    {
        let r = DiagramIndex { entries: Vec::new() };
        assert(entries_view(r.entries@) =~= Seq::empty());
        r
    }

    /// The entries, each a checksum with its (theme, file) pairs, in the
    /// order they were first recorded.
    pub fn entries(&self) -> (r: &Vec<(String, Vec<(String, String)>)>)
        ensures
            entries_view(r@) == self.entry_list(),
            keyed(entries_view(r@)) == self@,
    {
        &self.entries
    }

    /// Makes sure that `checksum` has an entry, with no files when it is new.
    pub fn ensure_entry(&mut self, checksum: &String)
        requires
            old(self).wf(),
        ensures
            final(self).wf(),
            final(self)@ == (if old(self)@.contains_key(checksum@) {
                old(self)@
            } else {
                old(self)@.insert(checksum@, Map::empty())
            }),
    {
        let ghost before = entries_view(self.entries@);
        proof {
            lemma_keyed_domain(before, checksum@);
        }
        match find_key(&self.entries, checksum) {
            Some(i) => {
                assert(before[i as int].0 == checksum@);
            },
            None => {
                let files: Vec<(String, String)> = Vec::new();
                self.entries.push((checksum.clone(), files));
                proof {
                    assert forall|j: int| 0 <= j < before.len() implies before[j].0 != checksum@ by {
                        assert(before[j].0 == old(self).entries@[j].0@);
                    }
                    assert(files_view(files@) =~= Seq::empty());
                    lemma_keyed_push_new(before, checksum@, Map::empty());
                    assert(entries_view(self.entries@) =~= before.push((checksum@, Map::empty())));
                    assert forall|i: int| 0 <= i < self.entries@.len() implies keys_distinct(
                        files_view(#[trigger] self.entries@[i].1@),
                    ) by {
                        if i < before.len() {
                            assert(self.entries@[i] == old(self).entries@[i]);
                        }
                    }
                }
            },
        }
    }

    /// Records that the diagram with `checksum` was rendered to `file` for
    /// `theme`, in place of any file recorded for them before.
    pub fn record(&mut self, checksum: &String, theme: &String, file: &String)
        requires
            old(self).wf(),
        ensures
            final(self).wf(),
            final(self)@ == with_file(old(self)@, checksum@, theme@, file@),
    {
        let ghost before = entries_view(self.entries@);
        let ghost old_entries = self.entries@;
        match find_key(&self.entries, checksum) {
            Some(i) => {
                let mut e: (String, Vec<(String, String)>) = (String::new(), Vec::new());
                self.entries.set_and_swap(i, &mut e);
                proof {
                    assert(e == old_entries[i as int]);
                    assert(keys_distinct(files_view(old_entries[i as int].1@)));
                }
                put_file(&mut e.1, theme, file);
                self.entries.set(i, e);
                proof {
                    lemma_keyed_at(before, i as int);
                    let newm = keyed(files_view(e.1@));
                    lemma_keyed_update(before, i as int, newm);
                    assert(entries_view(self.entries@) =~= before.update(
                        i as int,
                        (before[i as int].0, newm),
                    ));
                    assert forall|k: int| 0 <= k < self.entries@.len() implies keys_distinct(
                        files_view(#[trigger] self.entries@[k].1@),
                    ) by {
                        if k != i {
                            assert(self.entries@[k] == old_entries[k]);
                        }
                    }
                }
            },
            None => {
                let mut files: Vec<(String, String)> = Vec::new();
                files.push((theme.clone(), file.clone()));
                self.entries.push((checksum.clone(), files));
                proof {
                    assert forall|j: int| 0 <= j < before.len() implies before[j].0 != checksum@ by {
                        assert(before[j].0 == old_entries[j].0@);
                    }
                    let fv = files_view(files@);
                    assert(fv.drop_last() =~= Seq::<(Seq<char>, Seq<char>)>::empty());
                    assert(fv.last() == (theme@, file@));
                    assert(keyed(fv.drop_last()) =~= Map::<Seq<char>, Seq<char>>::empty());
                    assert(keyed(fv) =~= Map::<Seq<char>, Seq<char>>::empty().insert(
                        theme@,
                        file@,
                    ));
                    lemma_keyed_push_new(before, checksum@, keyed(fv));
                    assert(entries_view(self.entries@) =~= before.push((checksum@, keyed(fv))));
                    assert forall|k: int| 0 <= k < self.entries@.len() implies keys_distinct(
                        files_view(#[trigger] self.entries@[k].1@),
                    ) by {
                        if k < before.len() {
                            assert(self.entries@[k] == old_entries[k]);
                        }
                    }
                }
            },
        }
    }

    /// Removes the entries whose checksum is not among `valid`, and hands
    /// them back in their order.
    pub fn remove_stale(&mut self, valid: &Vec<String>) -> (removed: Vec<
        (String, Vec<(String, String)>),
    >)
        requires
            old(self).wf(),
        ensures
            final(self).wf(),
            final(self)@ == old(self)@.restrict(
                Set::new(|k: Seq<char>| strings_view(valid@).contains(k)),
            ),
            entries_view(removed@) == dropped(old(self).entry_list(), strings_view(valid@)),
            keyed(entries_view(removed@)) == old(self)@.restrict(
                Set::new(|k: Seq<char>| !strings_view(valid@).contains(k)),
            ),
    {
        let ghost vs = strings_view(valid@);
        let ghost keep = Set::new(|k: Seq<char>| vs.contains(k));
        let ghost orig = self.entries@;
        let ghost ov = entries_view(orig);
        let mut rest: Vec<(String, Vec<(String, String)>)> = Vec::new();
        std::mem::swap(&mut rest, &mut self.entries);
        let total = rest.len();
        assert(total == orig.len());
        let mut kept: Vec<(String, Vec<(String, String)>)> = Vec::new();
        let mut removed: Vec<(String, Vec<(String, String)>)> = Vec::new();
        let ghost mut picks: Seq<int> = Seq::empty();
        let mut i: usize = 0;
        assert(ov.take(0) =~= Seq::<(Seq<char>, Map<Seq<char>, Seq<char>>)>::empty());
        assert(entries_view(kept@) =~= Seq::<(Seq<char>, Map<Seq<char>, Seq<char>>)>::empty());
        assert(keyed(entries_view(kept@)) =~= keyed(ov.take(0)).restrict(keep));
        while rest.len() > 0
            invariant
                vs == strings_view(valid@),
                keep == Set::new(|k: Seq<char>| vs.contains(k)),
                ov == entries_view(orig),
                i + rest@.len() == orig.len(),
                orig.len() <= usize::MAX,
                rest@ == orig.subrange(i as int, orig.len() as int),
                keys_distinct(ov),
                forall|m: int| 0 <= m < orig.len() ==> keys_distinct(
                    files_view(#[trigger] orig[m].1@),
                ),
                picks.len() == kept@.len(),
                forall|j: int| 0 <= j < picks.len() ==> 0 <= #[trigger] picks[j] < i,
                forall|j: int| 0 <= j < picks.len() ==> kept@[j] == orig[#[trigger] picks[j]],
                forall|a: int, b: int| 0 <= a < b < picks.len() ==> picks[a] < picks[b],
                keyed(entries_view(kept@)) == keyed(ov.take(i as int)).restrict(keep),
                entries_view(removed@) == dropped(ov.take(i as int), vs),
            decreases rest@.len(),
        {
            let e = rest.remove(0);
            let ghost ev = ov[i as int];
            assert(e == orig[i as int]);
            assert(ov.take(i + 1).drop_last() =~= ov.take(i as int));
            assert(ov.take(i + 1).last() == ev);
            let valid_key = crate::actors::contains_string(valid, &e.0);
            assert(ev.0 == e.0@);
            assert(valid_key == keep.contains(ev.0));
            if valid_key {
                let ghost kv = entries_view(kept@);
                kept.push(e);
                proof {
                    picks = picks.push(i as int);
                    assert(entries_view(kept@) =~= kv.push(ev));
                    assert(kv.push(ev).drop_last() =~= kv);
                    assert(keyed(kv.push(ev)) == keyed(kv).insert(ev.0, ev.1));
                    assert(keyed(ov.take(i + 1)) == keyed(ov.take(i as int)).insert(ev.0, ev.1));
                    assert(keyed(entries_view(kept@)) =~= keyed(ov.take(i + 1)).restrict(keep));
                }
            } else {
                let ghost rv = entries_view(removed@);
                removed.push(e);
                proof {
                    assert(entries_view(removed@) =~= rv.push(ev));
                    assert(keyed(entries_view(kept@)) =~= keyed(ov.take(i + 1)).restrict(keep));
                }
            }
            i = i + 1;
            assert(rest@ =~= orig.subrange(i as int, orig.len() as int));
        }
        assert(ov.take(orig.len() as int) =~= ov);
        self.entries = kept;
        proof {
            lemma_keyed_dropped(ov, vs);
            assert forall|a: int, b: int|
                0 <= a < b < entries_view(self.entries@).len() implies entries_view(
                self.entries@,
            )[a].0 != entries_view(self.entries@)[b].0 by {
                assert(picks[a] < picks[b]);
                assert(ov[picks[a]].0 != ov[picks[b]].0);
            }
            assert forall|k: int| 0 <= k < self.entries@.len() implies keys_distinct(
                files_view(#[trigger] self.entries@[k].1@),
            ) by {
                assert(self.entries@[k] == orig[picks[k]]);
            }
        }
        removed
    }
}

/// A file just recorded for a checksum and a theme is what the index holds
/// for them; what it holds for every other checksum, and for the checksum's
/// other themes, is unchanged.
pub proof fn law_recorded_file_is_found(
    m: Map<Seq<char>, Map<Seq<char>, Seq<char>>>,
    checksum: Seq<char>,
    theme: Seq<char>,
    file: Seq<char>,
)
    ensures
        with_file(m, checksum, theme, file).contains_key(checksum),
        with_file(m, checksum, theme, file)[checksum].contains_key(theme),
        with_file(m, checksum, theme, file)[checksum][theme] == file,
        forall|k: Seq<char>|
            k != checksum ==> (with_file(m, checksum, theme, file).contains_key(k)
                == m.contains_key(k) && with_file(m, checksum, theme, file)[k] == m[k]),
        forall|t: Seq<char>|
            t != theme && m.contains_key(checksum) && m[checksum].contains_key(t) ==> (
            with_file(m, checksum, theme, file)[checksum].contains_key(t) && with_file(
                m,
                checksum,
                theme,
                file,
            )[checksum][t] == m[checksum][t]),
{
}

/// Removing stale entries keeps a file recorded for a checksum that is
/// among the valid ones, and removes (and hands back) one recorded for a
/// checksum that is not.
pub proof fn law_cleanup_keeps_exactly_valid(
    m: Map<Seq<char>, Map<Seq<char>, Seq<char>>>,
    checksum: Seq<char>,
    theme: Seq<char>,
    file: Seq<char>,
    valid: Seq<Seq<char>>,
)
    ensures
        valid.contains(checksum) ==> ({
            let kept = with_file(m, checksum, theme, file).restrict(
                Set::new(|k: Seq<char>| valid.contains(k)),
            );
            kept.contains_key(checksum) && kept[checksum][theme] == file
        }),
        !valid.contains(checksum) ==> ({
            let kept = with_file(m, checksum, theme, file).restrict(
                Set::new(|k: Seq<char>| valid.contains(k)),
            );
            let gone = with_file(m, checksum, theme, file).restrict(
                Set::new(|k: Seq<char>| !valid.contains(k)),
            );
            !kept.contains_key(checksum) && gone.contains_key(checksum)
                && gone[checksum][theme] == file
        }),
{
}

} // verus!

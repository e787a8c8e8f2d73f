//! The approximation-strategy framework and its tree-stack → push-down (TTS)
//! instance.
//!
//! The strategy maps every transition of a tree-stack automaton to a
//! transition of a push-down automaton, recording under the target
//! transition's key (its word and instruction — never its weight) which
//! source transitions map there. The target automaton accepts a strict
//! superset of the projected source language, so [`TTSElement::translate_run`]
//! is the only sound way to recover — or refute — real source derivations: it
//! returns every combination of recorded source transitions along a target
//! run, ranked best (least cost) first, and the empty collection when some
//! step of the run was never produced by the approximation.

use vstd::prelude::*;
use vstd::map::*;
use crate::recognisable::Transition;
use crate::tree_stack::{ts_wf, TreeStack};
use crate::tree_stack_automaton::{ts_step_rel, TreeStackInstruction};
use crate::push_down_automaton::{pd_matches_top, PushDown, PushDownInstruction};
use crate::util::{dup_word, words_eq};
use crate::weights::{cost_mul, cost_mul_spec};

verus! {

/// The mathematical shadow of a tree-stack transition.
pub ghost struct TsTransView {
    pub word: Seq<u64>,
    pub weight: u64,
    pub instr: TreeStackInstruction,
}

/// The structural identity of a push-down transition: its word and its
/// instruction, never its weight or provenance.
pub ghost struct TransKey {
    pub word: Seq<u64>,
    pub cur: Seq<u64>,
    pub nxt: Seq<u64>,
}

/// The view of a tree-stack transition.
pub open spec fn tsv(t: Transition<TreeStackInstruction>) -> TsTransView {
    TsTransView { word: t.word@, weight: t.weight, instr: t.instruction }
}

/// The views of a sequence of tree-stack transitions.
pub open spec fn runv(s: Seq<Transition<TreeStackInstruction>>) -> Seq<TsTransView> {
    s.map_values(|t: Transition<TreeStackInstruction>| tsv(t))
}

/// The structural key of a push-down transition.
pub open spec fn pd_key(t: Transition<PushDownInstruction>) -> TransKey {
    match t.instruction {
        PushDownInstruction::Replace { current_val, new_val } => TransKey {
            word: t.word@,
            cur: current_val@,
            nxt: new_val@,
        },
    }
}

/// The key under which the TTS mapping registers a source transition: `Up`
/// and `Push` become "push the new label on top of the current one", `Down`
/// becomes "pop the old label and rewrite the current one".
pub open spec fn tts_key_of(t: Transition<TreeStackInstruction>) -> TransKey {
    match t.instruction {
        TreeStackInstruction::Up { current_val, new_val } => TransKey {
            word: t.word@,
            cur: seq![current_val],
            nxt: seq![current_val, new_val],
        },
        TreeStackInstruction::Push { current_val, new_val } => TransKey {
            word: t.word@,
            cur: seq![current_val],
            nxt: seq![current_val, new_val],
        },
        TreeStackInstruction::Down { current_val, old_val, new_val } => TransKey {
            word: t.word@,
            cur: seq![current_val, old_val],
            nxt: seq![new_val],
        },
    }
}

/// `r` is the TTS image of `t`: same word, same weight, and the instruction
/// rewritten as `tts_key_of` describes.
pub open spec fn tts_image_ok(
    t: Transition<TreeStackInstruction>,
    r: Transition<PushDownInstruction>,
) -> bool {
    &&& r.word@ == t.word@
    &&& r.weight == t.weight
    &&& pd_key(r) == tts_key_of(t)
}

/// The labels along the path from the root to node `i`, bottom first: the
/// push-down shadow of a tree stack position.
pub open spec fn path_labels(t: TreeStack<u64>, i: int) -> Seq<u64>
    decreases i,
{
    if i <= 0 {
        Seq::empty().push(t.nodes@[0].label)
    } else if (t.nodes@[i].parent as int) < i {
        path_labels(t, t.nodes@[i].parent as int).push(t.nodes@[i].label)
    } else {
        Seq::empty()
    }
}

/// The push-down shadow of a tree stack: the labels from the root to the
/// current node, the current node's label on top.
pub open spec fn stack_of(t: TreeStack<u64>) -> Seq<u64> {
    path_labels(t, t.pointer as int)
}

/// A path is never empty and ends in its node's label.
pub proof fn lemma_path_last(t: TreeStack<u64>, i: int)
    requires
        ts_wf(t),
        0 <= i < t.nodes@.len(),
    ensures
        path_labels(t, i).len() >= 1,
        path_labels(t, i).last() == t.nodes@[i].label,
    decreases i,
{
    if i > 0 {
        lemma_path_last(t, t.nodes@[i].parent as int);
    }
}

/// Paths read only nodes at or below their index: trees that agree there
/// have the same path.
pub proof fn lemma_path_agree(t1: TreeStack<u64>, t2: TreeStack<u64>, i: int)
    requires
        forall|j: int| 0 <= j <= i ==> t1.nodes@[j] == t2.nodes@[j],
        0 <= i,
    ensures
        path_labels(t1, i) == path_labels(t2, i),
    decreases i,
{
    if i > 0 && (t1.nodes@[i].parent as int) < i {
        lemma_path_agree(t1, t2, t1.nodes@[i].parent as int);
    }
}

/// One replace on the push-down shadow: pop the labels of `cur` (top first),
/// push the labels of `nxt` in order.
pub open spec fn replace_rel(cur: Seq<u64>, nxt: Seq<u64>, e1: Seq<u64>, e2: Seq<u64>) -> bool {
    &&& pd_matches_top(e1, cur)
    &&& e2 == e1.take(e1.len() - cur.len()) + nxt
}

/// Every tree-stack step is simulated by its TTS image: the instruction's
/// image key replaces the top of the source's push-down shadow so that the
/// successor's shadow comes out. Together with `approximate_initial` — whose
/// result is the shadow of the initial tree stack — the stepwise image of a
/// source run is a real run of the approximated push-down automaton; and a
/// source run that ends back at its root ends, in the image, with the
/// one-label stack of the root.
pub proof fn lemma_tts_step_simulation(
    t: Transition<TreeStackInstruction>,
    a: TreeStack<u64>,
    b: TreeStack<u64>,
)
    requires
        ts_wf(a),
        ts_step_rel(t.instruction, a, b),
    ensures
        replace_rel(tts_key_of(t).cur, tts_key_of(t).nxt, stack_of(a), stack_of(b)),
{
    let sa = stack_of(a);
    lemma_path_last(a, a.pointer as int);
    match t.instruction {
        TreeStackInstruction::Up { current_val, new_val } => {
            assert(sa.last() == current_val);
            assert(pd_matches_top(sa, seq![current_val]));
            assert(b.nodes@[b.pointer as int].parent == a.pointer);
            lemma_path_agree(b, a, a.pointer as int);
            assert(stack_of(b) == path_labels(a, a.pointer as int).push(new_val));
            assert(sa.take(sa.len() - 1) =~= sa.drop_last());
            assert(sa.drop_last().push(current_val) =~= sa);
            assert(stack_of(b) =~= sa.take(sa.len() - 1) + seq![current_val, new_val]);
        },
        TreeStackInstruction::Push { current_val, new_val } => {
            assert(sa.last() == current_val);
            assert(pd_matches_top(sa, seq![current_val]));
            assert(b.nodes@[b.pointer as int].parent == a.pointer);
            assert(b.nodes@[b.pointer as int].label == new_val);
            assert(forall|j: int| 0 <= j <= a.pointer as int ==> b.nodes@[j] == a.nodes@[j]);
            lemma_path_agree(b, a, a.pointer as int);
            assert(stack_of(b) == path_labels(a, a.pointer as int).push(new_val));
            assert(sa.take(sa.len() - 1) =~= sa.drop_last());
            assert(sa.drop_last().push(current_val) =~= sa);
            assert(stack_of(b) =~= sa.take(sa.len() - 1) + seq![current_val, new_val]);
        },
        TreeStackInstruction::Down { current_val, old_val, new_val } => {
            let p = a.nodes@[a.pointer as int].parent as int;
            lemma_path_last(a, p);
            assert(path_labels(a, a.pointer as int) == path_labels(a, p).push(current_val));
            assert(path_labels(a, p).last() == old_val);
            assert(sa.len() >= 2);
            assert(sa[sa.len() - 1] == current_val);
            assert(sa[sa.len() - 2] == old_val) by {
                assert(sa.drop_last() == path_labels(a, p));
                assert(path_labels(a, p)[path_labels(a, p).len() - 1] == old_val);
            }
            assert(pd_matches_top(sa, seq![current_val, old_val])) by {
                assert forall|i: int| 0 <= i < 2 implies sa[sa.len() - 1 - i] == (seq![
                    current_val,
                    old_val,
                ])[i] by {}
            }
            if p == 0 {
                assert(stack_of(b) == Seq::empty().push(new_val));
                assert(path_labels(a, 0) =~= Seq::empty().push(old_val));
                assert(sa.take(sa.len() - 2) =~= Seq::<u64>::empty());
                assert(stack_of(b) =~= sa.take(sa.len() - 2) + seq![new_val]);
            } else {
                let gp = a.nodes@[p].parent as int;
                assert(gp < p);
                assert(b.nodes@[p].parent as int == gp);
                assert(stack_of(b) == path_labels(b, gp).push(new_val));
                assert(forall|j: int| 0 <= j <= gp ==> b.nodes@[j] == a.nodes@[j]);
                lemma_path_agree(b, a, gp);
                assert(path_labels(a, p) == path_labels(a, gp).push(old_val));
                assert(sa.take(sa.len() - 2) =~= path_labels(a, gp));
                assert(stack_of(b) =~= sa.take(sa.len() - 2) + seq![new_val]);
            }
        },
    }
}

/// One key of the transition map together with the source transitions
/// recorded under it, in registration order.
pub struct TtsEntry {
    pub key_word: Vec<u64>,
    pub key_cur: Vec<u64>,
    pub key_nxt: Vec<u64>,
    pub sources: Vec<Transition<TreeStackInstruction>>,
}

/// The key of an entry.
pub open spec fn entry_key(e: TtsEntry) -> TransKey {
    TransKey { word: e.key_word@, cur: e.key_cur@, nxt: e.key_nxt@ }
}

/// The recorded source transitions of an entry, as views.
pub open spec fn entry_sources(e: TtsEntry) -> Seq<TsTransView> {
    runv(e.sources@)
}

/// The map an entry list denotes.
pub open spec fn tts_map(s: Seq<TtsEntry>) -> Map<TransKey, Seq<TsTransView>>
    decreases s.len(),
{
    if s.len() == 0 {
        Map::empty()
    } else {
        tts_map(s.drop_last()).insert(entry_key(s.last()), entry_sources(s.last()))
    }
}

/// Entry lists with pairwise distinct keys and non-empty source lists.
pub open spec fn entries_wf(s: Seq<TtsEntry>) -> bool {
    &&& forall|i: int, j: int|
        0 <= i < s.len() && 0 <= j < s.len() && i != j ==> entry_key(#[trigger] s[i]) != entry_key(
            #[trigger] s[j],
        )
    &&& forall|i: int| 0 <= i < s.len() ==> entry_sources(#[trigger] s[i]).len() > 0
}

/// In a well-formed entry list, each entry is what the map holds at its key.
pub proof fn lemma_tts_map_index(s: Seq<TtsEntry>, i: int)
    requires
        entries_wf(s),
        0 <= i < s.len(),
    ensures
        tts_map(s).contains_key(entry_key(s[i])),
        tts_map(s)[entry_key(s[i])] == entry_sources(s[i]),
    decreases s.len(),
{
    if i == s.len() - 1 {
        assert(s.last() == s[i]);
    } else {
        assert(entries_wf(s.drop_last())) by {
            assert(forall|m: int| 0 <= m < s.len() - 1 ==> s.drop_last()[m] == s[m]);
        }
        lemma_tts_map_index(s.drop_last(), i);
        assert(s.drop_last()[i] == s[i]);
        assert(entry_key(s.last()) != entry_key(s[i]));
    }
}

/// A key under no entry is not in the map.
pub proof fn lemma_tts_map_absent(s: Seq<TtsEntry>, k: TransKey)
    requires
        forall|i: int| 0 <= i < s.len() ==> entry_key(#[trigger] s[i]) != k,
    ensures
        !tts_map(s).contains_key(k),
    decreases s.len(),
{
    if s.len() > 0 {
        assert(forall|i: int| 0 <= i < s.len() - 1 ==> s.drop_last()[i] == s[i]);
        lemma_tts_map_absent(s.drop_last(), k);
    }
}

/// Replacing the entry at `i` by one with the same key updates the map at
/// that key and nowhere else.
pub proof fn lemma_tts_map_update(s: Seq<TtsEntry>, i: int, e: TtsEntry)
    requires
        entries_wf(s),
        0 <= i < s.len(),
        entry_key(e) == entry_key(s[i]),
    ensures
        tts_map(s.update(i, e)) == tts_map(s).insert(entry_key(e), entry_sources(e)),
    decreases s.len(),
{
    let s2 = s.update(i, e);
    if i == s.len() - 1 {
        assert(s2.drop_last() =~= s.drop_last());
        assert(s2.last() == e);
        assert(tts_map(s2) == tts_map(s.drop_last()).insert(entry_key(e), entry_sources(e)));
        assert_maps_equal!(
            tts_map(s.drop_last()).insert(entry_key(e), entry_sources(e)),
            tts_map(s).insert(entry_key(e), entry_sources(e))
        );
    } else {
        assert(entries_wf(s.drop_last())) by {
            assert(forall|m: int| 0 <= m < s.len() - 1 ==> s.drop_last()[m] == s[m]);
        }
        assert(s.drop_last()[i] == s[i]);
        lemma_tts_map_update(s.drop_last(), i, e);
        assert(s2.drop_last() =~= s.drop_last().update(i, e));
        assert(s2.last() == s.last());
        assert(entry_key(s.last()) != entry_key(e));
        assert_maps_equal!(
            tts_map(s.drop_last()).insert(entry_key(e), entry_sources(e))
                .insert(entry_key(s.last()), entry_sources(s.last())),
            tts_map(s.drop_last()).insert(entry_key(s.last()), entry_sources(s.last()))
                .insert(entry_key(e), entry_sources(e))
        );
    }
}

/// Replacing an entry by one with the same key and non-empty sources keeps
/// the entry list well formed.
pub proof fn lemma_entries_wf_update(s: Seq<TtsEntry>, i: int, e: TtsEntry)
    requires
        entries_wf(s),
        0 <= i < s.len(),
        entry_key(e) == entry_key(s[i]),
        entry_sources(e).len() > 0,
    ensures
        entries_wf(s.update(i, e)),
{
    let s2 = s.update(i, e);
    assert forall|m: int, j: int|
        0 <= m < s2.len() && 0 <= j < s2.len() && m != j implies entry_key(#[trigger] s2[m])
        != entry_key(#[trigger] s2[j]) by {
        if m == i {
            assert(s2[m] == e);
            assert(s2[j] == s[j]);
            assert(entry_key(s[j]) != entry_key(s[i]));
        } else if j == i {
            assert(s2[j] == e);
            assert(s2[m] == s[m]);
            assert(entry_key(s[m]) != entry_key(s[i]));
        } else {
            assert(s2[m] == s[m]);
            assert(s2[j] == s[j]);
        }
    }
    assert forall|m: int| 0 <= m < s2.len() implies entry_sources(#[trigger] s2[m]).len() > 0 by {
        if m != i {
            assert(s2[m] == s[m]);
        }
    }
}

/// Appending an entry with a fresh key and non-empty sources keeps the entry
/// list well formed.
pub proof fn lemma_entries_wf_push(s: Seq<TtsEntry>, e: TtsEntry)
    requires
        entries_wf(s),
        forall|i: int| 0 <= i < s.len() ==> entry_key(#[trigger] s[i]) != entry_key(e),
        entry_sources(e).len() > 0,
    ensures
        entries_wf(s.push(e)),
{
    let s2 = s.push(e);
    assert forall|m: int, j: int|
        0 <= m < s2.len() && 0 <= j < s2.len() && m != j implies entry_key(#[trigger] s2[m])
        != entry_key(#[trigger] s2[j]) by {
        if m < s.len() && j < s.len() {
            assert(s2[m] == s[m]);
            assert(s2[j] == s[j]);
        } else if m < s.len() {
            assert(s2[m] == s[m]);
            assert(s2[j] == e);
        } else {
            assert(s2[m] == e);
            assert(s2[j] == s[j]);
        }
    }
    assert forall|m: int| 0 <= m < s2.len() implies entry_sources(#[trigger] s2[m]).len() > 0 by {
        if m < s.len() {
            assert(s2[m] == s[m]);
        } else {
            assert(s2[m] == e);
        }
    }
}

/// The approximation strategy that approximates a tree-stack automaton by a
/// push-down automaton: it owns the key → source-transition map, appended to
/// while approximating, read-only while translating.
pub struct TTSElement {
    pub entries: Vec<TtsEntry>,
}

impl TTSElement {
    /// The transition map, as a mathematical value.
    pub open spec fn map(&self) -> Map<TransKey, Seq<TsTransView>> {
        tts_map(self.entries@)
    }

    /// The map's representation is well formed.
    pub open spec fn wf(&self) -> bool {
        entries_wf(self.entries@)
    }

    /// A fresh strategy with an empty transition map.
    pub fn new() -> (r: TTSElement)
        ensures
            r.wf(),
            r.map() == Map::<TransKey, Seq<TsTransView>>::empty(),
    {
        TTSElement { entries: Vec::new() }
    }

    /// The index of the entry whose key is `(kw, kc, kn)`.
    fn find_entry(&self, kw: &Vec<u64>, kc: &Vec<u64>, kn: &Vec<u64>) -> (r: Option<usize>)
        requires
            self.wf(),
        ensures
            match r {
                Some(i) => i < self.entries@.len() && entry_key(self.entries@[i as int])
                    == (TransKey { word: kw@, cur: kc@, nxt: kn@ }),
                None => !self.map().contains_key(TransKey { word: kw@, cur: kc@, nxt: kn@ }),
            },
    {
        let ghost k = TransKey { word: kw@, cur: kc@, nxt: kn@ };
        let mut i: usize = 0;
        while i < self.entries.len()
            invariant
                i <= self.entries@.len(),
                k == (TransKey { word: kw@, cur: kc@, nxt: kn@ }),
                forall|j: int| 0 <= j < i ==> entry_key(#[trigger] self.entries@[j]) != k,
            decreases self.entries@.len() - i,
        {
            let e = &self.entries[i];
            if words_eq(&e.key_word, kw) && words_eq(&e.key_cur, kc) && words_eq(&e.key_nxt, kn) {
                return Some(i);
            }
            i += 1;
        }
        proof {
            lemma_tts_map_absent(self.entries@, k);
        }
        None
    }

    /// Appends `t` to the source transitions recorded under the key
    /// `(kw, kc, kn)`, creating the entry if the key is new.
    fn register(&mut self, kw: Vec<u64>, kc: Vec<u64>, kn: Vec<u64>, t: Transition<
        TreeStackInstruction,
    >)
        requires
            old(self).wf(),
        ensures
            final(self).wf(),
            final(self).map() == old(self).map().insert(
                TransKey { word: kw@, cur: kc@, nxt: kn@ },
                old_sources_of(old(self).map(), TransKey { word: kw@, cur: kc@, nxt: kn@ }).push(
                    tsv(t),
                ),
            ),
    {
        let ghost k = TransKey { word: kw@, cur: kc@, nxt: kn@ };
        let ghost oldmap = self.map();
        match self.find_entry(&kw, &kc, &kn) {
            Some(i) => {
                proof {
                    lemma_tts_map_index(self.entries@, i as int);
                }
                let ghost olds = self.entries@;
                proof {
                    assert(entries_wf(olds));
                    assert(entry_key(olds[i as int]) == k);
                }
                let mut e = self.entries.remove(i);
                let ghost olde = e;
                e.sources.push(t);
                let ghost e2 = e;
                proof {
                    assert(entry_key(e2) == k);
                    assert(entry_sources(e2) =~= entry_sources(olde).push(tsv(t)));
                }
                self.entries.insert(i, e);
                proof {
                    assert(self.entries@ =~= olds.update(i as int, e2));
                    lemma_tts_map_update(olds, i as int, e2);
                    lemma_entries_wf_update(olds, i as int, e2);
                    assert(old_sources_of(oldmap, k) == entry_sources(olde));
                }
            },
            None => {
                proof {
                    assert(old_sources_of(oldmap, k) =~= Seq::<TsTransView>::empty());
                }
                let mut sources: Vec<Transition<TreeStackInstruction>> = Vec::new();
                sources.push(t);
                let e = TtsEntry { key_word: kw, key_cur: kc, key_nxt: kn, sources };
                let ghost e2 = e;
                let ghost olds = self.entries@;
                self.entries.push(e);
                proof {
                    assert(self.entries@ =~= olds.push(e2));
                    assert(self.entries@.drop_last() =~= olds);
                    assert(self.entries@.last() == e2);
                    assert(entry_key(e2) == k);
                    assert(entry_sources(e2) =~= Seq::<TsTransView>::empty().push(tsv(t)));
                    assert forall|m: int| 0 <= m < olds.len() implies entry_key(#[trigger] olds[m])
                        != entry_key(e2) by {
                        lemma_tts_map_index(olds, m);
                    }
                    lemma_entries_wf_push(olds, e2);
                }
            },
        }
    }

    /// Maps the source automaton's initial tree stack to the target
    /// automaton's initial push-down: a one-element stack carrying the
    /// current (root) label — exactly the push-down shadow of a tree stack
    /// that sits at its root.
    pub fn approximate_initial(&self, a: &TreeStack<u64>) -> (r: PushDown)
        requires
            ts_wf(*a),
        ensures
            r.elements@ == Seq::<u64>::empty().push(a.nodes@[a.pointer as int].label),
            r.empty == a.nodes@[a.pointer as int].label,
            a.pointer == 0 ==> r.elements@ == stack_of(*a),
    {
        let nempty = *a.current_label();
        let mut elements: Vec<u64> = Vec::new();
        elements.push(nempty);
        proof {
            assert(elements@ =~= Seq::<u64>::empty().push(nempty));
        }
        PushDown { elements, empty: nempty }
    }

    /// Maps one source transition to its push-down image and records the
    /// source under the image's key, appending to any earlier recordings.
    pub fn approximate_transition(&mut self, t: &Transition<TreeStackInstruction>) -> (r:
        Transition<PushDownInstruction>)
        requires
            old(self).wf(),
        ensures
            final(self).wf(),
            tts_image_ok(*t, r),
            final(self).map() == old(self).map().insert(
                tts_key_of(*t),
                old_sources_of(old(self).map(), tts_key_of(*t)).push(tsv(*t)),
            ),
    {
        let (cur, nxt) = match &t.instruction {
            TreeStackInstruction::Up { current_val, new_val } => {
                let mut c: Vec<u64> = Vec::new();
                c.push(*current_val);
                let mut n: Vec<u64> = Vec::new();
                n.push(*current_val);
                n.push(*new_val);
                (c, n)
            },
            TreeStackInstruction::Push { current_val, new_val } => {
                let mut c: Vec<u64> = Vec::new();
                c.push(*current_val);
                let mut n: Vec<u64> = Vec::new();
                n.push(*current_val);
                n.push(*new_val);
                (c, n)
            },
            TreeStackInstruction::Down { current_val, old_val, new_val } => {
                let mut c: Vec<u64> = Vec::new();
                c.push(*current_val);
                c.push(*old_val);
                let mut n: Vec<u64> = Vec::new();
                n.push(*new_val);
                (c, n)
            },
        };
        proof {
            assert(cur@ =~= tts_key_of(*t).cur);
            assert(nxt@ =~= tts_key_of(*t).nxt);
        }
        let image = Transition {
            word: dup_word(&t.word),
            weight: t.weight,
            instruction: PushDownInstruction::Replace {
                current_val: dup_word(&cur),
                new_val: dup_word(&nxt),
            },
        };
        let src = Transition {
            word: dup_word(&t.word),
            weight: t.weight,
            instruction: t.instruction,
        };
        self.register(dup_word(&t.word), cur, nxt, src);
        image
    }

    /// Manual registration: records `t1` under the key of `t2`, for
    /// correspondences seeded outside the automatic mapping.
    pub fn add_transitions(
        &mut self,
        t1: &Transition<TreeStackInstruction>,
        t2: &Transition<PushDownInstruction>,
    )
        requires
            old(self).wf(),
        ensures
            final(self).wf(),
            final(self).map() == old(self).map().insert(
                pd_key(*t2),
                old_sources_of(old(self).map(), pd_key(*t2)).push(tsv(*t1)),
            ),
    {
        let (cur, nxt) = match &t2.instruction {
            PushDownInstruction::Replace { current_val, new_val } => (
                dup_word(current_val),
                dup_word(new_val),
            ),
        };
        let src = Transition {
            word: dup_word(&t1.word),
            weight: t1.weight,
            instruction: t1.instruction,
        };
        self.register(dup_word(&t2.word), cur, nxt, src);
    }
}

impl Default for TTSElement {
    /// A fresh strategy with an empty transition map.
    fn default() -> (r: TTSElement)
        ensures
            r.wf(),
            r.map() == Map::<TransKey, Seq<TsTransView>>::empty(),
    {
        TTSElement::new()
    }
}

/// What the map holds at `k`, or the empty sequence when `k` is absent.
pub open spec fn old_sources_of(m: Map<TransKey, Seq<TsTransView>>, k: TransKey) -> Seq<
    TsTransView,
> {
    if m.contains_key(k) {
        m[k]
    } else {
        Seq::empty()
    }
}

/// The number of combinations of recorded source transitions along the
/// first `n` keys: the product of the per-key list lengths.
pub open spec fn lists_product(m: Map<TransKey, Seq<TsTransView>>, keys: Seq<TransKey>, n: int) -> int
    decreases n,
{
    if n <= 0 {
        1
    } else {
        lists_product(m, keys, n - 1) * old_sources_of(m, keys[n - 1]).len()
    }
}

/// A product of positive list lengths is positive.
pub proof fn lemma_lists_product_pos(m: Map<TransKey, Seq<TsTransView>>, keys: Seq<TransKey>, n: int)
    requires
        forall|i: int| 0 <= i < n ==> old_sources_of(m, #[trigger] keys[i]).len() > 0,
    ensures
        lists_product(m, keys, n) >= 1,
    decreases n,
{
    if n > 0 {
        lemma_lists_product_pos(m, keys, n - 1);
        assert(lists_product(m, keys, n - 1) * old_sources_of(m, keys[n - 1]).len() >= 1) by (nonlinear_arith)
            requires
                lists_product(m, keys, n - 1) >= 1,
                old_sources_of(m, keys[n - 1]).len() >= 1,
        ;
    }
}

/// The keys of a push-down run, step by step.
pub open spec fn run_keys(run: Seq<Transition<PushDownInstruction>>) -> Seq<TransKey> {
    run.map_values(|t: Transition<PushDownInstruction>| pd_key(t))
}

/// `c` is one combination of recorded source transitions along `keys`: each
/// step's source transition was registered under that step's key.
pub open spec fn is_combo(
    m: Map<TransKey, Seq<TsTransView>>,
    keys: Seq<TransKey>,
    c: Seq<TsTransView>,
) -> bool {
    &&& c.len() == keys.len()
    &&& forall|i: int|
        0 <= i < keys.len() ==> m.contains_key(#[trigger] keys[i]) && m[keys[i]].contains(c[i])
}

/// The first `n` candidate lists hold, as views, exactly what the map records
/// under the first `n` keys.
pub open spec fn lists_ok(
    m: Map<TransKey, Seq<TsTransView>>,
    keys: Seq<TransKey>,
    lists: Seq<Vec<Transition<TreeStackInstruction>>>,
    n: int,
) -> bool
    decreases n,
{
    n <= 0 || (lists_ok(m, keys, lists, n - 1) && m.contains_key(keys[n - 1]) && runv(
        lists[n - 1]@,
    ) == m[keys[n - 1]] && lists[n - 1]@.len() > 0)
}

/// `lists_ok` looks only at the first `n` lists.
pub proof fn lemma_lists_ok_prefix(
    m: Map<TransKey, Seq<TsTransView>>,
    keys: Seq<TransKey>,
    l1: Seq<Vec<Transition<TreeStackInstruction>>>,
    l2: Seq<Vec<Transition<TreeStackInstruction>>>,
    n: int,
)
    requires
        lists_ok(m, keys, l1, n),
        forall|i: int| 0 <= i < n ==> l1[i] == l2[i],
    ensures
        lists_ok(m, keys, l2, n),
    decreases n,
{
    if n > 0 {
        lemma_lists_ok_prefix(m, keys, l1, l2, n - 1);
        assert(l1[n - 1] == l2[n - 1]);
    }
}

/// What `lists_ok` says of the list at one index.
pub proof fn lemma_lists_ok_at(
    m: Map<TransKey, Seq<TsTransView>>,
    keys: Seq<TransKey>,
    lists: Seq<Vec<Transition<TreeStackInstruction>>>,
    n: int,
    i: int,
)
    requires
        lists_ok(m, keys, lists, n),
        0 <= i < n,
    ensures
        m.contains_key(keys[i]),
        runv(lists[i]@) == m[keys[i]],
        lists[i]@.len() > 0,
    decreases n,
{
    if i < n - 1 {
        lemma_lists_ok_at(m, keys, lists, n - 1, i);
    }
}

/// Appending a list that matches the next key extends `lists_ok`.
pub proof fn lemma_lists_ok_push(
    m: Map<TransKey, Seq<TsTransView>>,
    keys: Seq<TransKey>,
    lists: Seq<Vec<Transition<TreeStackInstruction>>>,
    n: int,
    x: Vec<Transition<TreeStackInstruction>>,
)
    requires
        lists_ok(m, keys, lists, n),
        n == lists.len(),
        m.contains_key(keys[n]),
        runv(x@) == m[keys[n]],
        x@.len() > 0,
    ensures
        lists_ok(m, keys, lists.push(x), n + 1),
{
    lemma_lists_ok_prefix(m, keys, lists, lists.push(x), n);
    assert(lists.push(x)[n] == x);
}

/// Views distribute over appending a transition to a run.
pub proof fn lemma_runv_push(s: Seq<Transition<TreeStackInstruction>>, t: Transition<
    TreeStackInstruction,
>)
    ensures
        runv(s.push(t)) == runv(s).push(tsv(t)),
{
    assert forall|q: int| 0 <= q < s.len() + 1 implies runv(s.push(t))[q] == runv(s).push(
        tsv(t),
    )[q] by {
        if q < s.len() {
            assert(s.push(t)[q] == s[q]);
        } else {
            assert(s.push(t)[q] == t);
        }
    }
    assert(runv(s.push(t)) =~= runv(s).push(tsv(t)));
}

/// Some candidate in `s` extends `base` by the one transition `t`.
pub open spec fn combo_extended(
    s: Seq<Vec<Transition<TreeStackInstruction>>>,
    base: Vec<Transition<TreeStackInstruction>>,
    t: Transition<TreeStackInstruction>,
) -> bool {
    exists|q: int| 0 <= q < s.len() && runv((#[trigger] s[q])@) == runv(base@).push(tsv(t))
}

/// Some candidate in `s` has exactly the source transitions `c`.
pub open spec fn has_candidate(
    s: Seq<Vec<Transition<TreeStackInstruction>>>,
    c: Seq<TsTransView>,
) -> bool {
    exists|j: int| 0 <= j < s.len() && runv((#[trigger] s[j])@) == c
}

/// The combined cost of a candidate source derivation.
pub open spec fn run_cost(c: Seq<TsTransView>) -> u64
    decreases c.len(),
{
    if c.len() == 0 {
        0
    } else {
        cost_mul_spec(run_cost(c.drop_last()), c.last().weight)
    }
}

/// Soundness of the approximation: a source transition registered under a key
/// is recovered as a one-step combination along that key. In particular,
/// right after `approximate_transition(t)`, the one-step run of its image has
/// the combination `[t]`, which `translate_run`'s exact-recall contract then
/// puts among the returned candidates.
pub proof fn lemma_approximation_sound(
    m: Map<TransKey, Seq<TsTransView>>,
    m2: Map<TransKey, Seq<TsTransView>>,
    k: TransKey,
    tv: TsTransView,
)
    requires
        m2 == m.insert(k, old_sources_of(m, k).push(tv)),
    ensures
        is_combo(m2, Seq::empty().push(k), Seq::empty().push(tv)),
{
    let keys = Seq::empty().push(k);
    let c = Seq::empty().push(tv);
    assert(m2.contains_key(k));
    assert(m2[k].last() == tv);
    assert(m2[k].contains(tv));
    assert(keys[0] == k);
    assert(c[0] == tv);
}

/// The combined cost of a run of source transitions.
pub fn run_cost_exec(v: &Vec<Transition<TreeStackInstruction>>) -> (r: u64)
    ensures
        r == run_cost(runv(v@)),
{
    let mut r: u64 = 0;
    let mut i: usize = 0;
    while i < v.len()
        invariant
            i <= v@.len(),
            r == run_cost(runv(v@).take(i as int)),
        decreases v@.len() - i,
    {
        proof {
            let full = runv(v@);
            assert(full.take(i + 1).drop_last() =~= full.take(i as int));
            assert(full.take(i + 1).last() == full[i as int]);
        }
        r = cost_mul(r, v[i].weight);
        i += 1;
    }
    proof {
        assert(runv(v@).take(v@.len() as int) =~= runv(v@));
    }
    r
}

/// A copy of a run of source transitions, extended by one more.
fn extend_run(
    base: &Vec<Transition<TreeStackInstruction>>,
    t: &Transition<TreeStackInstruction>,
) -> (r: Vec<Transition<TreeStackInstruction>>)
    ensures
        runv(r@) == runv(base@).push(tsv(*t)),
{
    let mut r: Vec<Transition<TreeStackInstruction>> = Vec::new();
    let mut i: usize = 0;
    while i < base.len()
        invariant
            i <= base@.len(),
            runv(r@) =~= runv(base@).take(i as int),
        decreases base@.len() - i,
    {
        let x = Transition {
            word: dup_word(&base[i].word),
            weight: base[i].weight,
            instruction: base[i].instruction,
        };
        let ghost prev = r@;
        proof {
            assert(tsv(x) == tsv(base@[i as int]));
        }
        r.push(x);
        proof {
            lemma_runv_push(prev, x);
            assert(runv(base@).take(i + 1) =~= runv(base@).take(i as int).push(
                tsv(base@[i as int]),
            ));
        }
        i += 1;
    }
    let x = Transition { word: dup_word(&t.word), weight: t.weight, instruction: t.instruction };
    let ghost prev = r@;
    proof {
        assert(tsv(x) == tsv(*t));
        assert(runv(base@).take(base@.len() as int) =~= runv(base@));
    }
    r.push(x);
    proof {
        lemma_runv_push(prev, x);
    }
    r
}

/// A copy of a list of source transitions.
fn dup_sources(v: &Vec<Transition<TreeStackInstruction>>) -> (r: Vec<
    Transition<TreeStackInstruction>,
>)
    ensures
        runv(r@) == runv(v@),
{
    let mut r: Vec<Transition<TreeStackInstruction>> = Vec::new();
    let mut i: usize = 0;
    while i < v.len()
        invariant
            i <= v@.len(),
            runv(r@) =~= runv(v@).take(i as int),
        decreases v@.len() - i,
    {
        let x = Transition {
            word: dup_word(&v[i].word),
            weight: v[i].weight,
            instruction: v[i].instruction,
        };
        let ghost prev = r@;
        proof {
            assert(tsv(x) == tsv(v@[i as int]));
        }
        r.push(x);
        proof {
            lemma_runv_push(prev, x);
            assert(runv(v@).take(i + 1) =~= runv(v@).take(i as int).push(tsv(v@[i as int])));
        }
        i += 1;
    }
    proof {
        assert(runv(v@).take(v@.len() as int) =~= runv(v@));
    }
    r
}

/// Sorts candidate source derivations by combined cost, best (least) first,
/// keeping exactly the candidates it was given.
fn sort_candidates(v: Vec<Vec<Transition<TreeStackInstruction>>>) -> (r: Vec<
    Vec<Transition<TreeStackInstruction>>,
>)
    ensures
        r@.len() == v@.len(),
        forall|i: int, j: int|
            0 <= i <= j < r@.len() ==> run_cost(runv((#[trigger] r@[i])@)) <= run_cost(
                runv((#[trigger] r@[j])@),
            ),
        forall|c: Seq<TsTransView>| #[trigger] has_candidate(v@, c) <==> has_candidate(r@, c),
{
    let ghost orig = v@;
    let mut src = v;
    let mut res: Vec<Vec<Transition<TreeStackInstruction>>> = Vec::new();
    while src.len() > 0
        invariant
            res@.len() + src@.len() == orig.len(),
            forall|i: int, j: int|
                0 <= i <= j < res@.len() ==> run_cost(runv((#[trigger] res@[i])@)) <= run_cost(
                    runv((#[trigger] res@[j])@),
                ),
            forall|i: int, j: int|
                0 <= i < res@.len() && 0 <= j < src@.len() ==> run_cost(
                    runv((#[trigger] res@[i])@),
                ) <= run_cost(runv((#[trigger] src@[j])@)),
            forall|c: Seq<TsTransView>| #[trigger]
                has_candidate(orig, c) <==> (has_candidate(res@, c) || has_candidate(src@, c)),
        decreases src@.len(),
    {
        let mut best: usize = 0;
        let mut i: usize = 1;
        while i < src.len()
            invariant
                best < src@.len(),
                i <= src@.len(),
                forall|k: int|
                    0 <= k < i ==> run_cost(runv((#[trigger] src@[best as int])@)) <= run_cost(
                        runv(src@[k]@),
                    ),
            decreases src@.len() - i,
        {
            if run_cost_exec(&src[i]) < run_cost_exec(&src[best]) {
                best = i;
            }
            i += 1;
        }
        let ghost presrc = src@;
        let ghost preres = res@;
        let x = src.remove(best);
        res.push(x);
        proof {
            assert(x == presrc[best as int]);
            assert forall|k: int| 0 <= k < src@.len() implies run_cost(
                runv((#[trigger] src@[k])@),
            ) >= run_cost(runv(x@)) by {
                if k < best {
                    assert(src@[k] == presrc[k]);
                } else {
                    assert(src@[k] == presrc[k + 1]);
                }
            }
            assert forall|c: Seq<TsTransView>| #[trigger]
                has_candidate(orig, c) implies (has_candidate(res@, c) || has_candidate(
                src@,
                c,
            )) by {
                if has_candidate(preres, c) {
                    let j = choose|j: int|
                        0 <= j < preres.len() && runv((#[trigger] preres[j])@) == c;
                    assert(runv(res@[j]@) == c);
                    assert(has_candidate(res@, c));
                } else {
                    assert(has_candidate(presrc, c));
                    let j = choose|j: int|
                        0 <= j < presrc.len() && runv((#[trigger] presrc[j])@) == c;
                    if j == best {
                        assert(runv(res@[res@.len() - 1]@) == c);
                        assert(has_candidate(res@, c));
                    } else if j < best {
                        assert(runv(src@[j]@) == c);
                        assert(has_candidate(src@, c));
                    } else {
                        assert(runv(src@[j - 1]@) == c);
                        assert(has_candidate(src@, c));
                    }
                }
            }
            assert forall|c: Seq<TsTransView>|
                (has_candidate(res@, c) || has_candidate(src@, c)) implies #[trigger] has_candidate(
                orig,
                c,
            ) by {
                if has_candidate(res@, c) {
                    let j = choose|j: int| 0 <= j < res@.len() && runv((#[trigger] res@[j])@) == c;
                    if j < preres.len() {
                        assert(runv(preres[j]@) == c);
                        assert(has_candidate(preres, c));
                    } else {
                        assert(res@[j] == x);
                        assert(runv(presrc[best as int]@) == c);
                        assert(has_candidate(presrc, c));
                    }
                } else {
                    let j = choose|j: int| 0 <= j < src@.len() && runv((#[trigger] src@[j])@) == c;
                    if j < best {
                        assert(runv(presrc[j]@) == c);
                    } else {
                        assert(runv(presrc[j + 1]@) == c);
                    }
                    assert(has_candidate(presrc, c));
                }
            }
        }
    }
    res
}

impl TTSElement {
    /// Back-translates a successful push-down run into the ranked collection
    /// of candidate tree-stack derivations it could represent: exactly the
    /// combinations of source transitions recorded under the run's keys, best
    /// (least cost) first. A run with a step whose key was never produced by
    /// `approximate_transition` or `add_transitions` has no source
    /// explanation: the collection is empty. This is not an error but the
    /// expected refutation of a spurious target run.
    pub fn translate_run(&self, run: &Vec<Transition<PushDownInstruction>>) -> (r: Vec<
        Vec<Transition<TreeStackInstruction>>,
    >)
        requires
            self.wf(),
        ensures
            forall|j: int|
                0 <= j < r@.len() ==> is_combo(
                    self.map(),
                    run_keys(run@),
                    runv((#[trigger] r@[j])@),
                ),
            forall|c: Seq<TsTransView>|
                #[trigger] is_combo(self.map(), run_keys(run@), c) ==> has_candidate(r@, c),
            (exists|i: int|
                0 <= i < run@.len() && !self.map().contains_key(
                    #[trigger] run_keys(run@)[i],
                )) ==> r@.len() == 0,
            (forall|i: int|
                0 <= i < run@.len() ==> self.map().contains_key(#[trigger] run_keys(run@)[i]))
                ==> r@.len() > 0,
            (forall|i: int|
                0 <= i < run@.len() ==> self.map().contains_key(#[trigger] run_keys(run@)[i]))
                ==> r@.len() == lists_product(self.map(), run_keys(run@), run@.len() as int),
            forall|i: int, j: int|
                0 <= i <= j < r@.len() ==> run_cost(runv((#[trigger] r@[i])@)) <= run_cost(
                    runv((#[trigger] r@[j])@),
                ),
    {
        let ghost m = self.map();
        let ghost keys = run_keys(run@);
        let mut lists: Vec<Vec<Transition<TreeStackInstruction>>> = Vec::new();
        let mut s: usize = 0;
        while s < run.len()
            invariant
                self.wf(),
                m == self.map(),
                keys == run_keys(run@),
                s <= run@.len(),
                lists@.len() == s,
                lists_ok(m, keys, lists@, s as int),
            decreases run@.len() - s,
        {
            let found = match &run[s].instruction {
                PushDownInstruction::Replace { current_val, new_val } => self.find_entry(
                    &run[s].word,
                    current_val,
                    new_val,
                ),
            };
            proof {
                assert(keys[s as int] == pd_key(run@[s as int]));
            }
            match found {
                Some(ei) => {
                    proof {
                        lemma_tts_map_index(self.entries@, ei as int);
                        assert(entry_key(self.entries@[ei as int]) == keys[s as int]);
                    }
                    let copy = dup_sources(&self.entries[ei].sources);
                    let ghost prelists = lists@;
                    let ghost gcopy = copy;
                    lists.push(copy);
                    proof {
                        lemma_lists_ok_push(m, keys, prelists, s as int, gcopy);
                        assert(lists@ == prelists.push(gcopy));
                    }
                },
                None => {
                    proof {
                        assert(!m.contains_key(keys[s as int]));
                        assert forall|c: Seq<TsTransView>| !is_combo(m, keys, c) by {
                            if is_combo(m, keys, c) {
                                assert(m.contains_key(keys[s as int]));
                            }
                        }
                    }
                    let empty: Vec<Vec<Transition<TreeStackInstruction>>> = Vec::new();
                    return empty;
                },
            }
            s += 1;
        }
        // Cartesian product of the per-step candidate lists.
        let mut acc: Vec<Vec<Transition<TreeStackInstruction>>> = Vec::new();
        acc.push(Vec::new());
        proof {
            assert(runv(acc@[0]@) =~= Seq::<TsTransView>::empty());
            assert(keys.take(0) =~= Seq::<TransKey>::empty());
            assert(is_combo(m, keys.take(0), runv(acc@[0]@)));
            assert forall|c: Seq<TsTransView>| #[trigger]
                is_combo(m, keys.take(0), c) implies has_candidate(acc@, c) by {
                assert(c.len() == 0);
                assert(c =~= runv(acc@[0]@));
                assert(has_candidate(acc@, c));
            }
        }
        let mut p: usize = 0;
        while p < lists.len()
            invariant
                m == self.map(),
                keys == run_keys(run@),
                lists@.len() == run@.len(),
                lists_ok(m, keys, lists@, lists@.len() as int),
                p <= lists@.len(),
                acc@.len() >= 1,
                acc@.len() == lists_product(m, keys, p as int),
                forall|j: int|
                    0 <= j < acc@.len() ==> is_combo(m, keys.take(p as int), runv((#[trigger] acc@[j])@)),
                forall|c: Seq<TsTransView>|
                    #[trigger] is_combo(m, keys.take(p as int), c) ==> has_candidate(acc@, c),
            decreases lists@.len() - p,
        {
            let ghost preacc = acc@;
            let mut acc2: Vec<Vec<Transition<TreeStackInstruction>>> = Vec::new();
            let mut j: usize = 0;
            while j < acc.len()
                invariant
                    m == self.map(),
                    keys == run_keys(run@),
                    lists@.len() == run@.len(),
                    p < lists@.len(),
                    lists_ok(m, keys, lists@, lists@.len() as int),
                    acc@ == preacc,
                    j <= acc@.len(),
                    forall|j0: int|
                        0 <= j0 < acc@.len() ==> is_combo(
                            m,
                            keys.take(p as int),
                            runv((#[trigger] acc@[j0])@),
                        ),
                    acc2@.len() == j * lists@[p as int]@.len(),
                    forall|q: int|
                        0 <= q < acc2@.len() ==> is_combo(
                            m,
                            keys.take(p + 1),
                            runv((#[trigger] acc2@[q])@),
                        ),
                    forall|j0: int, t0: int|
                        0 <= j0 < j && 0 <= t0 < lists@[p as int]@.len() ==> combo_extended(
                            acc2@,
                            acc@[j0],
                            lists@[p as int]@[t0],
                        ),
                decreases acc@.len() - j,
            {
                proof {
                    lemma_lists_ok_at(m, keys, lists@, lists@.len() as int, p as int);
                }
                let ghost pre2 = acc2@;
                let mut ti: usize = 0;
                while ti < lists[p].len()
                    invariant
                        m == self.map(),
                        keys == run_keys(run@),
                        lists@.len() == run@.len(),
                        p < lists@.len(),
                        j < acc@.len(),
                        lists_ok(m, keys, lists@, lists@.len() as int),
                        acc@ == preacc,
                        forall|j0: int|
                            0 <= j0 < acc@.len() ==> is_combo(
                                m,
                                keys.take(p as int),
                                runv((#[trigger] acc@[j0])@),
                            ),
                        ti <= lists@[p as int]@.len(),
                        pre2.len() == j * lists@[p as int]@.len(),
                        acc2@.len() == pre2.len() + ti,
                        forall|q: int|
                            0 <= q < acc2@.len() ==> is_combo(
                                m,
                                keys.take(p + 1),
                                runv((#[trigger] acc2@[q])@),
                            ),
                        forall|j0: int, t0: int|
                            0 <= j0 < j && 0 <= t0 < lists@[p as int]@.len() ==> combo_extended(
                                acc2@,
                                acc@[j0],
                                lists@[p as int]@[t0],
                            ),
                        forall|t0: int|
                            0 <= t0 < ti ==> combo_extended(
                                acc2@,
                                acc@[j as int],
                                lists@[p as int]@[t0],
                            ),
                    decreases lists@[p as int]@.len() - ti,
                {
                    let nr = extend_run(&acc[j], &lists[p][ti]);
                    proof {
                        let kp = keys[p as int];
                        lemma_lists_ok_at(m, keys, lists@, lists@.len() as int, p as int);
                        assert(m[kp].contains(tsv(lists@[p as int]@[ti as int]))) by {
                            assert(runv(lists@[p as int]@)[ti as int] == tsv(
                                lists@[p as int]@[ti as int],
                            ));
                        }
                        assert(is_combo(m, keys.take(p + 1), runv(nr@))) by {
                            let c = runv(nr@);
                            let c0 = runv(acc@[j as int]@);
                            assert(c.len() == keys.take(p + 1).len());
                            assert forall|i: int|
                                0 <= i < keys.take(p + 1).len() implies m.contains_key(
                                #[trigger] keys.take(p + 1)[i],
                            ) && m[keys.take(p + 1)[i]].contains(c[i]) by {
                                assert(keys.take(p + 1)[i] == keys[i]);
                                if i < p as int {
                                    assert(keys.take(p as int)[i] == keys[i]);
                                    assert(c[i] == c0[i]);
                                } else {
                                    assert(c[i] == tsv(lists@[p as int]@[ti as int]));
                                }
                            }
                        }
                    }
                    let ghost prepush = acc2@;
                    acc2.push(nr);
                    proof {
                        assert(acc2@[acc2@.len() - 1] == nr);
                        assert(runv(acc2@[acc2@.len() - 1]@) == runv(acc@[j as int]@).push(
                            tsv(lists@[p as int]@[ti as int]),
                        ));
                        assert forall|j0: int, t0: int|
                            0 <= j0 < j && 0 <= t0 < lists@[p as int]@.len() implies combo_extended(
                            acc2@,
                            acc@[j0],
                            lists@[p as int]@[t0],
                        ) by {
                            assert(combo_extended(prepush, acc@[j0], lists@[p as int]@[t0]));
                            let q = choose|q: int|
                                0 <= q < prepush.len() && runv((#[trigger] prepush[q])@) == runv(
                                    acc@[j0]@,
                                ).push(tsv(lists@[p as int]@[t0]));
                            assert(acc2@[q] == prepush[q]);
                            assert(runv(acc2@[q]@) == runv(acc@[j0]@).push(
                                tsv(lists@[p as int]@[t0]),
                            ));
                        }
                        assert forall|t0: int| 0 <= t0 < ti + 1 implies combo_extended(
                            acc2@,
                            acc@[j as int],
                            lists@[p as int]@[t0],
                        ) by {
                            if t0 < ti {
                                assert(combo_extended(prepush, acc@[j as int], lists@[p as int]@[t0]));
                                let q = choose|q: int|
                                    0 <= q < prepush.len() && runv((#[trigger] prepush[q])@)
                                        == runv(acc@[j as int]@).push(tsv(lists@[p as int]@[t0]));
                                assert(acc2@[q] == prepush[q]);
                                assert(runv(acc2@[q]@) == runv(acc@[j as int]@).push(
                                    tsv(lists@[p as int]@[t0]),
                                ));
                            } else {
                                assert(runv(acc2@[acc2@.len() - 1]@) == runv(acc@[j as int]@).push(
                                    tsv(lists@[p as int]@[t0]),
                                ));
                            }
                        }
                    }
                    ti += 1;
                }
                proof {
                    assert((j + 1) * lists@[p as int]@.len() == j * lists@[p as int]@.len()
                        + lists@[p as int]@.len()) by (nonlinear_arith);
                }
                j += 1;
            }
            acc = acc2;
            proof {
                assert forall|c: Seq<TsTransView>| #[trigger]
                    is_combo(m, keys.take(p + 1), c) implies has_candidate(acc@, c) by {
                    lemma_lists_ok_at(m, keys, lists@, lists@.len() as int, p as int);
                    let c0 = c.drop_last();
                    assert(is_combo(m, keys.take(p as int), c0)) by {
                        assert(c0.len() == keys.take(p as int).len());
                        assert forall|i: int|
                            0 <= i < keys.take(p as int).len() implies m.contains_key(
                            #[trigger] keys.take(p as int)[i],
                        ) && m[keys.take(p as int)[i]].contains(c0[i]) by {
                            assert(keys.take(p as int)[i] == keys[i]);
                            assert(keys.take(p + 1)[i] == keys[i]);
                            assert(c0[i] == c[i]);
                        }
                    }
                    let j0 = choose|j0: int|
                        0 <= j0 < preacc.len() && runv((#[trigger] preacc[j0])@) == c0;
                    assert(keys.take(p + 1)[p as int] == keys[p as int]);
                    assert(m[keys[p as int]].contains(c.last()));
                    assert(runv(lists@[p as int]@) == m[keys[p as int]]);
                    let t0 = choose|t0: int|
                        0 <= t0 < runv(lists@[p as int]@).len() && runv(lists@[p as int]@)[t0]
                            == c.last();
                    assert(tsv(lists@[p as int]@[t0]) == c.last());
                    assert(combo_extended(acc@, preacc[j0], lists@[p as int]@[t0]));
                    let q = choose|q: int|
                        0 <= q < acc@.len() && runv((#[trigger] acc@[q])@) == runv(
                            preacc[j0]@,
                        ).push(tsv(lists@[p as int]@[t0]));
                    assert(runv(acc@[q]@) =~= c);
                    assert(has_candidate(acc@, c));
                }
                lemma_lists_ok_at(m, keys, lists@, lists@.len() as int, p as int);
                assert(old_sources_of(m, keys[p as int]) == m[keys[p as int]]);
                assert(lists_product(m, keys, p + 1) == lists_product(m, keys, p as int)
                    * old_sources_of(m, keys[p as int]).len());
                assert(acc@.len() == preacc.len() * lists@[p as int]@.len());
                assert(lists@[p as int]@.len() == m[keys[p as int]].len()) by {
                    assert(runv(lists@[p as int]@).len() == lists@[p as int]@.len());
                }
                assert(acc@.len() == lists_product(m, keys, p + 1));
                assert forall|i: int| 0 <= i < p + 1 implies old_sources_of(
                    m,
                    #[trigger] keys[i],
                ).len() > 0 by {
                    lemma_lists_ok_at(m, keys, lists@, lists@.len() as int, i);
                    assert(runv(lists@[i]@).len() == lists@[i]@.len());
                }
                lemma_lists_product_pos(m, keys, p + 1);
            }
            p += 1;
        }
        proof {
            assert(keys.take(keys.len() as int) =~= keys);
            assert(lists@.len() == keys.len());
            assert forall|i: int| 0 <= i < run@.len() implies m.contains_key(
                #[trigger] keys[i],
            ) by {
                lemma_lists_ok_at(m, keys, lists@, lists@.len() as int, i);
            }
        }
        proof {
            assert(acc@.len() == lists_product(m, keys, keys.len() as int));
        }
        let ghost gacc = acc@;
        let sorted = sort_candidates(acc);
        proof {
            assert forall|j: int| 0 <= j < sorted@.len() implies is_combo(
                m,
                keys,
                runv((#[trigger] sorted@[j])@),
            ) by {
                assert(has_candidate(sorted@, runv(sorted@[j]@)));
                assert(has_candidate(gacc, runv(sorted@[j]@)));
                let q = choose|q: int|
                    0 <= q < gacc.len() && runv((#[trigger] gacc[q])@) == runv(sorted@[j]@);
                assert(is_combo(m, keys.take(keys.len() as int), runv(gacc[q]@)));
            }
            assert forall|c: Seq<TsTransView>| #[trigger] is_combo(m, keys, c) implies
                has_candidate(sorted@, c) by {
                assert(is_combo(m, keys.take(keys.len() as int), c));
                assert(has_candidate(gacc, c));
                assert(has_candidate(sorted@, c));
            }
        }
        sorted
    }
}

} // verus!

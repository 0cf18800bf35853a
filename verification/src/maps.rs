//! The ordered maps of the IR (`indexmap::IndexMap` keyed by name) and what this
//! library relies on of them: a map is a sequence of entries in insertion order, a
//! lookup finds the entry with the key, and an insert of a new key appends while an
//! insert of a present key replaces the value in place.
use vstd::prelude::*;
use indexmap::IndexMap;
use crate::ir::{ActionOverride, PhaseDef, ProfileDef, StateDef, StepDef};
use crate::prompt::{ParamDef, PromptFile};
use crate::codegen::knots_bundle::OutputBundle;

verus! {

#[verifier::external_type_specification]
#[verifier::external_body]
#[verifier::reject_recursive_types(K)]
#[verifier::reject_recursive_types(V)]
#[verifier::reject_recursive_types(S)]
pub struct ExIndexMap<K, V, S>(IndexMap<K, V, S>);

/// `i` is the first position of key `k`.
pub open spec fn key_index<V>(e: Seq<(Seq<char>, V)>, k: Seq<char>, i: int) -> bool {
    &&& 0 <= i < e.len()
    &&& e[i].0 == k
    &&& forall|j: int| 0 <= j < i ==> (#[trigger] e[j]).0 != k
}

pub open spec fn has_key<V>(e: Seq<(Seq<char>, V)>, k: Seq<char>) -> bool {
    exists|i: int| 0 <= i < e.len() && (#[trigger] e[i]).0 == k
}

/// The position of key `k` (meaningful when `has_key(e, k)`).
pub open spec fn index_of<V>(e: Seq<(Seq<char>, V)>, k: Seq<char>) -> int {
    choose|i: int| key_index(e, k, i)
}

/// The value stored under `k`.
pub open spec fn map_get<V>(e: Seq<(Seq<char>, V)>, k: Seq<char>) -> Option<V> {
    if has_key(e, k) {
        Some(e[index_of(e, k)].1)
    } else {
        None
    }
}

/// The entries after inserting `v` under `k`.
pub open spec fn map_insert<V>(e: Seq<(Seq<char>, V)>, k: Seq<char>, v: V) -> Seq<(Seq<char>, V)> {
    if has_key(e, k) {
        e.update(index_of(e, k), (k, v))
    } else {
        e.push((k, v))
    }
}

/// No key occurs twice.
pub open spec fn keys_distinct<V>(e: Seq<(Seq<char>, V)>) -> bool {
    forall|i: int, j: int| 0 <= i < j < e.len() ==> (#[trigger] e[i]).0 != (#[trigger] e[j]).0
}

/// In a map without repeated keys, each entry's key finds that entry.
pub proof fn lemma_get_own<V>(e: Seq<(Seq<char>, V)>, i: int)
    requires
        keys_distinct(e),
        0 <= i < e.len(),
    ensures
        has_key(e, e[i].0),
        map_get(e, e[i].0) == Some(e[i].1),
        index_of(e, e[i].0) == i,
{
    let k = e[i].0;
    assert(has_key(e, k));
    lemma_first_index(e, k);
    assert(key_index(e, k, i));
    lemma_key_index_unique(e, k, i, index_of(e, k));
}

/// Inserting a key that no entry has appends the entry.
pub proof fn lemma_insert_fresh<V>(e: Seq<(Seq<char>, V)>, k: Seq<char>, v: V)
    requires
        forall|j: int| 0 <= j < e.len() ==> (#[trigger] e[j]).0 != k,
    ensures
        map_insert(e, k, v) == e.push((k, v)),
{
}

/// The keys, in order.
pub open spec fn map_keys<V>(e: Seq<(Seq<char>, V)>) -> Seq<Seq<char>> {
    e.map_values(|p: (Seq<char>, V)| p.0)
}

/// The entries of a map, each value taken by its view.
pub open spec fn view_entries<V: View>(e: Seq<(Seq<char>, V)>) -> Seq<(Seq<char>, V::V)> {
    e.map_values(|p: (Seq<char>, V)| (p.0, p.1@))
}

/// Keys are found at the same positions once values are taken by their views.
pub proof fn lemma_view_keys<V: View>(e: Seq<(Seq<char>, V)>, k: Seq<char>)
    ensures
        has_key(view_entries(e), k) == has_key(e, k),
        has_key(e, k) ==> index_of(view_entries(e), k) == index_of(e, k),
        map_get(view_entries(e), k) == (match map_get(e, k) {
            Some(v) => Some(v@),
            None => None,
        }),
{
    let ve = view_entries(e);
    if has_key(e, k) {
        let i = choose|i: int| 0 <= i < e.len() && (#[trigger] e[i]).0 == k;
        assert(ve[i].0 == k);
        lemma_first_index(e, k);
        lemma_first_index(ve, k);
        let a = index_of(e, k);
        let b = index_of(ve, k);
        assert(key_index(ve, k, a)) by {
            assert forall|j: int| 0 <= j < a implies (#[trigger] ve[j]).0 != k by {
                assert(ve[j].0 == e[j].0);
            }
        }
        lemma_key_index_unique(ve, k, a, b);
    } else {
        assert forall|i: int| 0 <= i < ve.len() implies (#[trigger] ve[i]).0 != k by {
            assert(ve[i].0 == e[i].0);
        }
    }
}

/// Inserting commutes with taking values by their views.
pub proof fn lemma_view_insert<V: View>(e: Seq<(Seq<char>, V)>, k: Seq<char>, v: V)
    ensures
        view_entries(map_insert(e, k, v)) == map_insert(view_entries(e), k, v@),
{
    lemma_view_keys(e, k);
    let a = view_entries(map_insert(e, k, v));
    let b = map_insert(view_entries(e), k, v@);
    if has_key(e, k) {
        let i = index_of(e, k);
        lemma_first_index(e, k);
        assert forall|j: int| 0 <= j < a.len() implies a[j] == b[j] by {
            if j == i {
                assert(a[j] == (k, v@));
            } else {
                assert(a[j] == (e[j].0, e[j].1@));
            }
        }
        assert(a =~= b);
    } else {
        assert forall|j: int| 0 <= j < a.len() implies a[j] == b[j] by {
            if j < e.len() {
                assert(a[j] == (e[j].0, e[j].1@));
            }
        }
        assert(a =~= b);
    }
}

pub proof fn lemma_first_index<V>(e: Seq<(Seq<char>, V)>, k: Seq<char>)
    requires
        has_key(e, k),
    ensures
        key_index(e, k, index_of(e, k)),
    decreases e.len(),
{
    if e[0].0 == k {
        assert(key_index(e, k, 0));
    } else {
        let e2 = e.drop_first();
        let i = choose|i: int| 0 <= i < e.len() && (#[trigger] e[i]).0 == k;
        assert(e2[i - 1] == e[i]);
        lemma_first_index(e2, k);
        let j = index_of(e2, k);
        assert forall|m: int| 0 <= m < j + 1 implies (#[trigger] e[m]).0 != k by {
            if m > 0 {
                assert(e[m] == e2[m - 1]);
            }
        }
        assert(key_index(e, k, j + 1));
    }
}

pub proof fn lemma_key_index_unique<V>(e: Seq<(Seq<char>, V)>, k: Seq<char>, i: int, j: int)
    requires
        key_index(e, k, i),
        key_index(e, k, j),
    ensures
        i == j,
{
    if i < j {
        assert(e[i].0 != k);
    } else if j < i {
        assert(e[j].0 != k);
    }
}

/// Looking up a key right after inserting it gives the inserted value; other keys keep theirs.
pub proof fn lemma_insert_get<V>(e: Seq<(Seq<char>, V)>, k: Seq<char>, v: V, k2: Seq<char>)
    ensures
        map_get(map_insert(e, k, v), k2) == (if k2 == k {
            Some(v)
        } else {
            map_get(e, k2)
        }),
        map_insert(e, k, v).len() == (if has_key(e, k) {
            e.len()
        } else {
            e.len() + 1
        }),
{
    let e2 = map_insert(e, k, v);
    if has_key(e, k) {
        lemma_first_index(e, k);
        let i = index_of(e, k);
        assert(e2[i] == (k, v));
        assert(has_key(e2, k));
        if k2 == k {
            lemma_first_index(e2, k);
            assert forall|m: int| 0 <= m < i implies (#[trigger] e2[m]).0 != k by {
                assert(e2[m] == e[m]);
            }
            lemma_key_index_unique(e2, k, i, index_of(e2, k));
        } else {
            if has_key(e, k2) {
                lemma_first_index(e, k2);
                let j = index_of(e, k2);
                assert(e2[j] == e[j]);
                assert(has_key(e2, k2));
                lemma_first_index(e2, k2);
                assert forall|m: int| 0 <= m < j implies (#[trigger] e2[m]).0 != k2 by {
                    if m != i {
                        assert(e2[m] == e[m]);
                    }
                }
                lemma_key_index_unique(e2, k2, j, index_of(e2, k2));
            } else {
                assert forall|m: int| 0 <= m < e2.len() implies (#[trigger] e2[m]).0 != k2 by {
                    if m != i {
                        assert(e2[m] == e[m]);
                    }
                }
            }
        }
    } else {
        let n = e.len() as int;
        assert(e2[n] == (k, v));
        if k2 == k {
            assert(has_key(e2, k));
            lemma_first_index(e2, k);
            assert forall|m: int| 0 <= m < n implies (#[trigger] e2[m]).0 != k by {
                assert(e2[m] == e[m]);
            }
            assert(key_index(e2, k, n));
            lemma_key_index_unique(e2, k, n, index_of(e2, k));
        } else {
            if has_key(e, k2) {
                lemma_first_index(e, k2);
                let j = index_of(e, k2);
                assert(e2[j] == e[j]);
                assert(has_key(e2, k2));
                lemma_first_index(e2, k2);
                assert forall|m: int| 0 <= m < j implies (#[trigger] e2[m]).0 != k2 by {
                    assert(e2[m] == e[m]);
                }
                lemma_key_index_unique(e2, k2, j, index_of(e2, k2));
            } else {
                assert forall|m: int| 0 <= m < e2.len() implies (#[trigger] e2[m]).0 != k2 by {
                    if m < n {
                        assert(e2[m] == e[m]);
                    }
                }
            }
        }
    }
}

/// The entries of a map of states, in order.
pub uninterp spec fn state_entries(m: IndexMap<String, StateDef>) -> Seq<(Seq<char>, StateDef)>;

/// `IndexMap::new` on a map of states: no entries.
#[verifier::external_body]
pub(crate) fn states_new() -> (m: IndexMap<String, StateDef>)
    ensures
        state_entries(m) == Seq::<(Seq<char>, StateDef)>::empty(),
{
    IndexMap::new()
}

/// `IndexMap::insert` on a map of states: replaces the value of a present key in place,
/// otherwise appends the entry.
#[verifier::external_body]
pub(crate) fn states_insert(m: &mut IndexMap<String, StateDef>, k: String, v: StateDef)
    ensures
        state_entries(*final(m)) == map_insert(state_entries(*old(m)), k@, v),
{
    m.insert(k, v);
}

/// `IndexMap::get` on a map of states: the value stored under `k`.
#[verifier::external_body]
pub(crate) fn states_get<'a>(m: &'a IndexMap<String, StateDef>, k: &str) -> (r: Option<&'a StateDef>)
    ensures
        r matches Some(v) ==> map_get(state_entries(*m), k@) == Some(*v),
        r is None ==> map_get(state_entries(*m), k@) is None,
{
    m.get(k)
}

/// `IndexMap::get_index` on a map of states: the entry at position `i`. An `IndexMap` holds
/// each key once, so no earlier entry has the same key.
#[verifier::external_body]
pub(crate) fn states_at<'a>(m: &'a IndexMap<String, StateDef>, i: usize) -> (r: Option<(&'a String, &'a StateDef)>)
    ensures
        r matches Some((k, v)) ==> i < state_entries(*m).len() && k@ == state_entries(*m)[i as int].0 && *v
            == state_entries(*m)[i as int].1,
        r matches Some((k, v)) ==> forall|j: int| 0 <= j < i ==> (#[trigger] state_entries(*m)[j]).0 != k@,
        r is None ==> i >= state_entries(*m).len(),
{
    m.get_index(i)
}

/// `IndexMap::len` on a map of states: the number of entries.
#[verifier::external_body]
pub(crate) fn states_len(m: &IndexMap<String, StateDef>) -> (r: usize)
    ensures
        r == state_entries(*m).len(),
{
    m.len()
}

/// The entries of a map of steps, in order.
pub uninterp spec fn step_entries(m: IndexMap<String, StepDef>) -> Seq<(Seq<char>, StepDef)>;

/// `IndexMap::new` on a map of steps: no entries.
#[verifier::external_body]
pub(crate) fn steps_new() -> (m: IndexMap<String, StepDef>)
    ensures
        step_entries(m) == Seq::<(Seq<char>, StepDef)>::empty(),
{
    IndexMap::new()
}

/// `IndexMap::insert` on a map of steps: replaces the value of a present key in place,
/// otherwise appends the entry.
#[verifier::external_body]
pub(crate) fn steps_insert(m: &mut IndexMap<String, StepDef>, k: String, v: StepDef)
    ensures
        step_entries(*final(m)) == map_insert(step_entries(*old(m)), k@, v),
{
    m.insert(k, v);
}

/// `IndexMap::get` on a map of steps: the value stored under `k`.
#[verifier::external_body]
pub(crate) fn steps_get<'a>(m: &'a IndexMap<String, StepDef>, k: &str) -> (r: Option<&'a StepDef>)
    ensures
        r matches Some(v) ==> map_get(step_entries(*m), k@) == Some(*v),
        r is None ==> map_get(step_entries(*m), k@) is None,
{
    m.get(k)
}

/// `IndexMap::get_index` on a map of steps: the entry at position `i`. An `IndexMap` holds
/// each key once, so no earlier entry has the same key.
#[verifier::external_body]
pub(crate) fn steps_at<'a>(m: &'a IndexMap<String, StepDef>, i: usize) -> (r: Option<(&'a String, &'a StepDef)>)
    ensures
        r matches Some((k, v)) ==> i < step_entries(*m).len() && k@ == step_entries(*m)[i as int].0 && *v
            == step_entries(*m)[i as int].1,
        r matches Some((k, v)) ==> forall|j: int| 0 <= j < i ==> (#[trigger] step_entries(*m)[j]).0 != k@,
        r is None ==> i >= step_entries(*m).len(),
{
    m.get_index(i)
}

/// `IndexMap::len` on a map of steps: the number of entries.
#[verifier::external_body]
pub(crate) fn steps_len(m: &IndexMap<String, StepDef>) -> (r: usize)
    ensures
        r == step_entries(*m).len(),
{
    m.len()
}

/// The entries of a map of phases, in order.
pub uninterp spec fn phase_entries(m: IndexMap<String, PhaseDef>) -> Seq<(Seq<char>, PhaseDef)>;

/// `IndexMap::new` on a map of phases: no entries.
#[verifier::external_body]
pub(crate) fn phases_new() -> (m: IndexMap<String, PhaseDef>)
    ensures
        phase_entries(m) == Seq::<(Seq<char>, PhaseDef)>::empty(),
{
    IndexMap::new()
}

/// `IndexMap::insert` on a map of phases: replaces the value of a present key in place,
/// otherwise appends the entry.
#[verifier::external_body]
pub(crate) fn phases_insert(m: &mut IndexMap<String, PhaseDef>, k: String, v: PhaseDef)
    ensures
        phase_entries(*final(m)) == map_insert(phase_entries(*old(m)), k@, v),
{
    m.insert(k, v);
}

/// `IndexMap::get` on a map of phases: the value stored under `k`.
#[verifier::external_body]
pub(crate) fn phases_get<'a>(m: &'a IndexMap<String, PhaseDef>, k: &str) -> (r: Option<&'a PhaseDef>)
    ensures
        r matches Some(v) ==> map_get(phase_entries(*m), k@) == Some(*v),
        r is None ==> map_get(phase_entries(*m), k@) is None,
{
    m.get(k)
}

/// `IndexMap::get_index` on a map of phases: the entry at position `i`. An `IndexMap` holds
/// each key once, so no earlier entry has the same key.
#[verifier::external_body]
pub(crate) fn phases_at<'a>(m: &'a IndexMap<String, PhaseDef>, i: usize) -> (r: Option<(&'a String, &'a PhaseDef)>)
    ensures
        r matches Some((k, v)) ==> i < phase_entries(*m).len() && k@ == phase_entries(*m)[i as int].0 && *v
            == phase_entries(*m)[i as int].1,
        r matches Some((k, v)) ==> forall|j: int| 0 <= j < i ==> (#[trigger] phase_entries(*m)[j]).0 != k@,
        r is None ==> i >= phase_entries(*m).len(),
{
    m.get_index(i)
}

/// `IndexMap::len` on a map of phases: the number of entries.
#[verifier::external_body]
pub(crate) fn phases_len(m: &IndexMap<String, PhaseDef>) -> (r: usize)
    ensures
        r == phase_entries(*m).len(),
{
    m.len()
}

/// The entries of a map of profiles, in order.
pub uninterp spec fn profile_entries(m: IndexMap<String, ProfileDef>) -> Seq<(Seq<char>, ProfileDef)>;

/// `IndexMap::new` on a map of profiles: no entries.
#[verifier::external_body]
pub(crate) fn profiles_new() -> (m: IndexMap<String, ProfileDef>)
    ensures
        profile_entries(m) == Seq::<(Seq<char>, ProfileDef)>::empty(),
{
    IndexMap::new()
}

/// `IndexMap::insert` on a map of profiles: replaces the value of a present key in place,
/// otherwise appends the entry.
#[verifier::external_body]
pub(crate) fn profiles_insert(m: &mut IndexMap<String, ProfileDef>, k: String, v: ProfileDef)
    ensures
        profile_entries(*final(m)) == map_insert(profile_entries(*old(m)), k@, v),
{
    m.insert(k, v);
}

/// `IndexMap::get` on a map of profiles: the value stored under `k`.
#[verifier::external_body]
pub(crate) fn profiles_get<'a>(m: &'a IndexMap<String, ProfileDef>, k: &str) -> (r: Option<&'a ProfileDef>)
    ensures
        r matches Some(v) ==> map_get(profile_entries(*m), k@) == Some(*v),
        r is None ==> map_get(profile_entries(*m), k@) is None,
{
    m.get(k)
}

/// `IndexMap::get_index` on a map of profiles: the entry at position `i`. An `IndexMap` holds
/// each key once, so no earlier entry has the same key.
#[verifier::external_body]
pub(crate) fn profiles_at<'a>(m: &'a IndexMap<String, ProfileDef>, i: usize) -> (r: Option<(&'a String, &'a ProfileDef)>)
    ensures
        r matches Some((k, v)) ==> i < profile_entries(*m).len() && k@ == profile_entries(*m)[i as int].0 && *v
            == profile_entries(*m)[i as int].1,
        r matches Some((k, v)) ==> forall|j: int| 0 <= j < i ==> (#[trigger] profile_entries(*m)[j]).0 != k@,
        r is None ==> i >= profile_entries(*m).len(),
{
    m.get_index(i)
}

/// `IndexMap::len` on a map of profiles: the number of entries.
#[verifier::external_body]
pub(crate) fn profiles_len(m: &IndexMap<String, ProfileDef>) -> (r: usize)
    ensures
        r == profile_entries(*m).len(),
{
    m.len()
}

/// The entries of a map of prompts, in order.
pub uninterp spec fn prompt_entries(m: IndexMap<String, PromptFile>) -> Seq<(Seq<char>, PromptFile)>;

/// `IndexMap::new` on a map of prompts: no entries.
#[verifier::external_body]
pub(crate) fn prompts_new() -> (m: IndexMap<String, PromptFile>)
    ensures
        prompt_entries(m) == Seq::<(Seq<char>, PromptFile)>::empty(),
{
    IndexMap::new()
}

/// `IndexMap::insert` on a map of prompts: replaces the value of a present key in place,
/// otherwise appends the entry.
#[verifier::external_body]
pub(crate) fn prompts_insert(m: &mut IndexMap<String, PromptFile>, k: String, v: PromptFile)
    ensures
        prompt_entries(*final(m)) == map_insert(prompt_entries(*old(m)), k@, v),
{
    m.insert(k, v);
}

/// `IndexMap::get` on a map of prompts: the value stored under `k`.
#[verifier::external_body]
pub(crate) fn prompts_get<'a>(m: &'a IndexMap<String, PromptFile>, k: &str) -> (r: Option<&'a PromptFile>)
    ensures
        r matches Some(v) ==> map_get(prompt_entries(*m), k@) == Some(*v),
        r is None ==> map_get(prompt_entries(*m), k@) is None,
{
    m.get(k)
}

/// `IndexMap::get_index` on a map of prompts: the entry at position `i`. An `IndexMap` holds
/// each key once, so no earlier entry has the same key.
#[verifier::external_body]
pub(crate) fn prompts_at<'a>(m: &'a IndexMap<String, PromptFile>, i: usize) -> (r: Option<(&'a String, &'a PromptFile)>)
    ensures
        r matches Some((k, v)) ==> i < prompt_entries(*m).len() && k@ == prompt_entries(*m)[i as int].0 && *v
            == prompt_entries(*m)[i as int].1,
        r matches Some((k, v)) ==> forall|j: int| 0 <= j < i ==> (#[trigger] prompt_entries(*m)[j]).0 != k@,
        r is None ==> i >= prompt_entries(*m).len(),
{
    m.get_index(i)
}

/// `IndexMap::len` on a map of prompts: the number of entries.
#[verifier::external_body]
pub(crate) fn prompts_len(m: &IndexMap<String, PromptFile>) -> (r: usize)
    ensures
        r == prompt_entries(*m).len(),
{
    m.len()
}

/// The entries of a map of overrides, in order.
pub uninterp spec fn override_entries(m: IndexMap<String, ActionOverride>) -> Seq<(Seq<char>, ActionOverride)>;

/// `IndexMap::new` on a map of overrides: no entries.
#[verifier::external_body]
pub(crate) fn overrides_new() -> (m: IndexMap<String, ActionOverride>)
    ensures
        override_entries(m) == Seq::<(Seq<char>, ActionOverride)>::empty(),
{
    IndexMap::new()
}

/// `IndexMap::insert` on a map of overrides: replaces the value of a present key in place,
/// otherwise appends the entry.
#[verifier::external_body]
pub(crate) fn overrides_insert(m: &mut IndexMap<String, ActionOverride>, k: String, v: ActionOverride)
    ensures
        override_entries(*final(m)) == map_insert(override_entries(*old(m)), k@, v),
{
    m.insert(k, v);
}

/// `IndexMap::get` on a map of overrides: the value stored under `k`.
#[verifier::external_body]
pub(crate) fn overrides_get<'a>(m: &'a IndexMap<String, ActionOverride>, k: &str) -> (r: Option<&'a ActionOverride>)
    ensures
        r matches Some(v) ==> map_get(override_entries(*m), k@) == Some(*v),
        r is None ==> map_get(override_entries(*m), k@) is None,
{
    m.get(k)
}

/// `IndexMap::get_index` on a map of overrides: the entry at position `i`. An `IndexMap` holds
/// each key once, so no earlier entry has the same key.
#[verifier::external_body]
pub(crate) fn overrides_at<'a>(m: &'a IndexMap<String, ActionOverride>, i: usize) -> (r: Option<(&'a String, &'a ActionOverride)>)
    ensures
        r matches Some((k, v)) ==> i < override_entries(*m).len() && k@ == override_entries(*m)[i as int].0 && *v
            == override_entries(*m)[i as int].1,
        r matches Some((k, v)) ==> forall|j: int| 0 <= j < i ==> (#[trigger] override_entries(*m)[j]).0 != k@,
        r is None ==> i >= override_entries(*m).len(),
{
    m.get_index(i)
}

/// `IndexMap::len` on a map of overrides: the number of entries.
#[verifier::external_body]
pub(crate) fn overrides_len(m: &IndexMap<String, ActionOverride>) -> (r: usize)
    ensures
        r == override_entries(*m).len(),
{
    m.len()
}

/// The entries of a map of outcomes, in order.
pub uninterp spec fn outcome_entries(m: IndexMap<String, String>) -> Seq<(Seq<char>, String)>;

/// `IndexMap::new` on a map of outcomes: no entries.
#[verifier::external_body]
pub(crate) fn outcomes_new() -> (m: IndexMap<String, String>)
    ensures
        outcome_entries(m) == Seq::<(Seq<char>, String)>::empty(),
{
    IndexMap::new()
}

/// `IndexMap::insert` on a map of outcomes: replaces the value of a present key in place,
/// otherwise appends the entry.
#[verifier::external_body]
pub(crate) fn outcomes_insert(m: &mut IndexMap<String, String>, k: String, v: String)
    ensures
        outcome_entries(*final(m)) == map_insert(outcome_entries(*old(m)), k@, v),
{
    m.insert(k, v);
}

/// `IndexMap::get` on a map of outcomes: the value stored under `k`.
#[verifier::external_body]
pub(crate) fn outcomes_get<'a>(m: &'a IndexMap<String, String>, k: &str) -> (r: Option<&'a String>)
    ensures
        r matches Some(v) ==> map_get(outcome_entries(*m), k@) == Some(*v),
        r is None ==> map_get(outcome_entries(*m), k@) is None,
{
    m.get(k)
}

/// `IndexMap::get_index` on a map of outcomes: the entry at position `i`. An `IndexMap` holds
/// each key once, so no earlier entry has the same key.
#[verifier::external_body]
pub(crate) fn outcomes_at<'a>(m: &'a IndexMap<String, String>, i: usize) -> (r: Option<(&'a String, &'a String)>)
    ensures
        r matches Some((k, v)) ==> i < outcome_entries(*m).len() && k@ == outcome_entries(*m)[i as int].0 && *v
            == outcome_entries(*m)[i as int].1,
        r matches Some((k, v)) ==> forall|j: int| 0 <= j < i ==> (#[trigger] outcome_entries(*m)[j]).0 != k@,
        r is None ==> i >= outcome_entries(*m).len(),
{
    m.get_index(i)
}

/// `IndexMap::len` on a map of outcomes: the number of entries.
#[verifier::external_body]
pub(crate) fn outcomes_len(m: &IndexMap<String, String>) -> (r: usize)
    ensures
        r == outcome_entries(*m).len(),
{
    m.len()
}

/// The entries of a map of params, in order.
pub uninterp spec fn param_entries(m: IndexMap<String, ParamDef>) -> Seq<(Seq<char>, ParamDef)>;

/// `IndexMap::new` on a map of params: no entries.
#[verifier::external_body]
pub(crate) fn params_new() -> (m: IndexMap<String, ParamDef>)
    ensures
        param_entries(m) == Seq::<(Seq<char>, ParamDef)>::empty(),
{
    IndexMap::new()
}

/// `IndexMap::insert` on a map of params: replaces the value of a present key in place,
/// otherwise appends the entry.
#[verifier::external_body]
pub(crate) fn params_insert(m: &mut IndexMap<String, ParamDef>, k: String, v: ParamDef)
    ensures
        param_entries(*final(m)) == map_insert(param_entries(*old(m)), k@, v),
{
    m.insert(k, v);
}

/// `IndexMap::get` on a map of params: the value stored under `k`.
#[verifier::external_body]
pub(crate) fn params_get<'a>(m: &'a IndexMap<String, ParamDef>, k: &str) -> (r: Option<&'a ParamDef>)
    ensures
        r matches Some(v) ==> map_get(param_entries(*m), k@) == Some(*v),
        r is None ==> map_get(param_entries(*m), k@) is None,
{
    m.get(k)
}

/// `IndexMap::get_index` on a map of params: the entry at position `i`. An `IndexMap` holds
/// each key once, so no earlier entry has the same key.
#[verifier::external_body]
pub(crate) fn params_at<'a>(m: &'a IndexMap<String, ParamDef>, i: usize) -> (r: Option<(&'a String, &'a ParamDef)>)
    ensures
        r matches Some((k, v)) ==> i < param_entries(*m).len() && k@ == param_entries(*m)[i as int].0 && *v
            == param_entries(*m)[i as int].1,
        r matches Some((k, v)) ==> forall|j: int| 0 <= j < i ==> (#[trigger] param_entries(*m)[j]).0 != k@,
        r is None ==> i >= param_entries(*m).len(),
{
    m.get_index(i)
}

/// `IndexMap::len` on a map of params: the number of entries.
#[verifier::external_body]
pub(crate) fn params_len(m: &IndexMap<String, ParamDef>) -> (r: usize)
    ensures
        r == param_entries(*m).len(),
{
    m.len()
}


/// The entries of a map from names to node positions, in order.
pub uninterp spec fn node_entries(m: IndexMap<String, usize>) -> Seq<(Seq<char>, usize)>;

/// `IndexMap::new` on a map of node positions: no entries.
#[verifier::external_body]
pub(crate) fn nodes_new() -> (m: IndexMap<String, usize>)
    ensures
        node_entries(m) == Seq::<(Seq<char>, usize)>::empty(),
{
    IndexMap::new()
}

/// `IndexMap::insert` on a map of node positions: replaces the value of a present key in
/// place, otherwise appends the entry.
#[verifier::external_body]
pub(crate) fn nodes_insert(m: &mut IndexMap<String, usize>, k: String, v: usize)
    ensures
        node_entries(*final(m)) == map_insert(node_entries(*old(m)), k@, v),
{
    m.insert(k, v);
}

/// `IndexMap::get` on a map of node positions: the value stored under `k`.
#[verifier::external_body]
pub(crate) fn nodes_get(m: &IndexMap<String, usize>, k: &str) -> (r: Option<usize>)
    ensures
        r == map_get(node_entries(*m), k@),
{
    m.get(k).copied()
}

/// The entries of a map from action names to output descriptions, in order.
pub uninterp spec fn bundle_output_entries(m: IndexMap<String, OutputBundle>) -> Seq<(Seq<char>, OutputBundle)>;

/// `IndexMap::new` on a map of output descriptions: no entries.
#[verifier::external_body]
pub(crate) fn bundle_outputs_new() -> (m: IndexMap<String, OutputBundle>)
    ensures
        bundle_output_entries(m) == Seq::<(Seq<char>, OutputBundle)>::empty(),
{
    IndexMap::new()
}

/// `IndexMap::insert` on a map of output descriptions: replaces the value of a present key
/// in place, otherwise appends the entry.
#[verifier::external_body]
pub(crate) fn bundle_outputs_insert(m: &mut IndexMap<String, OutputBundle>, k: String, v: OutputBundle)
    ensures
        bundle_output_entries(*final(m)) == map_insert(bundle_output_entries(*old(m)), k@, v),
{
    m.insert(k, v);
}

/// The entries of a map from action names to executor words, in order.
pub uninterp spec fn executor_word_entries(m: IndexMap<String, &'static str>) -> Seq<(Seq<char>, &'static str)>;

/// `IndexMap::new` on a map of executor words: no entries.
#[verifier::external_body]
pub(crate) fn executor_words_new() -> (m: IndexMap<String, &'static str>)
    ensures
        executor_word_entries(m) == Seq::<(Seq<char>, &'static str)>::empty(),
{
    IndexMap::new()
}

/// `IndexMap::insert` on a map of executor words: replaces the value of a present key in
/// place, otherwise appends the entry.
#[verifier::external_body]
pub(crate) fn executor_words_insert(m: &mut IndexMap<String, &'static str>, k: String, v: &'static str)
    ensures
        executor_word_entries(*final(m)) == map_insert(executor_word_entries(*old(m)), k@, v),
{
    m.insert(k, v);
}


/// A map of states holds each key once: each key read in order differs from those before it.
pub(crate) fn states_keys_distinct(m: &IndexMap<String, StateDef>)
    ensures
        keys_distinct(state_entries(*m)),
{
    let ghost e = state_entries(*m);
    let n = states_len(m);
    for i in 0..n
        invariant
            n == e.len(),
            e == state_entries(*m),
            forall|a: int, b: int| 0 <= a < b < i ==> (#[trigger] e[a]).0 != (#[trigger] e[b]).0,
    {
        let (_k, _v) = states_at(m, i).unwrap();
    }
}

/// A map of steps holds each key once: each key read in order differs from those before it.
pub(crate) fn steps_keys_distinct(m: &IndexMap<String, StepDef>)
    ensures
        keys_distinct(step_entries(*m)),
{
    let ghost e = step_entries(*m);
    let n = steps_len(m);
    for i in 0..n
        invariant
            n == e.len(),
            e == step_entries(*m),
            forall|a: int, b: int| 0 <= a < b < i ==> (#[trigger] e[a]).0 != (#[trigger] e[b]).0,
    {
        let (_k, _v) = steps_at(m, i).unwrap();
    }
}

/// A map of phases holds each key once: each key read in order differs from those before it.
pub(crate) fn phases_keys_distinct(m: &IndexMap<String, PhaseDef>)
    ensures
        keys_distinct(phase_entries(*m)),
{
    let ghost e = phase_entries(*m);
    let n = phases_len(m);
    for i in 0..n
        invariant
            n == e.len(),
            e == phase_entries(*m),
            forall|a: int, b: int| 0 <= a < b < i ==> (#[trigger] e[a]).0 != (#[trigger] e[b]).0,
    {
        let (_k, _v) = phases_at(m, i).unwrap();
    }
}

/// A map of profiles holds each key once: each key read in order differs from those before it.
pub(crate) fn profiles_keys_distinct(m: &IndexMap<String, ProfileDef>)
    ensures
        keys_distinct(profile_entries(*m)),
{
    let ghost e = profile_entries(*m);
    let n = profiles_len(m);
    for i in 0..n
        invariant
            n == e.len(),
            e == profile_entries(*m),
            forall|a: int, b: int| 0 <= a < b < i ==> (#[trigger] e[a]).0 != (#[trigger] e[b]).0,
    {
        let (_k, _v) = profiles_at(m, i).unwrap();
    }
}

/// A map of prompts holds each key once: each key read in order differs from those before it.
pub(crate) fn prompts_keys_distinct(m: &IndexMap<String, PromptFile>)
    ensures
        keys_distinct(prompt_entries(*m)),
{
    let ghost e = prompt_entries(*m);
    let n = prompts_len(m);
    for i in 0..n
        invariant
            n == e.len(),
            e == prompt_entries(*m),
            forall|a: int, b: int| 0 <= a < b < i ==> (#[trigger] e[a]).0 != (#[trigger] e[b]).0,
    {
        let (_k, _v) = prompts_at(m, i).unwrap();
    }
}

/// A map of overrides holds each key once: each key read in order differs from those before it.
pub(crate) fn overrides_keys_distinct(m: &IndexMap<String, ActionOverride>)
    ensures
        keys_distinct(override_entries(*m)),
{
    let ghost e = override_entries(*m);
    let n = overrides_len(m);
    for i in 0..n
        invariant
            n == e.len(),
            e == override_entries(*m),
            forall|a: int, b: int| 0 <= a < b < i ==> (#[trigger] e[a]).0 != (#[trigger] e[b]).0,
    {
        let (_k, _v) = overrides_at(m, i).unwrap();
    }
}

/// A map of outcomes holds each key once: each key read in order differs from those before it.
pub(crate) fn outcomes_keys_distinct(m: &IndexMap<String, String>)
    ensures
        keys_distinct(outcome_entries(*m)),
{
    let ghost e = outcome_entries(*m);
    let n = outcomes_len(m);
    for i in 0..n
        invariant
            n == e.len(),
            e == outcome_entries(*m),
            forall|a: int, b: int| 0 <= a < b < i ==> (#[trigger] e[a]).0 != (#[trigger] e[b]).0,
    {
        let (_k, _v) = outcomes_at(m, i).unwrap();
    }
}

} // verus!

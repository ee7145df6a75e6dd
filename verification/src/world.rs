//! The session: a generational arena of records, their animatable
//! properties, the filter states driving them, and the three-stage
//! scheduler that advances everything once per frame.
//!
//! Records are identified by `Entity` (slot index plus generation);
//! destroying a record bumps the slot's generation, so every kept handle
//! to it goes stale and every lookup through such a handle skips instead
//! of failing. Entries of the three columns (properties, filter states,
//! binding sets) whose owner has been destroyed stay behind as inert
//! data: no lookup can reach them, and re-creating a record with the same
//! owner replaces them.
use vstd::prelude::*;
use crate::value::AnimValue;
use crate::state::DynamicsState;
use crate::state::DynamicsParams;
use crate::state::TickMode;
use crate::state::spec_tick;
use crate::state::spec_stable_k2;
use crate::state::spec_pole_coeffs;
use crate::component::AnimHandle;
use crate::component::DynamicsSource;
use crate::component::Dynamics;
use crate::component::Binding;
use crate::component::spec_has_binding;
use crate::component::spec_binding;
use crate::DefaultTickMode;

verus! {

/// The identity of a record: a slot index and the generation the slot had
/// when the record was created. Destroying the record bumps the slot's
/// generation, so a kept identity goes stale instead of dangling.
#[derive(Clone, Copy, PartialEq, Eq, Structural, Debug)]
pub struct Entity {
    pub index: usize,
    pub generation: u64,
}

/// One slot of the arena.
#[derive(Clone, Copy, PartialEq, Eq, Structural, Debug)]
pub struct Slot {
    pub live: bool,
    pub generation: u64,
}

/// The identity refers to a record that currently exists.
pub open spec fn spec_valid_in(slots: Seq<Slot>, e: Entity) -> bool {
    &&& (e.index as int) < slots.len()
    &&& slots[e.index as int].live
    &&& slots[e.index as int].generation == e.generation
}

/// One animatable property of one record.
#[derive(Clone, Copy, PartialEq, Eq, Structural, Debug)]
pub struct PropEntry {
    pub owner: Entity,
    pub key: u64,
    pub value: AnimValue,
}

/// One record's filter: its state, its integration strategy, and the
/// optional producer its target is read from.
#[derive(Clone, Copy, PartialEq, Eq, Structural, Debug)]
pub struct StateEntry {
    pub owner: Entity,
    pub state: DynamicsState,
    pub mode: TickMode,
    pub source: Option<DynamicsSource>,
}

/// One record's set of destination bindings.
#[derive(Debug)]
pub struct DynEntry {
    pub owner: Entity,
    pub dynamics: Dynamics,
}

/// Some property entry for this (record, kind) pair exists.
pub open spec fn spec_has_prop(s: Seq<PropEntry>, owner: Entity, key: u64) -> bool {
    exists|i: int|
        0 <= i < s.len() && (#[trigger] s[i]).owner == owner && s[i].key == key
}

/// The value of that property entry (meaningful when it exists and the
/// pairs are distinct).
pub open spec fn spec_prop_value(s: Seq<PropEntry>, owner: Entity, key: u64) -> AnimValue {
    s[choose|i: int| 0 <= i < s.len() && (#[trigger] s[i]).owner == owner && s[i].key == key].value
}

/// Some filter entry for this record exists.
pub open spec fn spec_has_state(s: Seq<StateEntry>, owner: Entity) -> bool {
    exists|i: int| 0 <= i < s.len() && (#[trigger] s[i]).owner == owner
}

/// That filter entry.
pub open spec fn spec_state_entry(s: Seq<StateEntry>, owner: Entity) -> StateEntry {
    s[choose|i: int| 0 <= i < s.len() && (#[trigger] s[i]).owner == owner]
}

/// Some binding-set entry for this record exists.
pub open spec fn spec_has_dyn(s: Seq<DynEntry>, owner: Entity) -> bool {
    exists|i: int| 0 <= i < s.len() && (#[trigger] s[i]).owner == owner
}

/// The index of that binding-set entry.
pub open spec fn spec_dyn_index(s: Seq<DynEntry>, owner: Entity) -> int {
    choose|i: int| 0 <= i < s.len() && (#[trigger] s[i]).owner == owner
}

/// Property lookups agree on two columns whose entries agree wherever the
/// pair occurs.
proof fn lemma_prop_lookup_eq(s1: Seq<PropEntry>, s2: Seq<PropEntry>, owner: Entity, key: u64)
    requires
        s1.len() == s2.len(),
        forall|j: int|
            0 <= j < s1.len() ==> (((#[trigger] s1[j]).owner == owner && s1[j].key == key) <==> (
            s2[j].owner == owner && s2[j].key == key)),
        forall|j: int|
            0 <= j < s1.len() && (#[trigger] s1[j]).owner == owner && s1[j].key == key ==> s1[j]
                == s2[j],
        forall|i: int, j: int|
            0 <= i < j < s1.len() ==> !((#[trigger] s1[i]).owner == (#[trigger] s1[j]).owner
                && s1[i].key == s1[j].key),
    ensures
        spec_has_prop(s1, owner, key) == spec_has_prop(s2, owner, key),
        spec_has_prop(s1, owner, key) ==> spec_prop_value(s1, owner, key) == spec_prop_value(
            s2,
            owner,
            key,
        ),
{
    if spec_has_prop(s1, owner, key) {
        let i1 = choose|i: int|
            0 <= i < s1.len() && (#[trigger] s1[i]).owner == owner && s1[i].key == key;
        assert(s2[i1].owner == owner && s2[i1].key == key);
        assert(spec_has_prop(s2, owner, key));
        let i2 = choose|i: int|
            0 <= i < s2.len() && (#[trigger] s2[i]).owner == owner && s2[i].key == key;
        assert(s1[i2].owner == owner && s1[i2].key == key);
        if i1 != i2 {
            assert(false);
        }
    } else if spec_has_prop(s2, owner, key) {
        let i2 = choose|i: int|
            0 <= i < s2.len() && (#[trigger] s2[i]).owner == owner && s2[i].key == key;
        assert(s1[i2].owner == owner && s1[i2].key == key);
    }
}

/// Filter lookups agree on two columns whose entries agree wherever the
/// owner occurs.
proof fn lemma_state_lookup_eq(s1: Seq<StateEntry>, s2: Seq<StateEntry>, owner: Entity)
    requires
        s1.len() == s2.len(),
        forall|j: int|
            0 <= j < s1.len() ==> (((#[trigger] s1[j]).owner == owner) <==> (s2[j].owner
                == owner)),
        forall|j: int| 0 <= j < s1.len() && (#[trigger] s1[j]).owner == owner ==> s1[j] == s2[j],
        forall|i: int, j: int|
            0 <= i < j < s1.len() ==> (#[trigger] s1[i]).owner != (#[trigger] s1[j]).owner,
    ensures
        spec_has_state(s1, owner) == spec_has_state(s2, owner),
        spec_has_state(s1, owner) ==> spec_state_entry(s1, owner) == spec_state_entry(s2, owner),
{
    if spec_has_state(s1, owner) {
        let i1 = choose|i: int| 0 <= i < s1.len() && (#[trigger] s1[i]).owner == owner;
        assert(s2[i1].owner == owner);
        assert(spec_has_state(s2, owner));
        let i2 = choose|i: int| 0 <= i < s2.len() && (#[trigger] s2[i]).owner == owner;
        assert(s1[i2].owner == owner);
        if i1 != i2 {
            assert(false);
        }
    } else if spec_has_state(s2, owner) {
        let i2 = choose|i: int| 0 <= i < s2.len() && (#[trigger] s2[i]).owner == owner;
        assert(s1[i2].owner == owner);
    }
}

/// The session. The three columns are association lists; the well-
/// formedness invariant keeps their keys distinct, so every lookup is
/// determined.
pub struct World {
    pub slots: Vec<Slot>,
    pub props: Vec<PropEntry>,
    pub states: Vec<StateEntry>,
    pub dynamics: Vec<DynEntry>,
    pub default_mode: DefaultTickMode,
}

impl World {
    /// Distinct keys per column, well-formed binding sets, well-formed
    /// filter states and property values.
    pub open spec fn wf(&self) -> bool {
        &&& forall|i: int, j: int|
            0 <= i < j < self.props@.len() ==> !((#[trigger] self.props@[i]).owner == (
            #[trigger] self.props@[j]).owner && self.props@[i].key == self.props@[j].key)
        &&& forall|i: int, j: int|
            0 <= i < j < self.states@.len() ==> (#[trigger] self.states@[i]).owner != (
            #[trigger] self.states@[j]).owner
        &&& forall|i: int, j: int|
            0 <= i < j < self.dynamics@.len() ==> (#[trigger] self.dynamics@[i]).owner != (
            #[trigger] self.dynamics@[j]).owner
        &&& forall|i: int| 0 <= i < self.dynamics@.len() ==> (#[trigger] self.dynamics@[i]).dynamics.wf()
        &&& forall|i: int| 0 <= i < self.states@.len() ==> (#[trigger] self.states@[i]).state.wf()
        &&& forall|i: int| 0 <= i < self.props@.len() ==> (#[trigger] self.props@[i]).value.wf()
    }

    /// An empty session with the Stable strategy as default.
    pub fn new() -> (r: Self)
        ensures
            r.wf(),
            r.slots@.len() == 0,
            r.props@.len() == 0,
            r.states@.len() == 0,
            r.dynamics@.len() == 0,
            r.default_mode.0 == TickMode::Stable,
    {
        World {
            slots: Vec::new(),
            props: Vec::new(),
            states: Vec::new(),
            dynamics: Vec::new(),
            default_mode: DefaultTickMode(TickMode::Stable),
        }
    }

    /// The identity refers to a record that currently exists.
    pub open spec fn spec_valid(&self, e: Entity) -> bool {
        spec_valid_in(self.slots@, e)
    }

    /// Runtime form of `spec_valid`.
    pub fn valid(&self, e: Entity) -> (b: bool)
        ensures
            b == self.spec_valid(e),
    {
        e.index < self.slots.len() && self.slots[e.index].live && self.slots[e.index].generation
            == e.generation
    }

    /// Create a record: the first dead slot is brought back with its
    /// bumped generation, or a fresh slot is appended. The returned
    /// identity was not valid before the call, and no column is touched.
    #[verifier::loop_isolation(false)]
    pub fn spawn(&mut self) -> (e: Entity)
        requires
            old(self).wf(),
        ensures
            final(self).wf(),
            final(self).spec_valid(e),
            !old(self).spec_valid(e),
            (e.index as int) < final(self).slots@.len(),
            final(self).slots@.len() >= old(self).slots@.len(),
            forall|i: int|
                0 <= i < old(self).slots@.len() && i != e.index as int ==> final(self).slots@[i]
                    == old(self).slots@[i],
            final(self).props == old(self).props,
            final(self).states == old(self).states,
            final(self).dynamics == old(self).dynamics,
            final(self).default_mode == old(self).default_mode,
    {
        let mut i: usize = 0;
        while i < self.slots.len()
            invariant
                0 <= i <= self.slots@.len(),
                forall|j: int| 0 <= j < i ==> (#[trigger] self.slots@[j]).live,
                self == old(self),
            decreases self.slots@.len() - i,
        {
            if !self.slots[i].live {
                let g: u64 = self.slots[i].generation;
                self.slots.set(i, Slot { live: true, generation: g });
                return Entity { index: i, generation: g };
            }
            i = i + 1;
        }
        let n: usize = self.slots.len();
        self.slots.push(Slot { live: true, generation: 0 });
        Entity { index: n, generation: 0 }
    }

    /// Destroy a record: its slot goes dead and its generation is bumped,
    /// so every kept identity of it goes stale. Destroying an already
    /// invalid identity does nothing. No column is touched: entries owned
    /// by the destroyed record become unreachable.
    pub fn despawn(&mut self, e: Entity)
        requires
            old(self).wf(),
        ensures
            final(self).wf(),
            !final(self).spec_valid(e),
            final(self).slots@.len() == old(self).slots@.len(),
            forall|i: int|
                0 <= i < old(self).slots@.len() && i != e.index as int ==> final(self).slots@[i]
                    == old(self).slots@[i],
            old(self).spec_valid(e) ==> !final(self).slots@[e.index as int].live,
            !old(self).spec_valid(e) ==> final(self).slots == old(self).slots,
            final(self).props == old(self).props,
            final(self).states == old(self).states,
            final(self).dynamics == old(self).dynamics,
            final(self).default_mode == old(self).default_mode,
    {
        if self.valid(e) {
            let g: u64 = self.slots[e.index].generation;
            let ng: u64 = if g == u64::MAX {
                0
            } else {
                g + 1
            };
            self.slots.set(e.index, Slot { live: false, generation: ng });
        }
    }

    /// The value of a record's property, when the record exists and has
    /// it.
    pub fn get_prop(&self, e: Entity, key: u64) -> (r: Option<AnimValue>)
        requires
            self.wf(),
        ensures
            match r {
                Some(v) => self.spec_valid(e) && spec_has_prop(self.props@, e, key) && v
                    == spec_prop_value(self.props@, e, key),
                None => !(self.spec_valid(e) && spec_has_prop(self.props@, e, key)),
            },
    {
        if !self.valid(e) {
            return None;
        }
        match self.find_prop_index(e, key) {
            Some(i) => Some(self.props[i].value),
            None => None,
        }
    }

    /// Index of the property entry for this pair, if any.
    #[verifier::loop_isolation(false)]
    fn find_prop_index(&self, owner: Entity, key: u64) -> (r: Option<usize>)
        requires
            self.wf(),
        ensures
            match r {
                Some(i) => (i as int) < self.props@.len() && self.props@[i as int].owner == owner
                    && self.props@[i as int].key == key && spec_has_prop(self.props@, owner, key)
                    && spec_prop_value(self.props@, owner, key) == self.props@[i as int].value,
                None => !spec_has_prop(self.props@, owner, key),
            },
    {
        let mut i: usize = 0;
        while i < self.props.len()
            invariant
                0 <= i <= self.props@.len(),
                forall|j: int|
                    0 <= j < i ==> !((#[trigger] self.props@[j]).owner == owner
                        && self.props@[j].key == key),
            decreases self.props@.len() - i,
        {
            if self.props[i].owner == owner && self.props[i].key == key {
                proof {
                    let s = self.props@;
                    assert(spec_has_prop(s, owner, key));
                    let ci = choose|j: int|
                        0 <= j < s.len() && (#[trigger] s[j]).owner == owner && s[j].key == key;
                    if ci != i as int {
                        assert(false);
                    }
                }
                return Some(i);
            }
            i = i + 1;
        }
        None
    }

    /// Index of the filter entry for this owner, if any.
    #[verifier::loop_isolation(false)]
    fn find_state_index(&self, owner: Entity) -> (r: Option<usize>)
        requires
            self.wf(),
        ensures
            match r {
                Some(i) => (i as int) < self.states@.len() && self.states@[i as int].owner == owner
                    && spec_has_state(self.states@, owner) && spec_state_entry(
                    self.states@,
                    owner,
                ) == self.states@[i as int],
                None => !spec_has_state(self.states@, owner),
            },
    {
        let mut i: usize = 0;
        while i < self.states.len()
            invariant
                0 <= i <= self.states@.len(),
                forall|j: int| 0 <= j < i ==> (#[trigger] self.states@[j]).owner != owner,
            decreases self.states@.len() - i,
        {
            if self.states[i].owner == owner {
                proof {
                    let s = self.states@;
                    assert(spec_has_state(s, owner));
                    let ci = choose|j: int| 0 <= j < s.len() && (#[trigger] s[j]).owner == owner;
                    if ci != i as int {
                        assert(false);
                    }
                }
                return Some(i);
            }
            i = i + 1;
        }
        None
    }

    /// Index of the binding-set entry for this owner, if any.
    #[verifier::loop_isolation(false)]
    fn find_dyn_index(&self, owner: Entity) -> (r: Option<usize>)
        requires
            self.wf(),
        ensures
            match r {
                Some(i) => (i as int) < self.dynamics@.len() && self.dynamics@[i as int].owner
                    == owner && spec_has_dyn(self.dynamics@, owner) && spec_dyn_index(
                    self.dynamics@,
                    owner,
                ) == i as int,
                None => !spec_has_dyn(self.dynamics@, owner),
            },
    {
        let mut i: usize = 0;
        while i < self.dynamics.len()
            invariant
                0 <= i <= self.dynamics@.len(),
                forall|j: int| 0 <= j < i ==> (#[trigger] self.dynamics@[j]).owner != owner,
            decreases self.dynamics@.len() - i,
        {
            if self.dynamics[i].owner == owner {
                proof {
                    let s = self.dynamics@;
                    assert(spec_has_dyn(s, owner));
                    let ci = choose|j: int| 0 <= j < s.len() && (#[trigger] s[j]).owner == owner;
                    if ci != i as int {
                        assert(false);
                    }
                }
                return Some(i);
            }
            i = i + 1;
        }
        None
    }

    /// Give a record an animatable property, or overwrite the one it has:
    /// the write-site every binding of this (record, kind) pair feeds.
    /// Fails (returning false, changing nothing) when the record does not
    /// exist. Every other property of every record is untouched.
    #[verifier::loop_isolation(false)]
    pub fn insert_prop(&mut self, e: Entity, key: u64, v: AnimValue) -> (ok: bool)
        requires
            old(self).wf(),
            v.wf(),
        ensures
            final(self).wf(),
            ok == old(self).spec_valid(e),
            !ok ==> *final(self) == *old(self),
            ok ==> spec_has_prop(final(self).props@, e, key) && spec_prop_value(
                final(self).props@,
                e,
                key,
            ) == v,
            forall|o: Entity, k: u64|
                !(o == e && k == key) ==> #[trigger] spec_has_prop(final(self).props@, o, k)
                    == spec_has_prop(old(self).props@, o, k),
            forall|o: Entity, k: u64|
                !(o == e && k == key) && spec_has_prop(old(self).props@, o, k)
                    ==> #[trigger] spec_prop_value(final(self).props@, o, k) == spec_prop_value(
                    old(self).props@,
                    o,
                    k,
                ),
            final(self).slots == old(self).slots,
            final(self).states == old(self).states,
            final(self).dynamics == old(self).dynamics,
            final(self).default_mode == old(self).default_mode,
    {
        if !self.valid(e) {
            return false;
        }
        let pe = PropEntry { owner: e, key, value: v };
        match self.find_prop_index(e, key) {
            Some(i) => {
                self.props.set(i, pe);
                proof {
                    let s1 = old(self).props@;
                    let s2 = self.props@;
                    assert(s2 == s1.update(i as int, pe));
                    assert(s2[i as int].owner == e && s2[i as int].key == key);
                    assert(spec_has_prop(s2, e, key));
                    let ci = choose|j: int|
                        0 <= j < s2.len() && (#[trigger] s2[j]).owner == e && s2[j].key == key;
                    if ci != i as int {
                        assert(s1[ci].owner == e && s1[ci].key == key);
                        assert(false);
                    }
                    assert forall|o: Entity, k: u64| !(o == e && k == key) implies #[trigger]
                    spec_has_prop(s2, o, k) == spec_has_prop(s1, o, k) by {
                        lemma_prop_lookup_eq(s1, s2, o, k);
                    }
                    assert forall|o: Entity, k: u64|
                        !(o == e && k == key) && spec_has_prop(s1, o, k) implies #[trigger]
                    spec_prop_value(s2, o, k) == spec_prop_value(s1, o, k) by {
                        lemma_prop_lookup_eq(s1, s2, o, k);
                    }
                }
            },
            None => {
                self.props.push(pe);
                proof {
                    let s1 = old(self).props@;
                    let s2 = self.props@;
                    assert(s2 == s1.push(pe));
                    assert(s2[s1.len() as int].owner == e && s2[s1.len() as int].key == key);
                    assert(spec_has_prop(s2, e, key));
                    let ci = choose|j: int|
                        0 <= j < s2.len() && (#[trigger] s2[j]).owner == e && s2[j].key == key;
                    if ci != s1.len() as int {
                        assert(s1[ci].owner == e && s1[ci].key == key);
                        assert(false);
                    }
                    assert forall|o: Entity, k: u64| !(o == e && k == key) implies #[trigger]
                    spec_has_prop(s2, o, k) == spec_has_prop(s1, o, k) by {
                        if spec_has_prop(s1, o, k) {
                            let j = choose|j: int|
                                0 <= j < s1.len() && (#[trigger] s1[j]).owner == o && s1[j].key
                                    == k;
                            assert(s2[j].owner == o && s2[j].key == k);
                        } else if spec_has_prop(s2, o, k) {
                            let j = choose|j: int|
                                0 <= j < s2.len() && (#[trigger] s2[j]).owner == o && s2[j].key
                                    == k;
                            assert(s1[j].owner == o && s1[j].key == k);
                        }
                    }
                    assert forall|o: Entity, k: u64|
                        !(o == e && k == key) && spec_has_prop(s1, o, k) implies #[trigger]
                    spec_prop_value(s2, o, k) == spec_prop_value(s1, o, k) by {
                        let j = choose|j: int|
                            0 <= j < s1.len() && (#[trigger] s1[j]).owner == o && s1[j].key == k;
                        assert(s2[j].owner == o && s2[j].key == k);
                        let j2 = choose|j2: int|
                            0 <= j2 < s2.len() && (#[trigger] s2[j2]).owner == o && s2[j2].key
                                == k;
                        if j2 != j {
                            assert(false);
                        }
                    }
                }
            },
        }
        true
    }
}


impl World {
    /// Replace the filter entry at `i` with one of the same owner.
    fn set_state_at(&mut self, i: usize, nse: StateEntry)
        requires
            old(self).wf(),
            (i as int) < old(self).states@.len(),
            old(self).states@[i as int].owner == nse.owner,
            nse.state.wf(),
        ensures
            final(self).wf(),
            final(self).states@ == old(self).states@.update(i as int, nse),
            spec_has_state(final(self).states@, nse.owner),
            spec_state_entry(final(self).states@, nse.owner) == nse,
            forall|o: Entity|
                o != nse.owner ==> #[trigger] spec_has_state(final(self).states@, o)
                    == spec_has_state(old(self).states@, o),
            forall|o: Entity|
                o != nse.owner && spec_has_state(old(self).states@, o)
                    ==> #[trigger] spec_state_entry(final(self).states@, o) == spec_state_entry(
                    old(self).states@,
                    o,
                ),
            final(self).slots == old(self).slots,
            final(self).props == old(self).props,
            final(self).dynamics == old(self).dynamics,
            final(self).default_mode == old(self).default_mode,
    {
        self.states.set(i, nse);
        proof {
            let s1 = old(self).states@;
            let s2 = self.states@;
            assert(s2 == s1.update(i as int, nse));
            assert(s2[i as int].owner == nse.owner);
            assert(spec_has_state(s2, nse.owner));
            let ci = choose|j: int| 0 <= j < s2.len() && (#[trigger] s2[j]).owner == nse.owner;
            if ci != i as int {
                assert(s1[ci].owner == nse.owner);
                assert(false);
            }
            assert forall|o: Entity| o != nse.owner implies #[trigger] spec_has_state(s2, o)
                == spec_has_state(s1, o) by {
                lemma_state_lookup_eq(s1, s2, o);
            }
            assert forall|o: Entity| o != nse.owner && spec_has_state(s1, o) implies #[trigger]
            spec_state_entry(s2, o) == spec_state_entry(s1, o) by {
                lemma_state_lookup_eq(s1, s2, o);
            }
        }
    }

    /// Install or replace the filter entry of `se.owner`.
    fn put_state_entry(&mut self, se: StateEntry)
        requires
            old(self).wf(),
            se.state.wf(),
        ensures
            final(self).wf(),
            spec_has_state(final(self).states@, se.owner),
            spec_state_entry(final(self).states@, se.owner) == se,
            forall|o: Entity|
                o != se.owner ==> #[trigger] spec_has_state(final(self).states@, o)
                    == spec_has_state(old(self).states@, o),
            forall|o: Entity|
                o != se.owner && spec_has_state(old(self).states@, o)
                    ==> #[trigger] spec_state_entry(final(self).states@, o) == spec_state_entry(
                    old(self).states@,
                    o,
                ),
            final(self).slots == old(self).slots,
            final(self).props == old(self).props,
            final(self).dynamics == old(self).dynamics,
            final(self).default_mode == old(self).default_mode,
    {
        match self.find_state_index(se.owner) {
            Some(i) => {
                self.set_state_at(i, se);
            },
            None => {
                self.states.push(se);
                proof {
                    let s1 = old(self).states@;
                    let s2 = self.states@;
                    assert(s2 == s1.push(se));
                    assert(s2[s1.len() as int].owner == se.owner);
                    assert(spec_has_state(s2, se.owner));
                    let ci = choose|j: int|
                        0 <= j < s2.len() && (#[trigger] s2[j]).owner == se.owner;
                    if ci != s1.len() as int {
                        assert(s1[ci].owner == se.owner);
                        assert(false);
                    }
                    assert forall|o: Entity| o != se.owner implies #[trigger] spec_has_state(
                        s2,
                        o,
                    ) == spec_has_state(s1, o) by {
                        if spec_has_state(s1, o) {
                            let j = choose|j: int|
                                0 <= j < s1.len() && (#[trigger] s1[j]).owner == o;
                            assert(s2[j].owner == o);
                        } else if spec_has_state(s2, o) {
                            let j = choose|j: int|
                                0 <= j < s2.len() && (#[trigger] s2[j]).owner == o;
                            assert(s1[j].owner == o);
                        }
                    }
                    assert forall|o: Entity|
                        o != se.owner && spec_has_state(s1, o) implies #[trigger] spec_state_entry(
                        s2,
                        o,
                    ) == spec_state_entry(s1, o) by {
                        let j = choose|j: int| 0 <= j < s1.len() && (#[trigger] s1[j]).owner == o;
                        assert(s2[j].owner == o);
                        let j2 = choose|j2: int|
                            0 <= j2 < s2.len() && (#[trigger] s2[j2]).owner == o;
                        if j2 != j {
                            assert(false);
                        }
                    }
                }
            },
        }
    }

    /// Create a filter: a fresh record whose state starts at `initial`
    /// with rate zero, driven by the session's default integration
    /// strategy, with no producer bound.
    pub fn new_filter(&mut self, initial: AnimValue, params: DynamicsParams) -> (h: AnimHandle)
        requires
            old(self).wf(),
            initial.wf(),
            params.wf(),
        ensures
            final(self).wf(),
            final(self).spec_valid(h.entity),
            !old(self).spec_valid(h.entity),
            spec_has_state(final(self).states@, h.entity),
            spec_state_entry(final(self).states@, h.entity) == (StateEntry {
                owner: h.entity,
                state: DynamicsState {
                    target: initial,
                    prev_target: initial,
                    current: initial,
                    d_current: crate::value::spec_vzero(initial.dim),
                    params,
                },
                mode: old(self).default_mode.0,
                source: None,
            }),
            forall|o: Entity|
                o != h.entity ==> #[trigger] spec_has_state(final(self).states@, o)
                    == spec_has_state(old(self).states@, o),
            forall|o: Entity|
                o != h.entity && spec_has_state(old(self).states@, o)
                    ==> #[trigger] spec_state_entry(final(self).states@, o) == spec_state_entry(
                    old(self).states@,
                    o,
                ),
            final(self).props == old(self).props,
            final(self).dynamics == old(self).dynamics,
            final(self).default_mode == old(self).default_mode,
    {
        let e = self.spawn();
        let st = DynamicsState::new(initial, params);
        let mode = self.default_mode.0;
        self.put_state_entry(StateEntry { owner: e, state: st, mode, source: None });
        AnimHandle::new(e)
    }

    /// Create a filter that is driven by a producer: a fresh record whose
    /// target is refreshed from `source` every Read stage, ticked with the
    /// Pole-Matching strategy.
    pub fn animate_value(
        &mut self,
        initial: AnimValue,
        params: DynamicsParams,
        source: DynamicsSource,
    ) -> (h: AnimHandle)
        requires
            old(self).wf(),
            initial.wf(),
            params.wf(),
        ensures
            final(self).wf(),
            final(self).spec_valid(h.entity),
            !old(self).spec_valid(h.entity),
            spec_has_state(final(self).states@, h.entity),
            spec_state_entry(final(self).states@, h.entity) == (StateEntry {
                owner: h.entity,
                state: DynamicsState {
                    target: initial,
                    prev_target: initial,
                    current: initial,
                    d_current: crate::value::spec_vzero(initial.dim),
                    params,
                },
                mode: TickMode::PoleMatching,
                source: Some(source),
            }),
            forall|o: Entity|
                o != h.entity ==> #[trigger] spec_has_state(final(self).states@, o)
                    == spec_has_state(old(self).states@, o),
            forall|o: Entity|
                o != h.entity && spec_has_state(old(self).states@, o)
                    ==> #[trigger] spec_state_entry(final(self).states@, o) == spec_state_entry(
                    old(self).states@,
                    o,
                ),
            final(self).props == old(self).props,
            final(self).dynamics == old(self).dynamics,
            final(self).default_mode == old(self).default_mode,
    {
        let e = self.spawn();
        let st = DynamicsState::new(initial, params);
        self.put_state_entry(
            StateEntry { owner: e, state: st, mode: TickMode::PoleMatching, source: Some(source) },
        );
        AnimHandle::new(e)
    }

    /// Drive a filter's target directly (the way targets move when no
    /// producer is bound). Fails, changing nothing, when the handle is
    /// stale, the filter is gone, or the value's dimension disagrees.
    pub fn set_target(&mut self, h: AnimHandle, v: AnimValue) -> (ok: bool)
        requires
            old(self).wf(),
            v.wf(),
        ensures
            final(self).wf(),
            ok == (old(self).spec_valid(h.entity) && spec_has_state(old(self).states@, h.entity)
                && spec_state_entry(old(self).states@, h.entity).state.target.dim == v.dim),
            !ok ==> *final(self) == *old(self),
            ok ==> spec_has_state(final(self).states@, h.entity) && spec_state_entry(
                final(self).states@,
                h.entity,
            ) == (StateEntry {
                state: DynamicsState {
                    target: v,
                    ..spec_state_entry(old(self).states@, h.entity).state
                },
                ..spec_state_entry(old(self).states@, h.entity)
            }),
            forall|o: Entity|
                o != h.entity ==> #[trigger] spec_has_state(final(self).states@, o)
                    == spec_has_state(old(self).states@, o),
            forall|o: Entity|
                o != h.entity && spec_has_state(old(self).states@, o)
                    ==> #[trigger] spec_state_entry(final(self).states@, o) == spec_state_entry(
                    old(self).states@,
                    o,
                ),
            final(self).slots == old(self).slots,
            final(self).props == old(self).props,
            final(self).dynamics == old(self).dynamics,
            final(self).default_mode == old(self).default_mode,
    {
        if !self.valid(h.entity) {
            return false;
        }
        match self.find_state_index(h.entity) {
            Some(i) => {
                let se = self.states[i];
                if se.state.target.dim != v.dim {
                    return false;
                }
                let nse = StateEntry { state: DynamicsState { target: v, ..se.state }, ..se };
                self.set_state_at(i, nse);
                true
            },
            None => false,
        }
    }

    /// Bind a producer to a filter: every Read stage its target is
    /// refreshed from that record's property. Fails, changing nothing,
    /// when the handle is stale or the filter is gone.
    pub fn bind_source(&mut self, h: AnimHandle, source: DynamicsSource) -> (ok: bool)
        requires
            old(self).wf(),
        ensures
            final(self).wf(),
            ok == (old(self).spec_valid(h.entity) && spec_has_state(old(self).states@, h.entity)),
            !ok ==> *final(self) == *old(self),
            ok ==> spec_has_state(final(self).states@, h.entity) && spec_state_entry(
                final(self).states@,
                h.entity,
            ) == (StateEntry {
                source: Some(source),
                ..spec_state_entry(old(self).states@, h.entity)
            }),
            forall|o: Entity|
                o != h.entity ==> #[trigger] spec_has_state(final(self).states@, o)
                    == spec_has_state(old(self).states@, o),
            forall|o: Entity|
                o != h.entity && spec_has_state(old(self).states@, o)
                    ==> #[trigger] spec_state_entry(final(self).states@, o) == spec_state_entry(
                    old(self).states@,
                    o,
                ),
            final(self).slots == old(self).slots,
            final(self).props == old(self).props,
            final(self).dynamics == old(self).dynamics,
            final(self).default_mode == old(self).default_mode,
    {
        if !self.valid(h.entity) {
            return false;
        }
        match self.find_state_index(h.entity) {
            Some(i) => {
                let se = self.states[i];
                let nse = StateEntry { source: Some(source), ..se };
                self.set_state_at(i, nse);
                true
            },
            None => false,
        }
    }

    /// The state of the filter behind a handle, when the record still
    /// exists and still carries one.
    pub fn filter_state(&self, h: AnimHandle) -> (r: Option<DynamicsState>)
        requires
            self.wf(),
        ensures
            match r {
                Some(st) => self.spec_valid(h.entity) && spec_has_state(self.states@, h.entity)
                    && st == spec_state_entry(self.states@, h.entity).state,
                None => !(self.spec_valid(h.entity) && spec_has_state(self.states@, h.entity)),
            },
    {
        if !self.valid(h.entity) {
            return None;
        }
        match self.find_state_index(h.entity) {
            Some(i) => Some(self.states[i].state),
            None => None,
        }
    }
}


/// The binding list of the record's binding-set entry.
pub open spec fn spec_dyn_bindings(s: Seq<DynEntry>, owner: Entity) -> Seq<Binding> {
    s[spec_dyn_index(s, owner)].dynamics.bindings@
}

/// Binding-set lookups agree on two columns whose entries agree wherever
/// the owner occurs.
proof fn lemma_dyn_lookup_eq(s1: Seq<DynEntry>, s2: Seq<DynEntry>, owner: Entity)
    requires
        s1.len() == s2.len(),
        forall|j: int|
            0 <= j < s1.len() ==> (((#[trigger] s1[j]).owner == owner) <==> (s2[j].owner
                == owner)),
        forall|j: int| 0 <= j < s1.len() && (#[trigger] s1[j]).owner == owner ==> s1[j] == s2[j],
        forall|i: int, j: int|
            0 <= i < j < s1.len() ==> (#[trigger] s1[i]).owner != (#[trigger] s1[j]).owner,
    ensures
        spec_has_dyn(s1, owner) == spec_has_dyn(s2, owner),
        spec_has_dyn(s1, owner) ==> spec_dyn_bindings(s1, owner) == spec_dyn_bindings(s2, owner),
{
    if spec_has_dyn(s1, owner) {
        let i1 = choose|i: int| 0 <= i < s1.len() && (#[trigger] s1[i]).owner == owner;
        assert(s2[i1].owner == owner);
        assert(spec_has_dyn(s2, owner));
        let i2 = choose|i: int| 0 <= i < s2.len() && (#[trigger] s2[i]).owner == owner;
        assert(s1[i2].owner == owner);
        if i1 != i2 {
            assert(false);
        }
        assert(spec_dyn_index(s1, owner) == i2 || spec_dyn_index(s1, owner) == i1);
        assert(spec_dyn_index(s2, owner) == i2 || spec_dyn_index(s2, owner) == i1);
    } else if spec_has_dyn(s2, owner) {
        let i2 = choose|i: int| 0 <= i < s2.len() && (#[trigger] s2[i]).owner == owner;
        assert(s1[i2].owner == owner);
    }
}

impl World {
    /// Bind a destination: after every Tick stage, the property `key` of
    /// `owner` is overwritten with the `current` of the filter behind
    /// `source`. Rebinding the same (destination, kind) pair replaces the
    /// previous binding. Fails, changing nothing, when the destination
    /// record does not exist; a stale `source` is tolerated and makes the
    /// Write stage skip this binding.
    pub fn bind_destination(&mut self, owner: Entity, key: u64, source: AnimHandle) -> (ok: bool)
        requires
            old(self).wf(),
        ensures
            final(self).wf(),
            ok == old(self).spec_valid(owner),
            !ok ==> *final(self) == *old(self),
            ok ==> spec_has_dyn(final(self).dynamics@, owner) && spec_has_binding(
                spec_dyn_bindings(final(self).dynamics@, owner),
                key,
            ) && spec_binding(spec_dyn_bindings(final(self).dynamics@, owner), key) == source,
            ok && spec_has_dyn(old(self).dynamics@, owner) ==> forall|k: u64|
                k != key ==> #[trigger] spec_has_binding(
                    spec_dyn_bindings(final(self).dynamics@, owner),
                    k,
                ) == spec_has_binding(spec_dyn_bindings(old(self).dynamics@, owner), k)
                    && (spec_has_binding(spec_dyn_bindings(old(self).dynamics@, owner), k)
                    ==> spec_binding(spec_dyn_bindings(final(self).dynamics@, owner), k)
                    == spec_binding(spec_dyn_bindings(old(self).dynamics@, owner), k)),
            forall|o: Entity|
                o != owner ==> #[trigger] spec_has_dyn(final(self).dynamics@, o) == spec_has_dyn(
                    old(self).dynamics@,
                    o,
                ),
            forall|o: Entity|
                o != owner && spec_has_dyn(old(self).dynamics@, o) ==> #[trigger] spec_dyn_bindings(
                    final(self).dynamics@,
                    o,
                ) == spec_dyn_bindings(old(self).dynamics@, o),
            final(self).slots == old(self).slots,
            final(self).props == old(self).props,
            final(self).states == old(self).states,
            final(self).default_mode == old(self).default_mode,
    {
        if !self.valid(owner) {
            return false;
        }
        match self.find_dyn_index(owner) {
            Some(i) => {
                let mut de = self.dynamics.remove(i);
                de.dynamics.add(key, source);
                self.dynamics.insert(i, de);
                proof {
                    let s1 = old(self).dynamics@;
                    let s2 = self.dynamics@;
                    assert(s2 =~= s1.update(i as int, s2[i as int]));
                    let de2 = s2[i as int];
                    assert(de2.owner == owner);
                    assert(spec_has_dyn(s2, owner));
                    let ci = choose|j: int| 0 <= j < s2.len() && (#[trigger] s2[j]).owner == owner;
                    if ci != i as int {
                        assert(s1[ci].owner == owner);
                        assert(false);
                    }
                    assert(spec_dyn_index(s2, owner) == i as int);
                    assert(spec_dyn_index(s1, owner) == i as int) by {
                        let cj = choose|j: int|
                            0 <= j < s1.len() && (#[trigger] s1[j]).owner == owner;
                        if cj != i as int {
                            assert(s1[cj].owner == owner);
                            assert(false);
                        }
                    }
                    assert forall|o: Entity| o != owner implies #[trigger] spec_has_dyn(s2, o)
                        == spec_has_dyn(s1, o) by {
                        lemma_dyn_lookup_eq(s1, s2, o);
                    }
                    assert forall|o: Entity| o != owner && spec_has_dyn(s1, o) implies #[trigger]
                    spec_dyn_bindings(s2, o) == spec_dyn_bindings(s1, o) by {
                        lemma_dyn_lookup_eq(s1, s2, o);
                    }
                }
                true
            },
            None => {
                let mut d = Dynamics::new();
                d.add(key, source);
                self.dynamics.push(DynEntry { owner, dynamics: d });
                proof {
                    let s1 = old(self).dynamics@;
                    let s2 = self.dynamics@;
                    assert(s2[s1.len() as int].owner == owner);
                    assert(spec_has_dyn(s2, owner));
                    let ci = choose|j: int| 0 <= j < s2.len() && (#[trigger] s2[j]).owner == owner;
                    if ci != s1.len() as int {
                        assert(s1[ci].owner == owner);
                        assert(false);
                    }
                    assert(spec_dyn_index(s2, owner) == s1.len() as int);
                    assert forall|o: Entity| o != owner implies #[trigger] spec_has_dyn(s2, o)
                        == spec_has_dyn(s1, o) by {
                        if spec_has_dyn(s1, o) {
                            let j = choose|j: int|
                                0 <= j < s1.len() && (#[trigger] s1[j]).owner == o;
                            assert(s2[j].owner == o);
                        } else if spec_has_dyn(s2, o) {
                            let j = choose|j: int|
                                0 <= j < s2.len() && (#[trigger] s2[j]).owner == o;
                            assert(s1[j].owner == o);
                        }
                    }
                    assert forall|o: Entity| o != owner && spec_has_dyn(s1, o) implies #[trigger]
                    spec_dyn_bindings(s2, o) == spec_dyn_bindings(s1, o) by {
                        let j = choose|j: int| 0 <= j < s1.len() && (#[trigger] s1[j]).owner == o;
                        assert(s2[j].owner == o);
                        let j2 = choose|j2: int|
                            0 <= j2 < s2.len() && (#[trigger] s2[j2]).owner == o;
                        if j2 != j {
                            assert(false);
                        }
                        assert(spec_dyn_index(s1, o) == j2 || spec_dyn_index(s1, o) == j);
                        assert(spec_dyn_index(s2, o) == j2 || spec_dyn_index(s2, o) == j);
                    }
                }
                true
            },
        }
    }

    /// Remove the binding on this (destination, kind) pair, if there is
    /// one; reports whether one was removed. Everything else is
    /// untouched.
    pub fn unbind_destination(&mut self, owner: Entity, key: u64) -> (removed: bool)
        requires
            old(self).wf(),
        ensures
            final(self).wf(),
            removed == (old(self).spec_valid(owner) && spec_has_dyn(old(self).dynamics@, owner)
                && spec_has_binding(spec_dyn_bindings(old(self).dynamics@, owner), key)),
            !removed ==> *final(self) == *old(self),
            removed ==> spec_has_dyn(final(self).dynamics@, owner) && !spec_has_binding(
                spec_dyn_bindings(final(self).dynamics@, owner),
                key,
            ),
            removed ==> forall|k: u64|
                k != key ==> #[trigger] spec_has_binding(
                    spec_dyn_bindings(final(self).dynamics@, owner),
                    k,
                ) == spec_has_binding(spec_dyn_bindings(old(self).dynamics@, owner), k)
                    && (spec_has_binding(spec_dyn_bindings(old(self).dynamics@, owner), k)
                    ==> spec_binding(spec_dyn_bindings(final(self).dynamics@, owner), k)
                    == spec_binding(spec_dyn_bindings(old(self).dynamics@, owner), k)),
            forall|o: Entity|
                o != owner ==> #[trigger] spec_has_dyn(final(self).dynamics@, o) == spec_has_dyn(
                    old(self).dynamics@,
                    o,
                ),
            forall|o: Entity|
                o != owner && spec_has_dyn(old(self).dynamics@, o) ==> #[trigger] spec_dyn_bindings(
                    final(self).dynamics@,
                    o,
                ) == spec_dyn_bindings(old(self).dynamics@, o),
            final(self).slots == old(self).slots,
            final(self).props == old(self).props,
            final(self).states == old(self).states,
            final(self).default_mode == old(self).default_mode,
    {
        if !self.valid(owner) {
            return false;
        }
        match self.find_dyn_index(owner) {
            Some(i) => {
                match self.dynamics[i].dynamics.get(key) {
                    Some(_) => {},
                    None => {
                        return false;
                    },
                }
                let mut de = self.dynamics.remove(i);
                let removed = de.dynamics.remove(key);
                self.dynamics.insert(i, de);
                proof {
                    let s1 = old(self).dynamics@;
                    let s2 = self.dynamics@;
                    assert(s2 =~= s1.update(i as int, s2[i as int]));
                    assert(s2[i as int].owner == owner);
                    assert(spec_has_dyn(s2, owner));
                    let ci = choose|j: int| 0 <= j < s2.len() && (#[trigger] s2[j]).owner == owner;
                    if ci != i as int {
                        assert(s1[ci].owner == owner);
                        assert(false);
                    }
                    assert(spec_dyn_index(s2, owner) == i as int);
                    assert(spec_dyn_index(s1, owner) == i as int) by {
                        let cj = choose|j: int|
                            0 <= j < s1.len() && (#[trigger] s1[j]).owner == owner;
                        if cj != i as int {
                            assert(s1[cj].owner == owner);
                            assert(false);
                        }
                    }
                    assert forall|o: Entity| o != owner implies #[trigger] spec_has_dyn(s2, o)
                        == spec_has_dyn(s1, o) by {
                        lemma_dyn_lookup_eq(s1, s2, o);
                    }
                    assert forall|o: Entity| o != owner && spec_has_dyn(s1, o) implies #[trigger]
                    spec_dyn_bindings(s2, o) == spec_dyn_bindings(s1, o) by {
                        lemma_dyn_lookup_eq(s1, s2, o);
                    }
                }
                removed
            },
            None => false,
        }
    }
}


/// The state advanced one step under the given strategy's coefficients.
pub open spec fn spec_ticked(s: DynamicsState, mode: TickMode, dt: int) -> DynamicsState {
    match mode {
        TickMode::Simple => spec_tick(
            s,
            dt,
            None,
            s.params.k1 as int,
            s.params.k2 as int,
            s.params.k3 as int,
        ),
        TickMode::Stable => spec_tick(
            s,
            dt,
            None,
            s.params.k1 as int,
            spec_stable_k2(s.params.k1 as int, s.params.k2 as int, dt),
            s.params.k3 as int,
        ),
        TickMode::PoleMatching => spec_tick(
            s,
            dt,
            None,
            spec_pole_coeffs(s.params, dt).0,
            spec_pole_coeffs(s.params, dt).1,
            s.params.k3 as int,
        ),
    }
}

/// What the Read stage makes of one filter entry: when its record exists,
/// a producer is bound, the producer's record exists and carries the
/// property, and the dimensions agree, the target becomes that property's
/// value; on any failure the entry (in particular its target) is left
/// unchanged.
pub open spec fn spec_read_entry(
    slots: Seq<Slot>,
    props: Seq<PropEntry>,
    se: StateEntry,
) -> StateEntry {
    if spec_valid_in(slots, se.owner) {
        match se.source {
            Some(src) => if spec_valid_in(slots, src.producer) && spec_has_prop(
                props,
                src.producer,
                src.key,
            ) && spec_prop_value(props, src.producer, src.key).dim == se.state.target.dim {
                StateEntry {
                    state: DynamicsState {
                        target: spec_prop_value(props, src.producer, src.key),
                        ..se.state
                    },
                    ..se
                }
            } else {
                se
            },
            None => se,
        }
    } else {
        se
    }
}

/// What one mode's Tick stage makes of one filter entry: entries of other
/// modes and entries of destroyed records are untouched.
pub open spec fn spec_tick_entry(slots: Seq<Slot>, se: StateEntry, mode: TickMode, dt: int) -> StateEntry {
    if spec_valid_in(slots, se.owner) && se.mode == mode {
        StateEntry { state: spec_ticked(se.state, mode, dt), ..se }
    } else {
        se
    }
}

/// What the whole Tick stage makes of one filter entry: advanced one step
/// under its own strategy, when its record exists.
pub open spec fn spec_tick_any(slots: Seq<Slot>, se: StateEntry, dt: int) -> StateEntry {
    if spec_valid_in(slots, se.owner) {
        StateEntry { state: spec_ticked(se.state, se.mode, dt), ..se }
    } else {
        se
    }
}

/// One filter entry taken through Read and then Tick.
pub open spec fn spec_pass_entry(
    slots: Seq<Slot>,
    props: Seq<PropEntry>,
    se: StateEntry,
    dt: int,
) -> StateEntry {
    spec_tick_any(slots, spec_read_entry(slots, props, se), dt)
}

/// The whole filter column taken through Read and Tick.
pub open spec fn spec_pass_states(
    slots: Seq<Slot>,
    props: Seq<PropEntry>,
    states: Seq<StateEntry>,
    dt: int,
) -> Seq<StateEntry> {
    Seq::new(states.len(), |i: int| spec_pass_entry(slots, props, states[i], dt))
}

/// What the Write stage makes of one property entry: when its record
/// exists, hosts a binding on this property kind, the bound filter's
/// record exists, still carries a filter, and the dimensions agree, the
/// property becomes the filter's `current`; on any failure the write is
/// silently skipped and the entry is unchanged.
pub open spec fn spec_write_entry(
    slots: Seq<Slot>,
    states: Seq<StateEntry>,
    dynamics: Seq<DynEntry>,
    pe: PropEntry,
) -> PropEntry {
    if spec_valid_in(slots, pe.owner) && spec_has_dyn(dynamics, pe.owner) && spec_has_binding(
        spec_dyn_bindings(dynamics, pe.owner),
        pe.key,
    ) {
        let h = spec_binding(spec_dyn_bindings(dynamics, pe.owner), pe.key);
        if spec_valid_in(slots, h.entity) && spec_has_state(states, h.entity) && spec_state_entry(
            states,
            h.entity,
        ).state.current.dim == pe.value.dim {
            PropEntry { value: spec_state_entry(states, h.entity).state.current, ..pe }
        } else {
            pe
        }
    } else {
        pe
    }
}

/// The Read stage ran: every filter entry refreshed from its producer,
/// everything else untouched.
pub open spec fn spec_read_done(w1: World, w2: World) -> bool {
    &&& w2.states@.len() == w1.states@.len()
    &&& forall|i: int|
        0 <= i < w1.states@.len() ==> w2.states@[i] == spec_read_entry(
            w1.slots@,
            w1.props@,
            #[trigger] w1.states@[i],
        )
    &&& w2.slots == w1.slots
    &&& w2.props == w1.props
    &&& w2.dynamics == w1.dynamics
    &&& w2.default_mode == w1.default_mode
}

/// The Tick stage ran: every filter advanced one step under its own
/// strategy, everything else untouched.
pub open spec fn spec_tick_done(w1: World, w2: World, dt: int) -> bool {
    &&& w2.states@.len() == w1.states@.len()
    &&& forall|i: int|
        0 <= i < w1.states@.len() ==> w2.states@[i] == spec_tick_any(
            w1.slots@,
            #[trigger] w1.states@[i],
            dt,
        )
    &&& w2.slots == w1.slots
    &&& w2.props == w1.props
    &&& w2.dynamics == w1.dynamics
    &&& w2.default_mode == w1.default_mode
}

/// The Write stage ran: every bound property overwritten from its filter,
/// everything else untouched.
pub open spec fn spec_write_done(w1: World, w2: World) -> bool {
    &&& w2.props@.len() == w1.props@.len()
    &&& forall|j: int|
        0 <= j < w1.props@.len() ==> w2.props@[j] == spec_write_entry(
            w1.slots@,
            w1.states@,
            w1.dynamics@,
            #[trigger] w1.props@[j],
        )
    &&& w2.slots == w1.slots
    &&& w2.states == w1.states
    &&& w2.dynamics == w1.dynamics
    &&& w2.default_mode == w1.default_mode
}

/// A whole scheduling pass ran: skipped entirely on a non-positive delta,
/// otherwise Read, Tick and Write in that order with a hard barrier
/// between the stages.
pub open spec fn spec_pass_done(w1: World, w2: World, dt: int) -> bool {
    if dt < 1 {
        w2 == w1
    } else {
        &&& w2.states@.len() == w1.states@.len()
        &&& forall|i: int|
            0 <= i < w1.states@.len() ==> w2.states@[i] == spec_pass_entry(
                w1.slots@,
                w1.props@,
                #[trigger] w1.states@[i],
                dt,
            )
        &&& w2.props@.len() == w1.props@.len()
        &&& forall|j: int|
            0 <= j < w1.props@.len() ==> w2.props@[j] == spec_write_entry(
                w1.slots@,
                spec_pass_states(w1.slots@, w1.props@, w1.states@, dt),
                w1.dynamics@,
                #[trigger] w1.props@[j],
            )
        &&& w2.slots == w1.slots
        &&& w2.dynamics == w1.dynamics
        &&& w2.default_mode == w1.default_mode
    }
}

/// The frame guard: a scheduling pass runs only on a positive time delta.
pub fn non_zero_delta(dt: i64) -> (r: bool)
    ensures
        r == (dt >= 1),
{
    dt >= 1
}

/// The three scheduler stages, in their hard order, and the label for the
/// whole guarded pass.
#[derive(Clone, Copy, PartialEq, Eq, Structural, Debug, Hash)]
pub enum DynamicsSet {
    All,
    Read,
    Tick,
    Write,
}

impl World {
    /// Read stage: refresh every producer-driven filter's target. A
    /// producer whose record is gone, no longer carries the property, or
    /// carries one of another dimension leaves its filter's target
    /// unchanged for this frame.
    #[verifier::loop_isolation(false)]
    pub fn update_sources(&mut self)
        requires
            old(self).wf(),
        ensures
            final(self).wf(),
            spec_read_done(*old(self), *final(self)),
    {
        let n: usize = self.states.len();
        let mut i: usize = 0;
        while i < n
            invariant
                0 <= i <= n,
                n == self.states@.len(),
                self.states@.len() == old(self).states@.len(),
                self.slots == old(self).slots,
                self.props == old(self).props,
                self.dynamics == old(self).dynamics,
                self.default_mode == old(self).default_mode,
                self.wf(),
                forall|j: int|
                    0 <= j < i ==> self.states@[j] == spec_read_entry(
                        old(self).slots@,
                        old(self).props@,
                        #[trigger] old(self).states@[j],
                    ),
                forall|j: int| i <= j < n ==> #[trigger] self.states@[j] == old(self).states@[j],
            decreases n - i,
        {
            let se = self.states[i];
            if self.valid(se.owner) {
                match se.source {
                    Some(src) => {
                        match self.get_prop(src.producer, src.key) {
                            Some(v) => {
                                if v.dim == se.state.target.dim {
                                    let nse = StateEntry {
                                        state: DynamicsState { target: v, ..se.state },
                                        ..se
                                    };
                                    self.set_state_at(i, nse);
                                }
                            },
                            None => {},
                        }
                    },
                    None => {},
                }
            }
            i = i + 1;
        }
    }

    /// Tick stage, Simple strategy: advance every Simple-mode filter one
    /// raw step.
    #[verifier::loop_isolation(false)]
    pub fn tick_dynamics_simple(&mut self, dt: i64)
        requires
            dt >= 1,
            old(self).wf(),
        ensures
            final(self).wf(),
            final(self).states@.len() == old(self).states@.len(),
            forall|i: int|
                0 <= i < old(self).states@.len() ==> final(self).states@[i] == spec_tick_entry(
                    old(self).slots@,
                    #[trigger] old(self).states@[i],
                    TickMode::Simple,
                    dt as int,
                ),
            final(self).slots == old(self).slots,
            final(self).props == old(self).props,
            final(self).dynamics == old(self).dynamics,
            final(self).default_mode == old(self).default_mode,
    {
        let n: usize = self.states.len();
        let mut i: usize = 0;
        while i < n
            invariant
                0 <= i <= n,
                n == self.states@.len(),
                self.states@.len() == old(self).states@.len(),
                self.slots == old(self).slots,
                self.props == old(self).props,
                self.dynamics == old(self).dynamics,
                self.default_mode == old(self).default_mode,
                self.wf(),
                forall|j: int|
                    0 <= j < i ==> self.states@[j] == spec_tick_entry(
                        old(self).slots@,
                        #[trigger] old(self).states@[j],
                        TickMode::Simple,
                        dt as int,
                    ),
                forall|j: int| i <= j < n ==> #[trigger] self.states@[j] == old(self).states@[j],
            decreases n - i,
        {
            let se = self.states[i];
            if self.valid(se.owner) && se.mode == TickMode::Simple {
                let mut st = se.state;
                st.tick_simple(dt, None);
                self.set_state_at(i, StateEntry { state: st, ..se });
            }
            i = i + 1;
        }
    }

    /// Tick stage, Stable strategy: advance every Stable-mode filter one
    /// clamped step.
    #[verifier::loop_isolation(false)]
    #[verifier::rlimit(60)]
    pub fn tick_dynamics_stable(&mut self, dt: i64)
        requires
            dt >= 1,
            old(self).wf(),
        ensures
            final(self).wf(),
            final(self).states@.len() == old(self).states@.len(),
            forall|i: int|
                0 <= i < old(self).states@.len() ==> final(self).states@[i] == spec_tick_entry(
                    old(self).slots@,
                    #[trigger] old(self).states@[i],
                    TickMode::Stable,
                    dt as int,
                ),
            final(self).slots == old(self).slots,
            final(self).props == old(self).props,
            final(self).dynamics == old(self).dynamics,
            final(self).default_mode == old(self).default_mode,
    {
        let n: usize = self.states.len();
        let mut i: usize = 0;
        while i < n
            invariant
                0 <= i <= n,
                n == self.states@.len(),
                self.states@.len() == old(self).states@.len(),
                self.slots == old(self).slots,
                self.props == old(self).props,
                self.dynamics == old(self).dynamics,
                self.default_mode == old(self).default_mode,
                self.wf(),
                forall|j: int|
                    0 <= j < i ==> self.states@[j] == spec_tick_entry(
                        old(self).slots@,
                        #[trigger] old(self).states@[j],
                        TickMode::Stable,
                        dt as int,
                    ),
                forall|j: int| i <= j < n ==> #[trigger] self.states@[j] == old(self).states@[j],
            decreases n - i,
        {
            let se = self.states[i];
            if self.valid(se.owner) && se.mode == TickMode::Stable {
                let mut st = se.state;
                st.tick_stable(dt, None);
                self.set_state_at(i, StateEntry { state: st, ..se });
            }
            i = i + 1;
        }
    }

    /// Tick stage, Pole-Matching strategy: advance every
    /// PoleMatching-mode filter one pole-matched step.
    #[verifier::loop_isolation(false)]
    #[verifier::rlimit(60)]
    pub fn tick_dynamics_pole_matching(&mut self, dt: i64)
        requires
            dt >= 1,
            old(self).wf(),
        ensures
            final(self).wf(),
            final(self).states@.len() == old(self).states@.len(),
            forall|i: int|
                0 <= i < old(self).states@.len() ==> final(self).states@[i] == spec_tick_entry(
                    old(self).slots@,
                    #[trigger] old(self).states@[i],
                    TickMode::PoleMatching,
                    dt as int,
                ),
            final(self).slots == old(self).slots,
            final(self).props == old(self).props,
            final(self).dynamics == old(self).dynamics,
            final(self).default_mode == old(self).default_mode,
    {
        let n: usize = self.states.len();
        let mut i: usize = 0;
        while i < n
            invariant
                0 <= i <= n,
                n == self.states@.len(),
                self.states@.len() == old(self).states@.len(),
                self.slots == old(self).slots,
                self.props == old(self).props,
                self.dynamics == old(self).dynamics,
                self.default_mode == old(self).default_mode,
                self.wf(),
                forall|j: int|
                    0 <= j < i ==> self.states@[j] == spec_tick_entry(
                        old(self).slots@,
                        #[trigger] old(self).states@[j],
                        TickMode::PoleMatching,
                        dt as int,
                    ),
                forall|j: int| i <= j < n ==> #[trigger] self.states@[j] == old(self).states@[j],
            decreases n - i,
        {
            let se = self.states[i];
            if self.valid(se.owner) && se.mode == TickMode::PoleMatching {
                let mut st = se.state;
                st.tick_pole_matching(dt, None);
                self.set_state_at(i, StateEntry { state: st, ..se });
            }
            i = i + 1;
        }
    }

    /// Replace the property entry at `j` with one of the same pair.
    fn set_prop_at(&mut self, j: usize, npe: PropEntry)
        requires
            old(self).wf(),
            (j as int) < old(self).props@.len(),
            old(self).props@[j as int].owner == npe.owner,
            old(self).props@[j as int].key == npe.key,
            npe.value.wf(),
        ensures
            final(self).wf(),
            final(self).props@ == old(self).props@.update(j as int, npe),
            final(self).slots == old(self).slots,
            final(self).states == old(self).states,
            final(self).dynamics == old(self).dynamics,
            final(self).default_mode == old(self).default_mode,
    {
        self.props.set(j, npe);
    }

    /// Write stage: for every bound (destination, kind) pair whose
    /// destination record still exists and whose filter can still be
    /// found with the right dimension, overwrite the destination property
    /// with the filter's `current`. Every failed lookup makes that single
    /// write be skipped for this frame, never an error.
    #[verifier::loop_isolation(false)]
    pub fn apply_dynamics(&mut self)
        requires
            old(self).wf(),
        ensures
            final(self).wf(),
            spec_write_done(*old(self), *final(self)),
    {
        let n: usize = self.props.len();
        let mut j: usize = 0;
        while j < n
            invariant
                0 <= j <= n,
                n == self.props@.len(),
                self.props@.len() == old(self).props@.len(),
                self.slots == old(self).slots,
                self.states == old(self).states,
                self.dynamics == old(self).dynamics,
                self.default_mode == old(self).default_mode,
                self.wf(),
                forall|k: int|
                    0 <= k < j ==> self.props@[k] == spec_write_entry(
                        old(self).slots@,
                        old(self).states@,
                        old(self).dynamics@,
                        #[trigger] old(self).props@[k],
                    ),
                forall|k: int| j <= k < n ==> #[trigger] self.props@[k] == old(self).props@[k],
            decreases n - j,
        {
            let pe = self.props[j];
            if self.valid(pe.owner) {
                match self.find_dyn_index(pe.owner) {
                    Some(di) => {
                        match self.dynamics[di].dynamics.get(pe.key) {
                            Some(h) => {
                                if self.valid(h.entity) {
                                    match self.find_state_index(h.entity) {
                                        Some(si) => {
                                            let cur = self.states[si].state.current;
                                            if cur.dim == pe.value.dim {
                                                self.set_prop_at(
                                                    j,
                                                    PropEntry { value: cur, ..pe },
                                                );
                                            }
                                        },
                                        None => {},
                                    }
                                }
                            },
                            None => {},
                        }
                    },
                    None => {},
                }
            }
            j = j + 1;
        }
    }

    /// The whole Tick stage: the three per-strategy passes, in order.
    /// They touch disjoint filters, so together they advance every filter
    /// exactly one step under its own strategy.
    fn tick_all(&mut self, dt: i64)
        requires
            dt >= 1,
            old(self).wf(),
        ensures
            final(self).wf(),
            spec_tick_done(*old(self), *final(self), dt as int),
    {
        self.tick_dynamics_simple(dt);
        self.tick_dynamics_stable(dt);
        self.tick_dynamics_pole_matching(dt);
        proof {
            assert forall|i: int| 0 <= i < old(self).states@.len() implies self.states@[i]
                == spec_tick_any(old(self).slots@, #[trigger] old(self).states@[i], dt as int) by {
                let e0 = old(self).states@[i];
                let slots = old(self).slots@;
                let e1 = spec_tick_entry(slots, e0, TickMode::Simple, dt as int);
                let e2 = spec_tick_entry(slots, e1, TickMode::Stable, dt as int);
                let e3 = spec_tick_entry(slots, e2, TickMode::PoleMatching, dt as int);
                assert(self.states@[i] == e3);
                if spec_valid_in(slots, e0.owner) {
                    match e0.mode {
                        TickMode::Simple => {
                            assert(e1.mode == TickMode::Simple);
                        },
                        TickMode::Stable => {
                            assert(e2.mode == TickMode::Stable);
                        },
                        TickMode::PoleMatching => {
                            assert(e3.state == spec_ticked(e0.state, TickMode::PoleMatching, dt as int));
                        },
                    }
                }
            }
        }
    }

    /// One full scheduling pass: skipped entirely (state bit-for-bit
    /// untouched) when the delta is not positive; otherwise Read, Tick
    /// and Write run in that order, each completing before the next
    /// starts.
    pub fn dynamics_pass(&mut self, dt: i64)
        requires
            old(self).wf(),
        ensures
            final(self).wf(),
            spec_pass_done(*old(self), *final(self), dt as int),
    {
        if !non_zero_delta(dt) {
            return ;
        }
        self.update_sources();
        self.tick_all(dt);
        proof {
            assert(self.states@ =~= spec_pass_states(
                old(self).slots@,
                old(self).props@,
                old(self).states@,
                dt as int,
            ));
        }
        self.apply_dynamics();
    }

    /// Run one scheduler stage by its label, or the whole guarded pass.
    pub fn run_set(&mut self, set: DynamicsSet, dt: i64)
        requires
            old(self).wf(),
            set == DynamicsSet::Tick ==> dt >= 1,
        ensures
            final(self).wf(),
            set == DynamicsSet::All ==> spec_pass_done(*old(self), *final(self), dt as int),
            set == DynamicsSet::Read ==> spec_read_done(*old(self), *final(self)),
            set == DynamicsSet::Tick ==> spec_tick_done(*old(self), *final(self), dt as int),
            set == DynamicsSet::Write ==> spec_write_done(*old(self), *final(self)),
    {
        match set {
            DynamicsSet::All => self.dynamics_pass(dt),
            DynamicsSet::Read => self.update_sources(),
            DynamicsSet::Tick => self.tick_all(dt),
            DynamicsSet::Write => self.apply_dynamics(),
        }
    }
}

/// Binding robustness: a property whose record has been destroyed is left
/// exactly as it was by the Write stage, whatever the bindings say; the
/// stage itself cannot fail, and (by `spec_write_done`) every other
/// property is still correctly updated.
pub proof fn lemma_write_skips_dead(
    slots: Seq<Slot>,
    states: Seq<StateEntry>,
    dynamics: Seq<DynEntry>,
    pe: PropEntry,
)
    requires
        !spec_valid_in(slots, pe.owner),
    ensures
        spec_write_entry(slots, states, dynamics, pe) == pe,
{
}

/// Binding robustness for a destroyed filter: a binding whose source
/// record has been destroyed makes the Write stage leave the destination
/// property exactly as it was.
pub proof fn lemma_write_skips_dead_source(
    slots: Seq<Slot>,
    states: Seq<StateEntry>,
    dynamics: Seq<DynEntry>,
    pe: PropEntry,
)
    requires
        spec_has_dyn(dynamics, pe.owner),
        spec_has_binding(spec_dyn_bindings(dynamics, pe.owner), pe.key),
        !spec_valid_in(slots, spec_binding(spec_dyn_bindings(dynamics, pe.owner), pe.key).entity),
    ensures
        spec_write_entry(slots, states, dynamics, pe) == pe,
{
}


/// A bound write-site that the Write stage would skip this frame: its
/// destination record exists and hosts a binding on the property, but the
/// bound filter's record is gone, carries no filter, or carries one of
/// another dimension.
pub open spec fn spec_write_skipped(
    slots: Seq<Slot>,
    states: Seq<StateEntry>,
    dynamics: Seq<DynEntry>,
    pe: PropEntry,
) -> bool {
    &&& spec_valid_in(slots, pe.owner)
    &&& spec_has_dyn(dynamics, pe.owner)
    &&& spec_has_binding(spec_dyn_bindings(dynamics, pe.owner), pe.key)
    &&& {
        let h = spec_binding(spec_dyn_bindings(dynamics, pe.owner), pe.key);
        !(spec_valid_in(slots, h.entity) && spec_has_state(states, h.entity) && spec_state_entry(
            states,
            h.entity,
        ).state.current.dim == pe.value.dim)
    }
}

/// How many of the first `n` property entries are bound but would be
/// skipped.
pub open spec fn spec_skip_count(
    slots: Seq<Slot>,
    states: Seq<StateEntry>,
    dynamics: Seq<DynEntry>,
    props: Seq<PropEntry>,
    n: int,
) -> int
    decreases n,
{
    if n <= 0 {
        0
    } else {
        spec_skip_count(slots, states, dynamics, props, n - 1) + if spec_write_skipped(
            slots,
            states,
            dynamics,
            props[n - 1],
        ) {
            1int
        } else {
            0int
        }
    }
}

impl World {
    /// The diagnostic hook behind the lenient Write stage: how many
    /// write-sites are bound right now whose write the next Write stage
    /// would silently skip. The stage itself stays lenient; a host that
    /// wants visibility polls this counter.
    #[verifier::loop_isolation(false)]
    pub fn skipped_writes(&self) -> (n: usize)
        requires
            self.wf(),
        ensures
            n as int == spec_skip_count(
                self.slots@,
                self.states@,
                self.dynamics@,
                self.props@,
                self.props@.len() as int,
            ),
    {
        let len: usize = self.props.len();
        let mut n: usize = 0;
        let mut j: usize = 0;
        while j < len
            invariant
                0 <= j <= len,
                len == self.props@.len(),
                n <= j,
                n as int == spec_skip_count(
                    self.slots@,
                    self.states@,
                    self.dynamics@,
                    self.props@,
                    j as int,
                ),
            decreases len - j,
        {
            let pe = self.props[j];
            let mut skipped: bool = false;
            if self.valid(pe.owner) {
                match self.find_dyn_index(pe.owner) {
                    Some(di) => {
                        match self.dynamics[di].dynamics.get(pe.key) {
                            Some(h) => {
                                skipped = true;
                                if self.valid(h.entity) {
                                    match self.find_state_index(h.entity) {
                                        Some(si) => {
                                            if self.states[si].state.current.dim == pe.value.dim {
                                                skipped = false;
                                            }
                                        },
                                        None => {},
                                    }
                                }
                            },
                            None => {},
                        }
                    },
                    None => {},
                }
            }
            if skipped {
                n = n + 1;
            }
            j = j + 1;
        }
        n
    }
}


/// The `k2` the Pole-Matching strategy feeds into the shared step is
/// always a usable (positive) divisor.
pub proof fn lemma_pole_k2_pos(p: DynamicsParams, dt: int)
    requires
        p.wf(),
    ensures
        spec_pole_coeffs(p, dt).1 >= 1,
{
}

/// Steady state is a fixed point of every strategy as scheduled: a filter
/// whose target is reached, unmoving, and whose rate is zero comes out of
/// the Tick stage unchanged, whichever strategy it runs.
pub proof fn lemma_ticked_steady_state(s: DynamicsState, mode: TickMode, dt: int)
    requires
        s.wf(),
        dt >= 1,
        s.current == s.target,
        s.prev_target == s.target,
        s.d_current == crate::value::spec_vzero(s.target.dim),
    ensures
        spec_ticked(s, mode, dt) == s,
{
    match mode {
        TickMode::Simple => {
            crate::state::lemma_tick_steady_state(
                s,
                dt,
                s.params.k1 as int,
                s.params.k2 as int,
                s.params.k3 as int,
            );
        },
        TickMode::Stable => {
            crate::state::lemma_tick_steady_state(
                s,
                dt,
                s.params.k1 as int,
                spec_stable_k2(s.params.k1 as int, s.params.k2 as int, dt),
                s.params.k3 as int,
            );
        },
        TickMode::PoleMatching => {
            lemma_pole_k2_pos(s.params, dt);
            crate::state::lemma_tick_steady_state(
                s,
                dt,
                spec_pole_coeffs(s.params, dt).0,
                spec_pole_coeffs(s.params, dt).1,
                s.params.k3 as int,
            );
        },
    }
}

} // verus!

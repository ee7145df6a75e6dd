//! The routing component: the set of bindings a destination record hosts.
//!
//! A binding associates one property kind of the owning (destination)
//! record with the filter that feeds it; after every Tick stage the
//! filter's `current` is written into that property. Bindings are keyed by
//! property kind, so rebinding the same kind replaces the previous binding,
//! and one record can host many independently bound properties.
use vstd::prelude::*;
use crate::world::Entity;

verus! {

/// An opaque handle to a filter: the identity of the record that owns its
/// state. Handles are validated at use time; a handle to a destroyed
/// record makes lookups skip, never fail.
#[derive(Clone, Copy, PartialEq, Eq, Structural, Debug)]
pub struct AnimHandle {
    pub entity: Entity,
}

impl AnimHandle {
    /// Wrap a record identity as a filter handle.
    pub fn new(entity: Entity) -> (r: Self)
        ensures
            r.entity == entity,
    {
        AnimHandle { entity }
    }
}

/// A producer binding: each Read stage the filter's target is refreshed
/// from this property of this record. This is the capability behind a
/// registered target-producing callback: a host that computes targets
/// externally writes them into a record's property each frame, or sets
/// the filter's target directly.
#[derive(Clone, Copy, PartialEq, Eq, Structural, Debug)]
pub struct DynamicsSource {
    pub producer: Entity,
    pub key: u64,
}

/// One destination write-site: after ticking, the `current` of the filter
/// behind `source` is written into the owner's property `key`.
#[derive(Clone, Copy, PartialEq, Eq, Structural, Debug)]
pub struct Binding {
    pub key: u64,
    pub source: AnimHandle,
}

/// Some binding with this property kind exists.
pub open spec fn spec_has_binding(s: Seq<Binding>, key: u64) -> bool {
    exists|i: int| 0 <= i < s.len() && (#[trigger] s[i]).key == key
}

/// The filter handle bound to this property kind (meaningful when
/// `spec_has_binding` holds and the keys are distinct).
pub open spec fn spec_binding(s: Seq<Binding>, key: u64) -> AnimHandle {
    s[choose|i: int| 0 <= i < s.len() && (#[trigger] s[i]).key == key].source
}

/// Lookups by key agree on two binding lists whose entries agree wherever
/// the key occurs.
proof fn lemma_binding_lookup_eq(s1: Seq<Binding>, s2: Seq<Binding>, key: u64)
    requires
        s1.len() == s2.len(),
        forall|j: int| 0 <= j < s1.len() ==> ((#[trigger] s1[j]).key == key <==> s2[j].key == key),
        forall|j: int| 0 <= j < s1.len() && (#[trigger] s1[j]).key == key ==> s1[j] == s2[j],
        forall|i: int, j: int|
            0 <= i < j < s1.len() ==> !((#[trigger] s1[i]).key == (#[trigger] s1[j]).key),
    ensures
        spec_has_binding(s1, key) == spec_has_binding(s2, key),
        spec_has_binding(s1, key) ==> spec_binding(s1, key) == spec_binding(s2, key),
{
    if spec_has_binding(s1, key) {
        let i1 = choose|i: int| 0 <= i < s1.len() && (#[trigger] s1[i]).key == key;
        assert(s2[i1].key == key);
        assert(spec_has_binding(s2, key));
        let i2 = choose|i: int| 0 <= i < s2.len() && (#[trigger] s2[i]).key == key;
        assert(s1[i2].key == key);
        if i1 != i2 {
            assert(false);
        }
    } else if spec_has_binding(s2, key) {
        let i2 = choose|i: int| 0 <= i < s2.len() && (#[trigger] s2[i]).key == key;
        assert(s1[i2].key == key);
    }
}

/// The set of destination bindings hosted by one record, keyed by property
/// kind.
#[derive(Debug)]
pub struct Dynamics {
    pub bindings: Vec<Binding>,
}

impl Dynamics {
    /// Each property kind is bound at most once: two bindings on the same
    /// (destination, property kind) pair would race in the Write stage, so
    /// rebinding replaces instead.
    pub open spec fn wf(&self) -> bool {
        forall|i: int, j: int|
            0 <= i < j < self.bindings@.len() ==> !((#[trigger] self.bindings@[i]).key == (
            #[trigger] self.bindings@[j]).key)
    }

    /// An empty binding set.
    pub fn new() -> (r: Self)
        ensures
            r.wf(),
            r.bindings@.len() == 0,
    {
        Dynamics { bindings: Vec::new() }
    }

    /// The filter bound to a property kind, if any.
    pub fn get(&self, key: u64) -> (r: Option<AnimHandle>)
        requires
            self.wf(),
        ensures
            match r {
                Some(h) => spec_has_binding(self.bindings@, key) && h == spec_binding(
                    self.bindings@,
                    key,
                ),
                None => !spec_has_binding(self.bindings@, key),
            },
    {
        let mut i: usize = 0;
        while i < self.bindings.len()
            invariant
                0 <= i <= self.bindings@.len(),
                forall|j: int| 0 <= j < i ==> (#[trigger] self.bindings@[j]).key != key,
                self.wf(),
            decreases self.bindings@.len() - i,
        {
            if self.bindings[i].key == key {
                let ghost wi = i as int;
                proof {
                    assert(0 <= wi < self.bindings@.len() && self.bindings@[wi].key == key);
                    let ci = choose|j: int|
                        0 <= j < self.bindings@.len() && (#[trigger] self.bindings@[j]).key == key;
                    if ci != wi {
                        assert(false);
                    }
                }
                return Some(self.bindings[i].source);
            }
            i = i + 1;
        }
        None
    }

    /// Bind a property kind to a filter; rebinding the same kind replaces
    /// the previous binding and leaves every other kind untouched.
    #[verifier::loop_isolation(false)]
    pub fn add(&mut self, key: u64, source: AnimHandle)
        requires
            old(self).wf(),
        ensures
            final(self).wf(),
            spec_has_binding(final(self).bindings@, key),
            spec_binding(final(self).bindings@, key) == source,
            forall|k: u64|
                k != key ==> #[trigger] spec_has_binding(final(self).bindings@, k)
                    == spec_has_binding(old(self).bindings@, k),
            forall|k: u64|
                k != key && spec_has_binding(old(self).bindings@, k)
                    ==> #[trigger] spec_binding(final(self).bindings@, k) == spec_binding(
                    old(self).bindings@,
                    k,
                ),
    {
        let b = Binding { key, source };
        let mut i: usize = 0;
        while i < self.bindings.len()
            invariant
                0 <= i <= self.bindings@.len(),
                forall|j: int| 0 <= j < i ==> (#[trigger] self.bindings@[j]).key != key,
                self.wf(),
                self == old(self),
            decreases self.bindings@.len() - i,
        {
            if self.bindings[i].key == key {
                self.bindings.set(i, b);
                proof {
                    let s1 = old(self).bindings@;
                    let s2 = self.bindings@;
                    assert(s2 == s1.update(i as int, b));
                    assert(s2[i as int].key == key);
                    assert(spec_has_binding(s2, key));
                    let ci = choose|j: int| 0 <= j < s2.len() && (#[trigger] s2[j]).key == key;
                    if ci != i as int {
                        assert(s1[ci].key == key);
                        assert(false);
                    }
                    assert forall|k: u64| k != key implies #[trigger] spec_has_binding(s2, k)
                        == spec_has_binding(s1, k) by {
                        lemma_binding_lookup_eq(s1, s2, k);
                    }
                    assert forall|k: u64| k != key && spec_has_binding(s1, k) implies #[trigger]
                    spec_binding(s2, k) == spec_binding(s1, k) by {
                        lemma_binding_lookup_eq(s1, s2, k);
                    }
                }
                return ;
            }
            i = i + 1;
        }
        self.bindings.push(b);
        proof {
            let s1 = old(self).bindings@;
            let s2 = self.bindings@;
            assert(s2 == s1.push(b));
            assert(s2[s1.len() as int].key == key);
            assert(spec_has_binding(s2, key));
            let ci = choose|j: int| 0 <= j < s2.len() && (#[trigger] s2[j]).key == key;
            if ci != s1.len() as int {
                assert(s1[ci].key == key);
                assert(false);
            }
            assert forall|k: u64| k != key implies #[trigger] spec_has_binding(s2, k)
                == spec_has_binding(s1, k) by {
                if spec_has_binding(s1, k) {
                    let j = choose|j: int| 0 <= j < s1.len() && (#[trigger] s1[j]).key == k;
                    assert(s2[j].key == k);
                } else if spec_has_binding(s2, k) {
                    let j2 = choose|j2: int| 0 <= j2 < s2.len() && (#[trigger] s2[j2]).key == k;
                    assert(s1[j2].key == k);
                }
            }
            assert forall|k: u64| k != key && spec_has_binding(s1, k) implies #[trigger]
            spec_binding(s2, k) == spec_binding(s1, k) by {
                let j = choose|j: int| 0 <= j < s1.len() && (#[trigger] s1[j]).key == k;
                assert(s2[j].key == k);
                let j2 = choose|j2: int| 0 <= j2 < s2.len() && (#[trigger] s2[j2]).key == k;
                if j2 != j {
                    assert(false);
                }
            }
        }
    }

    /// Unbind a property kind; reports whether a binding was removed.
    /// Every other kind is untouched.
    #[verifier::loop_isolation(false)]
    pub fn remove(&mut self, key: u64) -> (removed: bool)
        requires
            old(self).wf(),
        ensures
            final(self).wf(),
            removed == spec_has_binding(old(self).bindings@, key),
            !spec_has_binding(final(self).bindings@, key),
            forall|k: u64|
                k != key ==> #[trigger] spec_has_binding(final(self).bindings@, k)
                    == spec_has_binding(old(self).bindings@, k),
            forall|k: u64|
                k != key && spec_has_binding(old(self).bindings@, k)
                    ==> #[trigger] spec_binding(final(self).bindings@, k) == spec_binding(
                    old(self).bindings@,
                    k,
                ),
    {
        let mut i: usize = 0;
        while i < self.bindings.len()
            invariant
                0 <= i <= self.bindings@.len(),
                forall|j: int| 0 <= j < i ==> (#[trigger] self.bindings@[j]).key != key,
                self.wf(),
                self == old(self),
            decreases self.bindings@.len() - i,
        {
            if self.bindings[i].key == key {
                self.bindings.remove(i);
                proof {
                    let s1 = old(self).bindings@;
                    let s2 = self.bindings@;
                    assert(s2 == s1.remove(i as int));
                    assert forall|j: int| 0 <= j < s2.len() implies (#[trigger] s2[j]).key
                        != key by {
                        if j < i as int {
                            assert(s2[j] == s1[j]);
                        } else {
                            assert(s2[j] == s1[j + 1]);
                        }
                    }
                    assert forall|k: u64| k != key implies #[trigger] spec_has_binding(s2, k)
                        == spec_has_binding(s1, k) by {
                        if spec_has_binding(s1, k) {
                            let j = choose|j: int| 0 <= j < s1.len() && (#[trigger] s1[j]).key == k;
                            let j2: int = if j < i as int {
                                j
                            } else {
                                j - 1
                            };
                            assert(s2[j2].key == k);
                        } else if spec_has_binding(s2, k) {
                            let jc = choose|jc: int|
                                0 <= jc < s2.len() && (#[trigger] s2[jc]).key == k;
                            let jo: int = if jc < i as int {
                                jc
                            } else {
                                jc + 1
                            };
                            assert(s1[jo].key == k);
                        }
                    }
                    assert forall|k: u64| k != key && spec_has_binding(s1, k) implies #[trigger]
                    spec_binding(s2, k) == spec_binding(s1, k) by {
                        let j = choose|j: int| 0 <= j < s1.len() && (#[trigger] s1[j]).key == k;
                        let j2: int = if j < i as int {
                            j
                        } else {
                            j - 1
                        };
                        assert(s2[j2].key == k);
                        let jc = choose|jc: int| 0 <= jc < s2.len() && (#[trigger] s2[jc]).key == k;
                        let jo: int = if jc < i as int {
                            jc
                        } else {
                            jc + 1
                        };
                        assert(s1[jo] == s2[jc]);
                        if jo != j {
                            assert(false);
                        }
                    }
                }
                return true;
            }
            i = i + 1;
        }
        false
    }
}

} // verus!

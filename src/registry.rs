use vstd::prelude::*;

verus! {

/// Releasing a name that no one holds changes nothing: every other name is
/// held, or free to claim, exactly as before.
pub proof fn lemma_release_unheld(names: Set<Seq<char>>, name: Seq<char>)
    requires
        !names.contains(name),
    ensures
        names.remove(name) == names,
        forall|other: Seq<char>| #[trigger] names.remove(name).contains(other) == names.contains(other),
{
    assert(names.remove(name) =~= names);
}

/// Once a name is claimed, every further claim of it fails until it is
/// released; releasing it makes it claimable again and leaves every other
/// name as it was.
pub proof fn lemma_claim_exclusive(names: Set<Seq<char>>, name: Seq<char>)
    requires
        !names.contains(name),
    ensures
        names.insert(name).contains(name),
        names.insert(name).remove(name) == names,
{
    assert(names.insert(name).remove(name) =~= names);
}

/// The set of display names currently held by live sessions.
pub struct NameRegistry {
    names: Vec<String>,
}

impl NameRegistry {
    /// The names held, as a set of character sequences.
    pub closed spec fn view(&self) -> Set<Seq<char>> {
        Set::new(|n: Seq<char>| exists|i: int| 0 <= i < self.names@.len() && self.names@[i]@ == n)
    }

    /// No name is stored twice.
    pub closed spec fn wf(&self) -> bool {
        forall|i: int, j: int|
            0 <= i < self.names@.len() && 0 <= j < self.names@.len() && i != j
                ==> self.names@[i]@ != self.names@[j]@
    }

    /// An empty registry.
    pub fn new() -> (r: NameRegistry)
        ensures
            r.wf(),
            r@ == Set::<Seq<char>>::empty(),
    {
        let r = NameRegistry { names: Vec::new() };
        assert(r@ =~= Set::<Seq<char>>::empty());
        r
    }

    /// Whether `name` is held.
    pub fn contains(&self, name: &str) -> (r: bool)
        requires
            self.wf(),
        ensures
            r == self@.contains(name@),
    {
        self.position(name).is_some()
    }

    /// The number of names held.
    pub fn len(&self) -> (r: usize)
        requires
            self.wf(),
        ensures
            r == self@.len(),
    {
        proof { self.lemma_len(); }
        self.names.len()
    }

    /// Takes `candidate` if no one holds it. Returns whether it was taken;
    /// when it was not, the registry is left as it was.
    pub fn claim(&mut self, candidate: &str) -> (r: bool)
        requires
            old(self).wf(),
        ensures
            final(self).wf(),
            r == !old(self)@.contains(candidate@),
            final(self)@ == (if r { old(self)@.insert(candidate@) } else { old(self)@ }),
    {
        if self.position(candidate).is_some() {
            false
        } else {
            let ghost before = self.names@;
            self.names.push(candidate.to_owned());
            proof {
                assert(self.names@[before.len() as int]@ == candidate@);
                assert forall|n: Seq<char>| self@.contains(n) <==> old(self)@.insert(candidate@).contains(n) by {
                    if old(self)@.contains(n) {
                        let i = choose|i: int| 0 <= i < before.len() && before[i]@ == n;
                        assert(self.names@[i] == before[i]);
                    }
                    if self@.contains(n) {
                        let i = choose|i: int| 0 <= i < self.names@.len() && self.names@[i]@ == n;
                        if i < before.len() {
                            assert(before[i] == self.names@[i]);
                        }
                    }
                }
                assert(self@ =~= old(self)@.insert(candidate@));
            }
            true
        }
    }

    /// Gives up `name`. Nothing changes when no one holds it.
    pub fn release(&mut self, name: &str)
        requires
            old(self).wf(),
        ensures
            final(self).wf(),
            final(self)@ == old(self)@.remove(name@),
    {
        match self.position(name) {
            None => {
                assert(self@ =~= old(self)@.remove(name@));
            },
            Some(k) => {
                let ghost before = self.names@;
                self.names.swap_remove(k);
                proof {
                    let after = self.names@;
                    let last = before.len() - 1;
                    assert forall|n: Seq<char>| self@.contains(n) <==> old(self)@.remove(name@).contains(n) by {
                        if self@.contains(n) {
                            let i = choose|i: int| 0 <= i < after.len() && after[i]@ == n;
                            if i == k {
                                assert(before[last] == after[i]);
                            } else {
                                assert(before[i] == after[i]);
                            }
                        }
                        if old(self)@.remove(name@).contains(n) {
                            let i = choose|i: int| 0 <= i < before.len() && before[i]@ == n;
                            if i == last {
                                if k < last {
                                    assert(after[k as int] == before[last]);
                                }
                            } else {
                                assert(after[i] == before[i]);
                            }
                        }
                    }
                    assert(self@ =~= old(self)@.remove(name@));
                }
            },
        }
    }

    /// Where `name` is stored, if anywhere.
    fn position(&self, name: &str) -> (r: Option<usize>)
        requires
            self.wf(),
        ensures
            r.is_none() <==> !self@.contains(name@),
            r matches Some(k) ==> k < self.names@.len() && self.names@[k as int]@ == name@,
    {
        let target = name.to_owned();
        let mut i: usize = 0;
        while i < self.names.len()
            invariant
                i <= self.names@.len(),
                target@ == name@,
                forall|j: int| 0 <= j < i ==> self.names@[j]@ != name@,
            decreases self.names@.len() - i,
        {
            if self.names[i] == target {
                return Some(i);
            }
            i = i + 1;
        }
        None
    }

    proof fn lemma_len(&self)
        requires
            self.wf(),
        ensures
            self@.len() == self.names@.len(),
            self@.finite(),
    {
        let keys = self.names@.map_values(|s: String| s@);
        assert forall|i: int, j: int| 0 <= i < keys.len() && 0 <= j < keys.len() && i != j
            implies keys[i] != keys[j] by {
            assert(keys[i] == self.names@[i]@ && keys[j] == self.names@[j]@);
        }
        keys.unique_seq_to_set();
        assert forall|n: Seq<char>| self@.contains(n) <==> keys.to_set().contains(n) by {
            if self@.contains(n) {
                let i = choose|i: int| 0 <= i < self.names@.len() && self.names@[i]@ == n;
                assert(keys[i] == n);
            }
            if keys.to_set().contains(n) {
                let i = choose|i: int| 0 <= i < keys.len() && keys[i] == n;
                assert(self.names@[i]@ == n);
            }
        }
        assert(self@ =~= keys.to_set());
    }
}

} // verus!

//! The registry of worker-selection policies, by name.

use vstd::prelude::*;

verus! {

/// Why a policy was not registered.
#[derive(Clone, Debug)]
pub enum WorkerSelectionPolicyRegistryError {
    /// A policy of this name is registered already.
    Duplicate { name: String },
}

/// The names of the registered policies. The view is the set of names.
#[derive(Debug)]
pub struct WorkerSelectionPolicyRegistry {
    names: Vec<String>,
}

impl View for WorkerSelectionPolicyRegistry {
    type V = Set<Seq<char>>;

    closed spec fn view(&self) -> Set<Seq<char>> {
        Set::new(|name: Seq<char>| exists|i: int|
            0 <= i < self.names@.len() && (#[trigger] self.names@[i])@ == name)
    }
}

impl Default for WorkerSelectionPolicyRegistry {
    fn default() -> (registry: Self)
        ensures
            registry@ == Set::<Seq<char>>::empty(),
    {
        let registry = WorkerSelectionPolicyRegistry { names: Vec::new() };
        assert(registry@ =~= Set::<Seq<char>>::empty());
        registry
    }
}

impl WorkerSelectionPolicyRegistry {
    /// Whether a policy of this name is registered.
    pub fn contains(&self, name: &str) -> (found: bool)
        ensures
            found == self@.contains(name@),
    {
        let wanted: String = name.to_owned();
        let mut i: usize = 0;
        while i < self.names.len()
            invariant
                i <= self.names@.len(),
                wanted@ == name@,
                forall|j: int| 0 <= j < i ==> (#[trigger] self.names@[j])@ != name@,
            decreases self.names.len() - i,
        {
            if self.names[i] == wanted {
                return true;
            }
            i += 1;
        }
        false
    }

    /// Registers a policy under a name that is free.
    pub fn register_policy(&mut self, name: &str) -> (result: Result<
        (),
        WorkerSelectionPolicyRegistryError,
    >)
        ensures
            match result {
                Ok(()) => !old(self)@.contains(name@) && final(self)@ == old(self)@.insert(name@),
                Err(WorkerSelectionPolicyRegistryError::Duplicate { name: taken }) => taken@
                    == name@ && old(self)@.contains(name@) && final(self)@ == old(self)@,
            },
    {
        if self.contains(name) {
            return Err(WorkerSelectionPolicyRegistryError::Duplicate { name: name.to_owned() });
        }
        self.names.push(name.to_owned());
        proof {
            let n = old(self).names@.len();
            assert(self.names@[n as int]@ == name@);
            assert forall|other: Seq<char>| self@.contains(other) <==> #[trigger] old(
                self,
            )@.insert(name@).contains(other) by {
                if old(self)@.contains(other) {
                    let i = choose|i: int|
                        0 <= i < n && (#[trigger] old(self).names@[i])@ == other;
                    assert(self.names@[i]@ == other);
                }
                if self@.contains(other) && other != name@ {
                    let i = choose|i: int|
                        0 <= i < self.names@.len() && (#[trigger] self.names@[i])@ == other;
                    assert(old(self).names@[i]@ == other);
                }
            }
            assert(self@ =~= old(self)@.insert(name@));
        }
        Ok(())
    }
}

} // verus!

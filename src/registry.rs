//! A registry of event sources addressed by name.
use vstd::prelude::*;

verus! {

/// Event sources by name; no two share a name.
pub struct EventSourceRegistry<S> {
    pub names: Vec<String>,
    pub sources: Vec<S>,
}

/// `name` is among `names`.
pub open spec fn has_name(names: Seq<String>, name: Seq<char>) -> bool {
    exists|i: int| 0 <= i < names.len() && #[trigger] names[i]@ == name
}

impl<S> EventSourceRegistry<S> {
    /// Names and sources go in pairs, and names are distinct.
    pub open spec fn wf(&self) -> bool {
        &&& self.names.len() == self.sources.len()
        &&& forall|i: int, j: int|
            0 <= i < j < self.names.len() ==> #[trigger] self.names@[i]@ != #[trigger] self.names@[j]@
    }

    /// An empty registry.
    pub fn new() -> (r: EventSourceRegistry<S>)
        ensures
            r.wf(),
            r.names@.len() == 0,
    {
        EventSourceRegistry { names: Vec::new(), sources: Vec::new() }
    }

    /// Number of sources.
    pub fn len(&self) -> (r: usize)
        requires
            self.wf(),
        ensures
            r == self.names@.len(),
    {
        self.names.len()
    }

    /// Position of the source named `name`.
    pub fn position(&self, name: &String) -> (r: Option<usize>)
        requires
            self.wf(),
        ensures
            r is None <==> !has_name(self.names@, name@),
            r matches Some(i) ==> i < self.names@.len() && self.names@[i as int]@ == name@,
    {
        let mut i: usize = 0;
        while i < self.names.len()
            invariant
                i <= self.names.len(),
                forall|j: int| 0 <= j < i ==> #[trigger] self.names@[j]@ != name@,
            decreases self.names.len() - i,
        {
            if self.names[i] == *name {
                return Some(i);
            }
            i = i + 1;
        }
        None
    }

    /// Adds `source` under `name`; if the name is taken already, the source
    /// comes back in the error.
    pub fn add(&mut self, source: S, name: String) -> (r: Result<(), S>)
        requires
            old(self).wf(),
        ensures
            final(self).wf(),
            r is Err <==> has_name(old(self).names@, name@),
            r matches Err(s) ==> s == source && final(self).names@ == old(self).names@ && final(self).sources@
                == old(self).sources@,
            r is Ok ==> final(self).names@ == old(self).names@.push(name) && final(self).sources@ == old(
                self,
            ).sources@.push(source),
    {
        if self.position(&name).is_some() {
            return Err(source);
        }
        proof {
            assert forall|i: int| 0 <= i < old(self).names@.len() implies old(self).names@[i]@ != name@ by {
                if old(self).names@[i]@ == name@ {
                    assert(has_name(old(self).names@, name@));
                }
            }
        }
        self.names.push(name);
        self.sources.push(source);
        proof {
            let ns = self.names@;
            assert forall|i: int, j: int| 0 <= i < j < ns.len() implies #[trigger] ns[i]@ != #[trigger] ns[j]@ by {
                if j < ns.len() - 1 {
                    assert(ns[i] == old(self).names@[i] && ns[j] == old(self).names@[j]);
                } else {
                    assert(ns[i] == old(self).names@[i]);
                }
            }
        }
        Ok(())
    }

    /// The source named `name`, if it is registered.
    pub fn get(&self, name: &String) -> (r: Option<&S>)
        requires
            self.wf(),
        ensures
            r is None <==> !has_name(self.names@, name@),
            r matches Some(s) ==> exists|i: int|
                0 <= i < self.names@.len() && self.names@[i]@ == name@ && *s == self.sources@[i],
    {
        match self.position(name) {
            Some(i) => Some(&self.sources[i]),
            None => None,
        }
    }
}

} // verus!

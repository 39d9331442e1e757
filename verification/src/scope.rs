//! The variable store: one flat namespace from names to values.
use vstd::hash_map::StringHashMap;
use vstd::prelude::*;

verus! {

/// A flat mapping from variable names to values. There is no nesting, no
/// shadowing and no deletion; whoever owns the scope decides how long the
/// bindings live.
pub struct Scope {
    store: StringHashMap<u64>,
}

impl View for Scope {
    type V = Map<Seq<char>, u64>;

    closed spec fn view(&self) -> Map<Seq<char>, u64> {
        self.store@
    }
}

/// What a lookup of `name` in `bindings` gives.
pub open spec fn lookup(bindings: Map<Seq<char>, u64>, name: Seq<char>) -> Option<u64> {
    if bindings.contains_key(name) {
        Some(bindings[name])
    } else {
        None
    }
}

impl Scope {
    /// A scope without bindings.
    pub fn new() -> (scope: Self)
        ensures
            scope@ == Map::<Seq<char>, u64>::empty(),
    {
        Scope { store: StringHashMap::new() }
    }

    /// Binds `id` to `val`, whether or not `id` was bound before, and returns
    /// the value it was bound to.
    pub fn dec_var(&mut self, id: String, val: u64) -> (previous: Option<u64>)
        ensures
            final(self)@ == old(self)@.insert(id@, val),
            previous == lookup(old(self)@, id@),
    {
        let previous = match self.store.get(id.as_str()) {
            Some(bound) => Some(*bound),
            None => None,
        };
        self.store.insert(id, val);
        previous
    }

    /// Binds `id` to `val` exactly as [`Scope::dec_var`] does: assignment makes
    /// no check that the name was declared.
    pub fn set_var(&mut self, id: String, val: u64) -> (previous: Option<u64>)
        ensures
            final(self)@ == old(self)@.insert(id@, val),
            previous == lookup(old(self)@, id@),
    {
        self.dec_var(id, val)
    }

    /// The value bound to `id`, if there is one.
    pub fn get_var(&self, id: String) -> (found: Option<&u64>)
        ensures
            match found {
                Some(bound) => lookup(self@, id@) == Some(*bound),
                None => lookup(self@, id@).is_none(),
            },
    {
        self.store.get(id.as_str())
    }
}

} // verus!

//! Registry for looking up actors by name.

use vstd::prelude::*;

use crate::name_map::NameMap;

verus! {

/// Registry for looking up actor refs by name.
///
/// Actors are registered at spawn time and can be looked up by name.
/// The stored ref type `R` is chosen by the caller (a type-erased handle
/// such as `Arc<dyn Any + Send + Sync>` gives the classic dynamic registry).
pub struct ActorRegistry<R> {
    entries: NameMap<R>,
}

impl<R> View for ActorRegistry<R> {
    type V = Map<Seq<char>, R>;

    closed spec fn view(&self) -> Map<Seq<char>, R> {
        self.entries@
    }
}

impl<R> ActorRegistry<R> {
    pub closed spec fn wf(&self) -> bool {
        self.entries.wf()
    }

    /// A valid registry holds finitely many names.
    pub proof fn lemma_finite(&self)
        requires
            self.wf(),
        ensures
            self@.dom().finite(),
    {
        self.entries.lemma_finite();
    }

    pub fn new() -> (r: Self)
        ensures
            r.wf(),
            r@ == Map::<Seq<char>, R>::empty(),
    {
        ActorRegistry { entries: NameMap::new() }
    }

    /// Register an actor ref under a name. Overwrites if the name exists.
    pub fn register(&mut self, name: &str, actor_ref: R)
        requires
            old(self).wf(),
        ensures
            final(self).wf(),
            final(self)@ == old(self)@.insert(name@, actor_ref),
    {
        self.entries.insert(name.to_owned(), actor_ref);
    }

    /// Look up an actor by name, returning a clone of its ref.
    /// Returns `None` if the name is not registered.
    pub fn lookup(&self, name: &str) -> (r: Option<R>)
        where
            R: Clone,
        requires
            self.wf(),
        ensures
            r is Some <==> self@.contains_key(name@),
            r matches Some(v) ==> cloned(self@[name@], v),
    {
        let key = name.to_owned();
        match self.entries.get(&key) {
            Some(v) => Some(v.clone()),
            None => None,
        }
    }

    /// Remove an actor from the registry. Returns whether it was present.
    pub fn unregister(&mut self, name: &str) -> (r: bool)
        requires
            old(self).wf(),
        ensures
            final(self).wf(),
            final(self)@ == old(self)@.remove(name@),
            r == old(self)@.contains_key(name@),
    {
        let key = name.to_owned();
        self.entries.remove(&key).is_some()
    }

    /// Check if a name is registered.
    pub fn contains(&self, name: &str) -> (r: bool)
        requires
            self.wf(),
        ensures
            r == self@.contains_key(name@),
    {
        let key = name.to_owned();
        self.entries.contains(&key)
    }

    /// Number of registered actors.
    pub fn len(&self) -> (r: usize)
        requires
            self.wf(),
        ensures
            r == self@.len(),
    {
        self.entries.len()
    }

    /// Whether the registry is empty.
    pub fn is_empty(&self) -> (r: bool)
        requires
            self.wf(),
        ensures
            r == (self@.len() == 0),
    {
        self.entries.len() == 0
    }

    /// List all registered names, each once, in unspecified order.
    pub fn names(&self) -> (r: Vec<String>)
        requires
            self.wf(),
        ensures
            r@.map_values(|s: String| s@).to_set() == self@.dom(),
            r@.map_values(|s: String| s@).no_duplicates(),
            r@.len() == self@.len(),
    {
        self.entries.names()
    }
}

impl<R> Default for ActorRegistry<R> {
    fn default() -> (r: Self)
        ensures
            r.wf(),
            r@ == Map::<Seq<char>, R>::empty(),
    {
        Self::new()
    }
}

/// A lookup after registering a name finds the registered ref.
pub proof fn law_lookup_after_register<R>(m: Map<Seq<char>, R>, name: Seq<char>, actor_ref: R)
    ensures
        m.insert(name, actor_ref).contains_key(name),
        m.insert(name, actor_ref)[name] == actor_ref,
{
}

/// Registering a name leaves every other name's entry as it was.
pub proof fn law_register_leaves_others<R>(
    m: Map<Seq<char>, R>,
    name: Seq<char>,
    actor_ref: R,
    other: Seq<char>,
)
    requires
        other != name,
    ensures
        m.insert(name, actor_ref).contains_key(other) == m.contains_key(other),
        m.contains_key(other) ==> m.insert(name, actor_ref)[other] == m[other],
{
}

/// Registering an existing name overwrites it: the count is unchanged;
/// registering a new name adds one.
pub proof fn law_register_count<R>(m: Map<Seq<char>, R>, name: Seq<char>, actor_ref: R)
    requires
        m.dom().finite(),
    ensures
        m.contains_key(name) ==> m.insert(name, actor_ref).len() == m.len(),
        !m.contains_key(name) ==> m.insert(name, actor_ref).len() == m.len() + 1,
{
}

/// After unregistering, the name is no longer registered, and a second
/// unregister of it reports absence.
pub proof fn law_unregister_removes<R>(m: Map<Seq<char>, R>, name: Seq<char>)
    ensures
        !m.remove(name).contains_key(name),
        m.remove(name).remove(name) == m.remove(name),
{
    assert(m.remove(name).remove(name) =~= m.remove(name));
}

} // verus!

//! Type registry for remote message deserialization and actor factory lookup.
//!
//! When a node receives a [`WireEnvelope`](crate::remote::WireEnvelope) from
//! the network, it needs to turn the body bytes back into a value. The
//! [`TypeRegistry`] maps message type names to decoders, and actor type
//! names to factories for remote spawning.

use vstd::prelude::*;
use vstd::string::StringExecFns;

use crate::actor::Actor;
use crate::name_map::NameMap;
use crate::remote::SerializationError;

verus! {

/// Turns bytes into a value (a message, or an actor built from its args).
/// Implemented by applications; nothing is assumed of what it returns.
pub trait BytesDecoder {
    type Output;

    fn decode(&self, bytes: &[u8]) -> Result<Self::Output, SerializationError>;
}

/// Factory for reconstructing an actor from serialized `Args` bytes on a
/// remote node; `deps` are resolved locally and never serialized.
/// Implemented by applications; nothing is assumed of what it returns.
pub trait ActorFactory<A: Actor>: Send + Sync + 'static {
    fn create_from_bytes(&self, args_bytes: &[u8], deps: A::Deps) -> Result<A, SerializationError>;
}

/// Actor factory stored in a [`TypeRegistry`], receiving deps at creation
/// time. Implemented by applications; nothing is assumed of what it returns.
pub trait ErasedActorFactory: Send + Sync + 'static {
    /// Dependencies handed over at creation time.
    type Deps;
    /// What a successful creation yields.
    type Created;

    /// The Rust type name of the actor (for diagnostics).
    fn actor_type_name(&self) -> &'static str;

    fn create_erased(&self, args_bytes: &[u8], deps: Self::Deps) -> Result<
        Self::Created,
        SerializationError,
    >;
}

/// Message of the error for an unknown message type.
pub open spec fn no_deserializer_message(name: Seq<char>) -> Seq<char> {
    "no deserializer registered for '"@ + name + "'"@
}

/// Message of the error for an unknown actor type (closure factories).
pub open spec fn no_factory_message(name: Seq<char>) -> Seq<char> {
    "no actor factory registered for '"@ + name + "'"@
}

/// Message of the error for an unknown actor type (trait factories).
pub open spec fn no_actor_factory_message(name: Seq<char>) -> Seq<char> {
    "no actor factory (trait-based) registered for '"@ + name + "'"@
}

/// An error whose message is `prefix`, the quoted name and a closing quote.
fn name_error(prefix: &str, name: &str) -> (r: SerializationError)
    ensures
        r.message@ == prefix@ + name@ + "'"@,
{
    let mut message = prefix.to_owned();
    message.append(name);
    message.append("'");
    SerializationError { message }
}

/// Registry mapping message type names to decoders (`D`), and actor type
/// names to factories (`F` for byte-only factories, `A` for factories
/// that receive deps at creation time).
pub struct TypeRegistry<D, F, A> {
    deserializers: NameMap<D>,
    factories: NameMap<F>,
    actor_factories: NameMap<A>,
}

impl<D, F, A> TypeRegistry<D, F, A> {
    pub closed spec fn wf(&self) -> bool {
        &&& self.deserializers.wf()
        &&& self.factories.wf()
        &&& self.actor_factories.wf()
    }

    /// A valid registry holds finitely many names of each kind.
    pub proof fn lemma_finite(&self)
        requires
            self.wf(),
        ensures
            self.deserializers_view().dom().finite(),
            self.factories_view().dom().finite(),
            self.actor_factories_view().dom().finite(),
    {
        self.deserializers.lemma_finite();
        self.factories.lemma_finite();
        self.actor_factories.lemma_finite();
    }

    /// Registered decoders by message type name.
    pub closed spec fn deserializers_view(&self) -> Map<Seq<char>, D> {
        self.deserializers@
    }

    /// Registered byte factories by actor type name.
    pub closed spec fn factories_view(&self) -> Map<Seq<char>, F> {
        self.factories@
    }

    /// Registered deps-aware factories by actor type name.
    pub closed spec fn actor_factories_view(&self) -> Map<Seq<char>, A> {
        self.actor_factories@
    }

    /// Create an empty registry.
    pub fn new() -> (r: Self)
        ensures
            r.wf(),
            r.deserializers_view() == Map::<Seq<char>, D>::empty(),
            r.factories_view() == Map::<Seq<char>, F>::empty(),
            r.actor_factories_view() == Map::<Seq<char>, A>::empty(),
    {
        TypeRegistry {
            deserializers: NameMap::new(),
            factories: NameMap::new(),
            actor_factories: NameMap::new(),
        }
    }

    /// Register a decoder for a message type (replacing any previous one).
    pub fn register(&mut self, name: &str, deserializer: D)
        requires
            old(self).wf(),
        ensures
            final(self).wf(),
            final(self).deserializers_view() == old(self).deserializers_view().insert(
                name@,
                deserializer,
            ),
            final(self).factories_view() == old(self).factories_view(),
            final(self).actor_factories_view() == old(self).actor_factories_view(),
    {
        self.deserializers.insert(name.to_owned(), deserializer);
    }

    /// Check if a decoder is registered for a type name.
    pub fn has_type(&self, name: &str) -> (r: bool)
        requires
            self.wf(),
        ensures
            r == self.deserializers_view().contains_key(name@),
    {
        self.deserializers.contains(&name.to_owned())
    }

    /// Number of registered message types.
    pub fn type_count(&self) -> (r: usize)
        requires
            self.wf(),
        ensures
            r == self.deserializers_view().len(),
    {
        self.deserializers.len()
    }

    /// Register an actor factory for remote spawning (replacing any
    /// previous one for that name).
    pub fn register_factory(&mut self, name: &str, factory: F)
        requires
            old(self).wf(),
        ensures
            final(self).wf(),
            final(self).factories_view() == old(self).factories_view().insert(name@, factory),
            final(self).deserializers_view() == old(self).deserializers_view(),
            final(self).actor_factories_view() == old(self).actor_factories_view(),
    {
        self.factories.insert(name.to_owned(), factory);
    }

    /// Check if a factory of either kind is registered for an actor type.
    pub fn has_factory(&self, name: &str) -> (r: bool)
        requires
            self.wf(),
        ensures
            r == (self.factories_view().contains_key(name@)
                || self.actor_factories_view().contains_key(name@)),
    {
        let key = name.to_owned();
        self.factories.contains(&key) || self.actor_factories.contains(&key)
    }

    /// Number of registered actor factories of both kinds.
    pub fn factory_count(&self) -> (r: usize)
        requires
            self.wf(),
            self.factories_view().len() + self.actor_factories_view().len() <= usize::MAX,
        ensures
            r == self.factories_view().len() + self.actor_factories_view().len(),
    {
        self.factories.len() + self.actor_factories.len()
    }

    /// Register a deps-aware actor factory (replacing any previous one).
    pub fn register_actor_factory(&mut self, name: &str, factory: A)
        requires
            old(self).wf(),
        ensures
            final(self).wf(),
            final(self).actor_factories_view() == old(self).actor_factories_view().insert(
                name@,
                factory,
            ),
            final(self).deserializers_view() == old(self).deserializers_view(),
            final(self).factories_view() == old(self).factories_view(),
    {
        self.actor_factories.insert(name.to_owned(), factory);
    }
}

impl<D: BytesDecoder, F, A> TypeRegistry<D, F, A> {
    /// Decode a message body with the decoder registered for `name`.
    ///
    /// Returns `Err` if no decoder is registered for `name`.
    pub fn deserialize(&self, name: &str, bytes: &[u8]) -> (r: Result<D::Output, SerializationError>)
        requires
            self.wf(),
        ensures
            self.deserializers_view().contains_key(name@) ==> call_ensures(
                D::decode,
                (&self.deserializers_view()[name@], bytes),
                r,
            ),
            !self.deserializers_view().contains_key(name@) ==> (r matches Err(e)
                && e.message@ == no_deserializer_message(name@)),
    {
        match self.deserializers.get(&name.to_owned()) {
            Some(deserializer) => deserializer.decode(bytes),
            None => Err(name_error("no deserializer registered for '", name)),
        }
    }
}

impl<D, F: BytesDecoder, A> TypeRegistry<D, F, A> {
    /// Look up an actor factory by type name and create an actor from bytes.
    pub fn create_actor(&self, name: &str, args_bytes: &[u8]) -> (r: Result<
        F::Output,
        SerializationError,
    >)
        requires
            self.wf(),
        ensures
            self.factories_view().contains_key(name@) ==> call_ensures(
                F::decode,
                (&self.factories_view()[name@], args_bytes),
                r,
            ),
            !self.factories_view().contains_key(name@) ==> (r matches Err(e)
                && e.message@ == no_factory_message(name@)),
    {
        match self.factories.get(&name.to_owned()) {
            Some(factory) => factory.decode(args_bytes),
            None => Err(name_error("no actor factory registered for '", name)),
        }
    }
}

impl<D, F, A: ErasedActorFactory> TypeRegistry<D, F, A> {
    /// Create an actor with the registered deps-aware factory, passing
    /// `deps` at creation time.
    pub fn create_actor_with_deps(&self, name: &str, args_bytes: &[u8], deps: A::Deps) -> (r:
        Result<A::Created, SerializationError>)
        requires
            self.wf(),
        ensures
            self.actor_factories_view().contains_key(name@) ==> call_ensures(
                A::create_erased,
                (&self.actor_factories_view()[name@], args_bytes, deps),
                r,
            ),
            !self.actor_factories_view().contains_key(name@) ==> (r matches Err(e)
                && e.message@ == no_actor_factory_message(name@)),
    {
        match self.actor_factories.get(&name.to_owned()) {
            Some(factory) => factory.create_erased(args_bytes, deps),
            None => Err(name_error("no actor factory (trait-based) registered for '", name)),
        }
    }
}

impl<D, F, A> Default for TypeRegistry<D, F, A> {
    fn default() -> (r: Self)
        ensures
            r.wf(),
            r.deserializers_view() == Map::<Seq<char>, D>::empty(),
            r.factories_view() == Map::<Seq<char>, F>::empty(),
            r.actor_factories_view() == Map::<Seq<char>, A>::empty(),
    {
        Self::new()
    }
}

/// Message of the error for a message body that failed to parse.
pub open spec fn decode_error_message(message_type: Seq<char>, cause: Seq<char>) -> Seq<char> {
    "failed to deserialize "@ + message_type + ": "@ + cause
}

/// The error for a body of `message_type` that failed to parse with
/// `cause`.
pub fn decode_error(message_type: &str, cause: &str) -> (r: SerializationError)
    ensures
        r.message@ == decode_error_message(message_type@, cause@),
{
    let mut message = "failed to deserialize ".to_owned();
    message.append(message_type);
    message.append(": ");
    message.append(cause);
    SerializationError { message }
}

/// Message of the error for args that failed to parse.
pub open spec fn args_error_message(actor_type: Seq<char>, cause: Seq<char>) -> Seq<char> {
    "failed to deserialize args for "@ + actor_type + ": "@ + cause
}

/// Factory that parses an actor's `Args` as JSON. The parse itself is done
/// by the caller with `serde_json` and handed to [`Self::create_from_parsed`].
pub struct JsonActorFactory<A> {
    _phantom: std::marker::PhantomData<A>,
}

impl<A: Actor> JsonActorFactory<A> {
    /// Create a new `JsonActorFactory`.
    pub fn new() -> (r: Self) {
        JsonActorFactory { _phantom: std::marker::PhantomData }
    }

    /// Build the actor from the outcome of parsing its args: a parse error
    /// `cause` becomes "failed to deserialize args for <actor_type>: <cause>".
    pub fn create_from_parsed(&self, actor_type: &str, parsed: Result<A::Args, String>, deps: A::Deps) -> (r: Result<
        A,
        SerializationError,
    >)
        ensures
            r is Ok <==> parsed is Ok,
            r matches Ok(a) ==> (parsed matches Ok(args) && call_ensures(A::create, (args, deps), a)),
            parsed matches Err(cause) ==> (r matches Err(e) && e.message@ == args_error_message(
                actor_type@,
                cause@,
            )),
    {
        match parsed {
            Ok(args) => Ok(A::create(args, deps)),
            Err(cause) => {
                let mut message = "failed to deserialize args for ".to_owned();
                message.append(actor_type);
                message.append(": ");
                message.append(cause.as_str());
                Err(SerializationError { message })
            },
        }
    }
}

impl<A: Actor> Default for JsonActorFactory<A> {
    fn default() -> (r: Self) {
        Self::new()
    }
}

/// A decoder registered under a name is the one a later lookup of that
/// name uses, and registering leaves other names alone.
pub proof fn law_registered_decoder_is_used<D>(
    m: Map<Seq<char>, D>,
    name: Seq<char>,
    decoder: D,
    other: Seq<char>,
)
    ensures
        m.insert(name, decoder).contains_key(name),
        m.insert(name, decoder)[name] == decoder,
        other != name ==> (m.insert(name, decoder).contains_key(other) == m.contains_key(
            other,
        )),
{
}

} // verus!

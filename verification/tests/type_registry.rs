use std::any::Any;

use dactor::actor::Actor;
use dactor::remote::SerializationError;
use dactor::type_registry::{
    decode_error, BytesDecoder, ErasedActorFactory, JsonActorFactory, TypeRegistry,
};

/// Decoder backed by a closure, as applications register them.
struct FnDecoder(Box<dyn Fn(&[u8]) -> Result<Box<dyn Any + Send>, SerializationError> + Send + Sync>);

impl BytesDecoder for FnDecoder {
    type Output = Box<dyn Any + Send>;

    fn decode(&self, bytes: &[u8]) -> Result<Box<dyn Any + Send>, SerializationError> {
        (self.0)(bytes)
    }
}

fn u64_decoder() -> FnDecoder {
    FnDecoder(Box::new(|bytes: &[u8]| {
        if bytes.len() != 8 {
            return Err(SerializationError::new("expected 8 bytes"));
        }
        let val = u64::from_be_bytes(bytes.try_into().unwrap());
        Ok(Box::new(val))
    }))
}

#[derive(Debug)]
struct TestActor {
    value: u64,
}

impl Actor for TestActor {
    type Args = u64;
    type Deps = u64;
    fn create(args: u64, deps: u64) -> Self {
        Self { value: args + deps }
    }
}

/// Deps-aware factory parsing the args as a big-endian u64.
struct AddingFactory;

impl ErasedActorFactory for AddingFactory {
    type Deps = u64;
    type Created = TestActor;

    fn actor_type_name(&self) -> &'static str {
        "TestActor"
    }

    fn create_erased(&self, args_bytes: &[u8], deps: u64) -> Result<TestActor, SerializationError> {
        if args_bytes.len() != 8 {
            return Err(SerializationError::new("expected 8 bytes"));
        }
        Ok(TestActor::create(u64::from_be_bytes(args_bytes.try_into().unwrap()), deps))
    }
}

type DynRegistry = TypeRegistry<FnDecoder, FnDecoder, AddingFactory>;

#[test]
fn register_and_deserialize_custom() {
    let mut registry: DynRegistry = TypeRegistry::new();

    registry.register("test::Counter", u64_decoder());

    assert!(registry.has_type("test::Counter"));
    assert!(!registry.has_type("test::Unknown"));
    assert_eq!(registry.type_count(), 1);

    let bytes = 42u64.to_be_bytes();
    let any = registry.deserialize("test::Counter", &bytes).unwrap();
    let val = any.downcast::<u64>().unwrap();
    assert_eq!(*val, 42);
}

#[test]
fn deserialize_unknown_type_returns_error() {
    let registry: DynRegistry = TypeRegistry::new();
    let result = registry.deserialize("unknown::Type", &[]);
    assert!(result.is_err());
    assert!(result.unwrap_err().message.contains("no deserializer"));
}

#[test]
fn register_and_create_actor_custom() {
    let mut registry: DynRegistry = TypeRegistry::new();

    registry.register_factory("test::Worker", u64_decoder());

    assert!(registry.has_factory("test::Worker"));
    assert_eq!(registry.factory_count(), 1);

    let bytes = 99u64.to_be_bytes();
    let any = registry.create_actor("test::Worker", &bytes).unwrap();
    let val = any.downcast::<u64>().unwrap();
    assert_eq!(*val, 99);
}

#[test]
fn create_actor_unknown_type_returns_error() {
    let registry: DynRegistry = TypeRegistry::new();
    let result = registry.create_actor("unknown::Actor", &[]);
    assert!(result.is_err());
    assert!(result.unwrap_err().message.contains("no actor factory"));
}

#[test]
fn json_actor_factory_create_from_bytes() {
    let factory = JsonActorFactory::<TestActor>::new();
    let args_bytes = serde_json::to_vec(&42u64).unwrap();
    let parsed: Result<u64, String> =
        serde_json::from_slice(&args_bytes).map_err(|e| e.to_string());
    let actor = factory.create_from_parsed("TestActor", parsed, 0).unwrap();
    assert_eq!(actor.value, 42);
}

#[test]
fn json_actor_factory_invalid_bytes() {
    let factory = JsonActorFactory::<TestActor>::new();
    let parsed: Result<u64, String> =
        serde_json::from_slice(b"not json").map_err(|e| e.to_string());
    let result = factory.create_from_parsed("TestActor", parsed, 0);
    assert!(result.is_err());
}

#[test]
fn error_messages_name_the_missing_type() {
    let registry: DynRegistry = TypeRegistry::default();
    let err = registry.deserialize("a::B", &[]).unwrap_err();
    assert_eq!(err.message, "no deserializer registered for 'a::B'");
    let err = registry.create_actor("c::D", &[]).unwrap_err();
    assert_eq!(err.message, "no actor factory registered for 'c::D'");
    let err = registry.create_actor_with_deps("e::F", &[], 1).unwrap_err();
    assert_eq!(err.message, "no actor factory (trait-based) registered for 'e::F'");
    let factory = JsonActorFactory::<TestActor>::new();
    let err = factory
        .create_from_parsed("TestActor", Err("bad".to_string()), 0)
        .err()
        .unwrap();
    assert_eq!(err.message, "failed to deserialize args for TestActor: bad");
}

#[test]
fn actor_factory_receives_deps_at_creation() {
    let mut registry: DynRegistry = TypeRegistry::new();
    registry.register_actor_factory("test::Adding", AddingFactory);
    assert!(registry.has_factory("test::Adding"));
    assert!(!registry.has_type("test::Adding"));
    assert_eq!(registry.factory_count(), 1);
    let actor = registry
        .create_actor_with_deps("test::Adding", &5u64.to_be_bytes(), 10)
        .unwrap();
    assert_eq!(actor.value, 15);
    let err = registry
        .create_actor_with_deps("test::Adding", &[1, 2], 10)
        .err()
        .unwrap();
    assert_eq!(err.message, "expected 8 bytes");
}

#[test]
fn re_registering_replaces_decoder() {
    let mut registry: DynRegistry = TypeRegistry::new();
    registry.register("t", u64_decoder());
    registry.register(
        "t",
        FnDecoder(Box::new(|_bytes: &[u8]| Ok(Box::new(7u8)))),
    );
    assert_eq!(registry.type_count(), 1);
    let any = registry.deserialize("t", &[]).unwrap();
    assert_eq!(*any.downcast::<u8>().unwrap(), 7);
}

/// Decoder that parses the body as JSON.
struct JsonU64Decoder;

impl BytesDecoder for JsonU64Decoder {
    type Output = u64;

    fn decode(&self, bytes: &[u8]) -> Result<u64, SerializationError> {
        serde_json::from_slice(bytes).map_err(|e| decode_error("u64", &e.to_string()))
    }
}

#[test]
fn register_type_invalid_bytes() {
    let mut registry: TypeRegistry<JsonU64Decoder, JsonU64Decoder, AddingFactory> =
        TypeRegistry::new();
    registry.register("u64", JsonU64Decoder);

    let result = registry.deserialize("u64", b"not json");
    assert!(result.is_err());
    assert!(result.unwrap_err().message.starts_with("failed to deserialize u64: "));
    assert_eq!(registry.deserialize("u64", b"42").unwrap(), 42);
}

#[test]
fn decode_error_names_type_and_cause() {
    let e = decode_error("app::Increment", "expected value at line 1 column 1");
    assert_eq!(
        e.message,
        "failed to deserialize app::Increment: expected value at line 1 column 1"
    );
}

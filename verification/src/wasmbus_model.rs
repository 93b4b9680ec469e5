//! Traits that a service model may attach to its shapes to steer how this
//! library's messages are named, serialized and routed.
use vstd::prelude::*;

verus! {

/// Version of the modelling language that the traits below belong to.
pub const SMITHY_VERSION: &'static str = "1.0";

/// Capability contract id, e.g. 'wasmcloud:httpserver'
pub type CapabilityContractId = String;

/// signed 16-bit int
pub type I16 = i16;

/// signed 32-bit int
pub type I32 = i32;

/// signed 64-bit int
pub type I64 = i64;

/// signed byte
pub type I8 = i8;

/// list of identifiers
pub type IdentifierList = Vec<String>;

/// unsigned 16-bit int
pub type U16 = i16;

/// unsigned 32-bit int
pub type U32 = i32;

/// unsigned 64-bit int
pub type U64 = i64;

/// unsigned byte
pub type U8 = i8;

/// Field sequence number: a zero-based number for each member of a
/// structure. The numbers need not be consecutive.
pub type N = i16;

/// A non-empty string (minimum length 1)
pub type NonEmptyString = String;

/// Names of an item in target languages, for an item whose name is a
/// keyword there.
pub type Rename = Vec<RenameItem>;

/// Switches for the derives of generated Rust types.
#[derive(Clone, Debug, PartialEq, Eq)]
pub struct CodegenRust {
    /// if true, the `Default` trait is not derived
    pub no_derive_default: bool,
    /// if true, the `Eq` trait is not derived
    pub no_derive_eq: bool,
}

/// Says that a trait or class extends one or more bases.
#[derive(Clone, Debug, PartialEq, Eq)]
pub struct Extends {
    pub base: Option<IdentifierList>,
}

/// One entry of a rename trait: the name that an item takes in one target language.
#[derive(Clone, Debug, PartialEq, Eq)]
pub struct RenameItem {
    /// language
    pub lang: String,
    /// the name of the structure, operation or field in that language
    pub name: String,
}

/// Overrides for the serializer and the deserializer.
#[derive(Clone, Debug, PartialEq, Eq)]
pub struct Serialization {
    /// field name on the wire, where it differs from the declared name
    pub name: Option<String>,
}

/// Marks a type as a synonym of another; it changes nothing in what is sent.
#[derive(Clone, Debug, PartialEq, Eq)]
pub struct Synonym {}

/// Marks a number type as unsigned.
#[derive(Clone, Debug, PartialEq, Eq)]
pub struct UnsignedInt {}

/// How a service's operations travel over the bus.
#[derive(Clone, Debug, PartialEq, Eq)]
pub struct Wasmbus {
    /// the service's operations are handled by an actor
    pub actor_receive: bool,
    /// capability contract id, such as "wasmcloud:httpserver";
    /// always present for a service handled by a provider
    pub contract_id: Option<CapabilityContractId>,
    /// the service's operations are handled by a provider
    pub provider_receive: bool,
}

/// Marks data that is sent over the bus.
#[derive(Clone, Debug, PartialEq, Eq)]
pub struct WasmbusData {}

} // verus!

//! AI model agents ("aigents"): the messages they exchange, their
//! capabilities, and the requests of the Anthropic and OpenAI-compatible
//! agents.
//!
//! Sending a request over the network is done by the `Aigent` impls of the
//! caller; building it and reading its reply are here.

pub mod conformance;
pub mod anthropic;
pub mod codex;

use vstd::prelude::*;

verus! {

/// A message passed to an AI model.
#[derive(Debug, Clone, PartialEq, Eq)]
pub struct Message {
    /// Who sent it.
    pub role: Role,
    /// What it says.
    pub content: String,
}

/// The sender of a message in a conversation.
#[derive(Debug, Clone, Copy, PartialEq, Eq, Structural)]
pub enum Role {
    User,
    Assistant,
    System,
}

/// A set of capabilities of an aigent, as bit flags.
#[derive(Debug, Clone, Copy, PartialEq, Eq, Structural)]
pub struct AigentCapability {
    bits: u32,
}

impl AigentCapability {
    /// The flag bits.
    pub closed spec fn spec_bits(&self) -> u32 {
        self.bits
    }

    /// Streaming output.
    #[allow(non_snake_case)]
    pub fn STREAMING() -> (r: AigentCapability)
        ensures
            r.spec_bits() == 1,
    {
        AigentCapability { bits: 1 }
    }

    /// Function calling.
    #[allow(non_snake_case)]
    pub fn FUNCTION_CALLING() -> (r: AigentCapability)
        ensures
            r.spec_bits() == 2,
    {
        AigentCapability { bits: 2 }
    }

    /// Image input.
    #[allow(non_snake_case)]
    pub fn IMAGE_INPUT() -> (r: AigentCapability)
        ensures
            r.spec_bits() == 4,
    {
        AigentCapability { bits: 4 }
    }

    /// No capability.
    pub fn empty() -> (r: AigentCapability)
        ensures
            r.spec_bits() == 0,
    {
        AigentCapability { bits: 0 }
    }

    /// The set with exactly the given bits, known or not.
    pub fn from_bits_retain(bits: u32) -> (r: AigentCapability)
        ensures
            r.spec_bits() == bits,
    {
        AigentCapability { bits }
    }

    /// The flag bits.
    pub fn bits(&self) -> (r: u32)
        ensures
            r == self.spec_bits(),
    {
        self.bits
    }

    /// Whether every flag of `other` is in this set.
    pub fn contains(&self, other: AigentCapability) -> (r: bool)
        ensures
            r == (self.spec_bits() & other.spec_bits() == other.spec_bits()),
    {
        self.bits & other.bits == other.bits
    }

    /// The flags of either set.
    pub fn union(self, other: AigentCapability) -> (r: AigentCapability)
        ensures
            r.spec_bits() == self.spec_bits() | other.spec_bits(),
    {
        AigentCapability { bits: self.bits | other.bits }
    }
}

/// A union holds the flags of both sets.
pub proof fn lemma_union_contains_both(a: u32, b: u32)
    ensures
        (a | b) & a == a,
        (a | b) & b == b,
{
    assert((a | b) & a == a) by (bit_vector);
    assert((a | b) & b == b) by (bit_vector);
}

/// An AI model agent.
pub trait Aigent: Send + Sync {
    /// The model identifier.
    fn model_id(&self) -> &str;

    /// The model's answer to a conversation, or what went wrong.
    fn generate(&self, messages: &[Message]) -> Result<String, String>;

    /// The capabilities of this agent.
    fn capabilities(&self) -> AigentCapability;
}

} // verus!

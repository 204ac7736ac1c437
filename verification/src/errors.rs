//! The failure taxonomy of the mining subsystems.

use crate::text::join;
use vstd::prelude::*;
use vstd::string::*;

verus! {

/// The kinds of failure, without their messages.
#[derive(Debug, Clone, Copy, PartialEq, Eq, Structural)]
pub enum ErrorKind {
    HardwareDetection,
    PoolConnection,
    StratumProtocol,
    ResourceAllocation,
    Coordinator,
    Configuration,
    HashComputation,
}

/// A mining failure: its kind and a human-readable message.
#[derive(Debug)]
pub enum MiningError {
    /// Hardware detection failed.
    HardwareDetection(String),
    /// Pool connection error.
    PoolConnection(String),
    /// Stratum protocol error.
    StratumProtocol(String),
    /// Resource allocation failed.
    ResourceAllocation(String),
    /// Mining coordinator error.
    Coordinator(String),
    /// Configuration error.
    Configuration(String),
    /// SHA-256 computation error.
    HashComputation(String),
}

/// Result type of mining operations.
pub type MiningResult<T> = Result<T, MiningError>;

/// The text that the rendering of an error of the given kind starts with.
pub open spec fn kind_prefix(kind: ErrorKind) -> Seq<char> {
    match kind {
        ErrorKind::HardwareDetection => "Hardware detection error: "@,
        ErrorKind::PoolConnection => "Pool connection error: "@,
        ErrorKind::StratumProtocol => "Stratum protocol error: "@,
        ErrorKind::ResourceAllocation => "Resource allocation error: "@,
        ErrorKind::Coordinator => "Mining coordinator error: "@,
        ErrorKind::Configuration => "Configuration error: "@,
        ErrorKind::HashComputation => "Hash computation error: "@,
    }
}

impl View for MiningError {
    type V = (ErrorKind, Seq<char>);

    /// The kind of the error and the characters of its message.
    open spec fn view(&self) -> (ErrorKind, Seq<char>) {
        match self {
            MiningError::HardwareDetection(m) => (ErrorKind::HardwareDetection, m@),
            MiningError::PoolConnection(m) => (ErrorKind::PoolConnection, m@),
            MiningError::StratumProtocol(m) => (ErrorKind::StratumProtocol, m@),
            MiningError::ResourceAllocation(m) => (ErrorKind::ResourceAllocation, m@),
            MiningError::Coordinator(m) => (ErrorKind::Coordinator, m@),
            MiningError::Configuration(m) => (ErrorKind::Configuration, m@),
            MiningError::HashComputation(m) => (ErrorKind::HashComputation, m@),
        }
    }
}

impl MiningError {
    /// The kind of this error.
    pub fn kind(&self) -> (r: ErrorKind)
        ensures
            r == self@.0,
    {
        match self {
            MiningError::HardwareDetection(_) => ErrorKind::HardwareDetection,
            MiningError::PoolConnection(_) => ErrorKind::PoolConnection,
            MiningError::StratumProtocol(_) => ErrorKind::StratumProtocol,
            MiningError::ResourceAllocation(_) => ErrorKind::ResourceAllocation,
            MiningError::Coordinator(_) => ErrorKind::Coordinator,
            MiningError::Configuration(_) => ErrorKind::Configuration,
            MiningError::HashComputation(_) => ErrorKind::HashComputation,
        }
    }

    /// The message of this error.
    pub fn message(&self) -> (r: &str)
        ensures
            r@ == self@.1,
    {
        match self {
            MiningError::HardwareDetection(m) => m.as_str(),
            MiningError::PoolConnection(m) => m.as_str(),
            MiningError::StratumProtocol(m) => m.as_str(),
            MiningError::ResourceAllocation(m) => m.as_str(),
            MiningError::Coordinator(m) => m.as_str(),
            MiningError::Configuration(m) => m.as_str(),
            MiningError::HashComputation(m) => m.as_str(),
        }
    }

    /// Renders the error: a phrase for its kind, then its message.
    pub fn to_string(&self) -> (r: String)
        ensures
            r@ == kind_prefix(self@.0) + self@.1,
    {
        match self {
            MiningError::HardwareDetection(m) => join("Hardware detection error: ", m.as_str()),
            MiningError::PoolConnection(m) => join("Pool connection error: ", m.as_str()),
            MiningError::StratumProtocol(m) => join("Stratum protocol error: ", m.as_str()),
            MiningError::ResourceAllocation(m) => join("Resource allocation error: ", m.as_str()),
            MiningError::Coordinator(m) => join("Mining coordinator error: ", m.as_str()),
            MiningError::Configuration(m) => join("Configuration error: ", m.as_str()),
            MiningError::HashComputation(m) => join("Hash computation error: ", m.as_str()),
        }
    }
}

/// A configuration error with the given message.
pub fn configuration_error(message: &str) -> (r: MiningError)
    ensures
        r@ == (ErrorKind::Configuration, message@),
{
    MiningError::Configuration(String::from_str(message))
}

/// A pool-connection error with the given message.
pub fn pool_connection_error(message: &str) -> (r: MiningError)
    ensures
        r@ == (ErrorKind::PoolConnection, message@),
{
    MiningError::PoolConnection(String::from_str(message))
}

/// A coordinator error with the given message.
pub fn coordinator_error(message: &str) -> (r: MiningError)
    ensures
        r@ == (ErrorKind::Coordinator, message@),
{
    MiningError::Coordinator(String::from_str(message))
}

/// A hardware-detection error with the given message.
pub fn hardware_error(message: &str) -> (r: MiningError)
    ensures
        r@ == (ErrorKind::HardwareDetection, message@),
{
    MiningError::HardwareDetection(String::from_str(message))
}

} // verus!

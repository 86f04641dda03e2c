use vstd::prelude::*;

verus! {

/// Every way a control-channel command can fail.
///
/// The first three are protocol errors: they are scoped to one connection,
/// which is dropped without applying any command. The last four describe a
/// command that was framed correctly but could not be carried out.
#[derive(Clone, Copy, Debug, PartialEq, Eq, Structural)]
pub enum Error {
    /// Fewer than two bytes were available, so there is no header to read.
    MalformedHeader,
    /// The header's declared payload size does not match the bytes supplied.
    TruncatedMessage,
    /// A length-prefixed field of a payload overruns or underruns its buffer.
    MalformedPayload,
    /// The message id does not name a known command.
    UnknownCommand,
    /// The operating system refused to start the service's process.
    ProcessSpawnError,
    /// The rebuilt proxy gateway could not start listening.
    GatewayRebuildError,
    /// A descriptor field that must be text is not valid UTF-8.
    Utf8DecodeError,
}

} // verus!

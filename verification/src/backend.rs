//! Delivery profiles of message backends.

use vstd::prelude::*;

use crate::error::TransportError;

verus! {

/// Delivery semantics requested from a backend.
#[derive(Debug, Clone, Copy, PartialEq, Eq, Structural)]
pub enum BackendProfile {
    Control,
    Ephemeral,
    Durable,
}

/// Profiles that a backend implements without fallback.
#[derive(Debug, Clone, Copy, PartialEq, Eq, Structural)]
pub struct BackendCapabilities {
    pub control: bool,
    pub ephemeral: bool,
    pub durable: bool,
}

impl Default for BackendCapabilities {
    fn default() -> (c: Self)
        ensures
            c.control,
            c.ephemeral,
            !c.durable,
    {
        BackendCapabilities { control: true, ephemeral: true, durable: false }
    }
}

impl BackendCapabilities {
    /// Whether `profile` is among these.
    pub open spec fn has(self, profile: BackendProfile) -> bool {
        match profile {
            BackendProfile::Control => self.control,
            BackendProfile::Ephemeral => self.ephemeral,
            BackendProfile::Durable => self.durable,
        }
    }

    /// Whether `profile` is among these.
    pub fn supports(self, profile: BackendProfile) -> (b: bool)
        ensures
            b == self.has(profile),
    {
        match profile {
            BackendProfile::Control => self.control,
            BackendProfile::Ephemeral => self.ephemeral,
            BackendProfile::Durable => self.durable,
        }
    }
}

/// Metadata reserved for backends with acknowledgement and replay.
#[derive(Debug, Clone, Copy, PartialEq, Eq)]
pub struct EnvelopeMetadata {
    pub message_id: Option<[u8; 16]>,
    pub sequence: Option<u64>,
    pub partition: Option<u64>,
    pub acknowledgement: Option<u64>,
    pub replay: bool,
    pub checkpoint: Option<u64>,
    pub offset: Option<u64>,
}

impl Default for EnvelopeMetadata {
    fn default() -> (m: Self)
        ensures
            m.message_id is None,
            m.sequence is None,
            m.partition is None,
            m.acknowledgement is None,
            !m.replay,
            m.checkpoint is None,
            m.offset is None,
    {
        EnvelopeMetadata {
            message_id: None,
            sequence: None,
            partition: None,
            acknowledgement: None,
            replay: false,
            checkpoint: None,
            offset: None,
        }
    }
}

/// Whether a backend that does not handle profiles itself may serve `profile` by a
/// plain send or broadcast.
pub open spec fn plain_path_serves(capabilities: BackendCapabilities, profile: BackendProfile) -> bool {
    capabilities.has(profile) && profile != BackendProfile::Durable
}

/// The text with which an unsupported profile is refused.
pub open spec fn unsupported_profile() -> Seq<char> {
    "requested message profile is not supported by this backend"@
}

/// Decides whether a send or broadcast with a profile goes out by the plain path. A
/// refused message is never sent.
pub fn admit_profile(capabilities: BackendCapabilities, profile: BackendProfile) -> (r: Result<
    (),
    TransportError,
>)
    ensures
        match r {
            Ok(()) => plain_path_serves(capabilities, profile),
            Err(TransportError::NotImplemented(text)) => !plain_path_serves(capabilities, profile)
                && text@ == unsupported_profile(),
            Err(_) => false,
        },
{
    if !capabilities.supports(profile) || profile == BackendProfile::Durable {
        return Err(
            TransportError::NotImplemented(
                String::from_str("requested message profile is not supported by this backend"),
            ),
        );
    }
    Ok(())
}

/// A durable message never takes the plain path, whatever a backend claims.
pub proof fn durable_never_takes_the_plain_path(capabilities: BackendCapabilities)
    ensures
        !plain_path_serves(capabilities, BackendProfile::Durable),
{
}

/// A message goes the plain way exactly where its kind of delivery is offered and is not the
/// durable one.
pub proof fn profile_is_admitted_where_offered(
    capabilities: BackendCapabilities,
    profile: BackendProfile,
    r: Result<(), TransportError>,
)
    requires
        call_ensures(admit_profile, (capabilities, profile), r),
    ensures
        r is Ok <==> (profile is Control && capabilities.control) || (profile is Ephemeral
            && capabilities.ephemeral),
        r matches Err(e) ==> e is NotImplemented,
        capabilities.has(BackendProfile::Control) == capabilities.control,
        capabilities.has(BackendProfile::Ephemeral) == capabilities.ephemeral,
        capabilities.has(BackendProfile::Durable) == capabilities.durable,
{
}

} // verus!

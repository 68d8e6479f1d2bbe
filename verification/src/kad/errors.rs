//! The errors of queries, and what they say.

use vstd::prelude::*;
use vstd::string::StringExecFns;

use crate::kad::events::AddProviderError;
use crate::kad::events::BootstrapError;
use crate::kad::events::GetClosestPeersError;
use crate::kad::events::GetProvidersError;
use crate::kad::events::GetRecordError;
use crate::kad::events::NoKnownPeers;
use crate::kad::events::PutRecordError;
use crate::kad::protocol::Mode;
use crate::kad::record::Key;
use crate::nonzero::NonZeroUsize;
use crate::text::append_decimal;
use crate::text::decimal;

verus! {

/// What is said where too few peers have a record.
pub open spec fn quorum_text(quorum: NonZeroUsize) -> Seq<char> {
    "the quorum failed; needed "@ + decimal(quorum@ as nat) + " peers"@
}

/// What is said where too few peers have a record.
fn quorum_message(quorum: &NonZeroUsize) -> (r: String)
    ensures
        r@ == quorum_text(*quorum),
{
    let mut s = String::from_str("the quorum failed; needed ");
    append_decimal(&mut s, quorum.get());
    s.append(" peers");
    s
}

impl GetRecordError {
    /// The key of the record.
    pub open spec fn spec_key(&self) -> Key {
        match self {
            GetRecordError::QuorumFailed { key, .. } => *key,
            GetRecordError::Timeout { key } => *key,
            GetRecordError::NotFound { key, .. } => *key,
        }
    }

    /// The key of the record.
    pub fn key(&self) -> (r: &Key)
        ensures
            *r == self.spec_key(),
    {
        match self {
            GetRecordError::QuorumFailed { key, .. } => key,
            GetRecordError::Timeout { key } => key,
            GetRecordError::NotFound { key, .. } => key,
        }
    }

    /// The key of the record, in exchange for the error.
    pub fn into_key(self) -> (r: Key)
        ensures
            r == self.spec_key(),
    {
        match self {
            GetRecordError::QuorumFailed { key, .. } => key,
            GetRecordError::Timeout { key } => key,
            GetRecordError::NotFound { key, .. } => key,
        }
    }

    /// What the error says.
    pub fn message(&self) -> (r: String)
        ensures
            r@ == (match self {
                GetRecordError::NotFound { .. } => "the record was not found"@,
                GetRecordError::QuorumFailed { quorum, .. } => quorum_text(*quorum),
                GetRecordError::Timeout { .. } => "the request timed out"@,
            }),
    {
        match self {
            GetRecordError::NotFound { .. } => String::from_str("the record was not found"),
            GetRecordError::QuorumFailed { quorum, .. } => quorum_message(quorum),
            GetRecordError::Timeout { .. } => String::from_str("the request timed out"),
        }
    }
}

impl PutRecordError {
    /// The key of the record.
    pub open spec fn spec_key(&self) -> Key {
        match self {
            PutRecordError::QuorumFailed { key, .. } => *key,
            PutRecordError::Timeout { key, .. } => *key,
        }
    }

    /// The key of the record.
    pub fn key(&self) -> (r: &Key)
        ensures
            *r == self.spec_key(),
    {
        match self {
            PutRecordError::QuorumFailed { key, .. } => key,
            PutRecordError::Timeout { key, .. } => key,
        }
    }

    /// The key of the record, in exchange for the error.
    pub fn into_key(self) -> (r: Key)
        ensures
            r == self.spec_key(),
    {
        match self {
            PutRecordError::QuorumFailed { key, .. } => key,
            PutRecordError::Timeout { key, .. } => key,
        }
    }

    /// What the error says.
    pub fn message(&self) -> (r: String)
        ensures
            r@ == (match self {
                PutRecordError::QuorumFailed { quorum, .. } => quorum_text(*quorum),
                PutRecordError::Timeout { .. } => "the request timed out"@,
            }),
    {
        match self {
            PutRecordError::QuorumFailed { quorum, .. } => quorum_message(quorum),
            PutRecordError::Timeout { .. } => String::from_str("the request timed out"),
        }
    }
}

impl BootstrapError {
    /// What the error says.
    pub fn message(&self) -> (r: String)
        ensures
            r@ == "the request timed out"@,
    {
        String::from_str("the request timed out")
    }
}

impl GetClosestPeersError {
    /// The key that was looked for.
    pub fn key(&self) -> (r: &Vec<u8>)
        ensures
            *r == self->key,
    {
        match self {
            GetClosestPeersError::Timeout { key, .. } => key,
        }
    }

    /// The key that was looked for, in exchange for the error.
    pub fn into_key(self) -> (r: Vec<u8>)
        ensures
            r == self->key,
    {
        match self {
            GetClosestPeersError::Timeout { key, .. } => key,
        }
    }

    /// What the error says.
    pub fn message(&self) -> (r: String)
        ensures
            r@ == "the request timed out"@,
    {
        String::from_str("the request timed out")
    }
}

impl GetProvidersError {
    /// The key that was looked for.
    pub fn key(&self) -> (r: &Key)
        ensures
            *r == self->key,
    {
        match self {
            GetProvidersError::Timeout { key, .. } => key,
        }
    }

    /// The key that was looked for, in exchange for the error.
    pub fn into_key(self) -> (r: Key)
        ensures
            r == self->key,
    {
        match self {
            GetProvidersError::Timeout { key, .. } => key,
        }
    }

    /// What the error says.
    pub fn message(&self) -> (r: String)
        ensures
            r@ == "the request timed out"@,
    {
        String::from_str("the request timed out")
    }
}

impl AddProviderError {
    /// The key that was announced.
    pub fn key(&self) -> (r: &Key)
        ensures
            *r == self->key,
    {
        match self {
            AddProviderError::Timeout { key } => key,
        }
    }

    /// The key that was announced, in exchange for the error.
    pub fn into_key(self) -> (r: Key)
        ensures
            r == self->key,
    {
        match self {
            AddProviderError::Timeout { key } => key,
        }
    }

    /// What the error says.
    pub fn message(&self) -> (r: String)
        ensures
            r@ == "the request timed out"@,
    {
        String::from_str("the request timed out")
    }
}

impl NoKnownPeers {
    /// What the error says.
    pub fn message(&self) -> (r: String)
        ensures
            r@ == "No known peers."@,
    {
        String::from_str("No known peers.")
    }
}

impl Mode {
    /// The name of the mode.
    pub fn name(&self) -> (r: String)
        ensures
            r@ == (match self {
                Mode::Client => "client"@,
                Mode::Server => "server"@,
            }),
    {
        match self {
            Mode::Client => String::from_str("client"),
            Mode::Server => String::from_str("server"),
        }
    }
}

} // verus!

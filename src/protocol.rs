//! The wire envelope exchanged with clients, and the names of the topics a
//! session derives from its passphrase.

use vstd::prelude::*;

verus! {

/// Peer role.
#[derive(Clone, Copy, Debug, PartialEq, Eq, Structural)]
pub enum Role {
    Initiator,
    Responder,
}

/// The opposite of a role, in specifications.
pub open spec fn opposite_role(r: Role) -> Role {
    match r {
        Role::Initiator => Role::Responder,
        Role::Responder => Role::Initiator,
    }
}

/// The printed name of a role.
pub open spec fn role_name(r: Role) -> Seq<char> {
    match r {
        Role::Initiator => "Initiator"@,
        Role::Responder => "Responder"@,
    }
}

impl Role {
    pub fn opposite(&self) -> (r: Role)
        ensures
            r == opposite_role(*self),
    {
        match self {
            Role::Initiator => Role::Responder,
            Role::Responder => Role::Initiator,
        }
    }

    /// The role's name, `Initiator` or `Responder`.
    pub fn to_string(&self) -> (r: String)
        ensures
            r@ == role_name(*self),
    {
        match self {
            Role::Initiator => String::from_str("Initiator"),
            Role::Responder => String::from_str("Responder"),
        }
    }
}

/// An ICE candidate, relayed between the peers without being read.
#[derive(Clone, Debug, PartialEq, Eq)]
pub struct IceCandidate {
    pub candidate: String,
    pub sdp_mid: Option<String>,
    pub sdp_m_line_index: Option<u16>,
}

/// One message of the signaling protocol.
#[derive(Clone, Debug, PartialEq, Eq)]
pub enum Event {
    Role(Role),
    Passphrase(String),
    Offer(String),
    Answer(String),
    IceCandidate(IceCandidate),
    Error(String),
    CloseConnection,
}

/// The topic name `prefix:suffix`.
pub open spec fn topic_name(prefix: Seq<char>, suffix: Seq<char>) -> Seq<char> {
    prefix + ":"@ + suffix
}

/// Name of the topic on which the holder of `role` publishes.
pub open spec fn role_topic(passphrase: Seq<char>, role: Role) -> Seq<char> {
    topic_name(passphrase, role_name(role))
}

/// Name of the topic used for the one-time handshake between the two roles.
pub open spec fn notification_topic(passphrase: Seq<char>) -> Seq<char> {
    topic_name(passphrase, "notification"@)
}

/// The topic name `prefix:role`.
pub fn channel_name(prefix: String, role: &Role) -> (r: String)
    ensures
        r@ == role_topic(prefix@, *role),
{
    let suffix = role.to_string();
    let r = prefix.concat(":").concat(suffix.as_str());
    r
}

/// The topic name `passphrase:notification`.
pub fn notification_channel_name(passphrase: &String) -> (r: String)
    ensures
        r@ == notification_topic(passphrase@),
{
    let r = passphrase.clone().concat(":").concat("notification");
    r
}

} // verus!

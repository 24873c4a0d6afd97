//! The checks on the answer to an opening handshake.
use vstd::prelude::*;

verus! {

/// The close reason sent when a peer answers with an invalid message.
pub const CLOSE_REASON_INVALID: u8 = 2;

/// What a received transport message holds, as far as the opening
/// handshake is concerned.
#[derive(Clone, Copy, Debug, PartialEq, Eq, Structural)]
pub enum TransportBodyKind {
    /// An acknowledgement of the opening, with the peer's initial sequence
    /// number and lease (in milliseconds).
    OpenAck { initial_sn: u64, lease_ms: u64 },
    /// A close message with its reason.
    Close { reason: u8 },
    /// Any other message.
    Other,
}

/// What the opening handshake goes on with.
#[derive(Clone, Copy, Debug, PartialEq, Eq, Structural)]
pub struct OpenAckOutput {
    pub initial_sn: u64,
    pub lease_ms: u64,
}

/// Why an answer to an opening is refused.
#[derive(Clone, Copy, Debug, PartialEq, Eq, Structural)]
pub enum OpenAckError {
    /// Not exactly one message was received (how many were).
    MessageCount(usize),
    /// The peer closed the link, for this reason.
    Closed(u8),
    /// The message is no acknowledgement of the opening.
    Unexpected,
    /// The properties attached to the acknowledgement cannot be read.
    BadAttachment,
    /// A peer authenticator refused the acknowledgement.
    Refused,
}

impl OpenAckError {
    /// The close reason to send back: none when the peer closed the link
    /// itself, "invalid" otherwise.
    pub fn close_reason(&self) -> (r: Option<u8>)
        ensures
            r == match self {
                OpenAckError::Closed(_) => None,
                _ => Some(CLOSE_REASON_INVALID),
            },
    {
        match self {
            OpenAckError::Closed(_) => None,
            _ => Some(CLOSE_REASON_INVALID),
        }
    }
}

/// Checks the messages received in answer to an opening: exactly one,
/// and an acknowledgement of the opening.
pub fn check_open_ack(messages: &Vec<TransportBodyKind>) -> (r: Result<OpenAckOutput, OpenAckError>)
    ensures
        messages@.len() != 1 ==> r == Err::<OpenAckOutput, OpenAckError>(OpenAckError::MessageCount(messages@.len() as usize)),
        messages@.len() == 1 ==> r == match messages@[0] {
            TransportBodyKind::OpenAck { initial_sn, lease_ms } => Ok(OpenAckOutput { initial_sn, lease_ms }),
            TransportBodyKind::Close { reason } => Err(OpenAckError::Closed(reason)),
            TransportBodyKind::Other => Err(OpenAckError::Unexpected),
        },
{
    if messages.len() != 1 {
        return Err(OpenAckError::MessageCount(messages.len()));
    }
    match messages[0] {
        TransportBodyKind::OpenAck { initial_sn, lease_ms } => Ok(OpenAckOutput { initial_sn, lease_ms }),
        TransportBodyKind::Close { reason } => Err(OpenAckError::Closed(reason)),
        TransportBodyKind::Other => Err(OpenAckError::Unexpected),
    }
}

/// The position of the first property with key `key`.
pub open spec fn first_with_key(props: Seq<(u64, Vec<u8>)>, key: u64) -> Option<int>
    decreases props.len(),
{
    if props.len() == 0 {
        None
    } else if props[0].0 == key {
        Some(0)
    } else {
        match first_with_key(props.drop_first(), key) {
            Some(i) => Some(i + 1),
            None => None,
        }
    }
}

proof fn lemma_first_with_key(props: Seq<(u64, Vec<u8>)>, key: u64)
    ensures
        first_with_key(props, key) matches Some(i) ==> 0 <= i < props.len() && props[i].0 == key
            && forall|j: int| 0 <= j < i ==> props[j].0 != key,
        first_with_key(props, key) is None ==> forall|j: int| 0 <= j < props.len() ==> props[j].0 != key,
    decreases props.len(),
{
    if props.len() > 0 && props[0].0 != key {
        lemma_first_with_key(props.drop_first(), key);
        assert forall|j: int| 1 <= j < props.len() implies props[j] == props.drop_first()[j - 1] by {}
    }
}

/// What each peer authenticator, in turn, is handed of the properties of
/// an acknowledgement: the value of the first property still left with the
/// authenticator's key, which is then taken out, or nothing.
pub open spec fn handed_out(props: Seq<(u64, Vec<u8>)>, keys: Seq<u64>) -> Seq<Option<Vec<u8>>>
    decreases keys.len(),
{
    if keys.len() == 0 {
        Seq::empty()
    } else {
        match first_with_key(props, keys[0]) {
            Some(j) => seq![Some(props[j].1)] + handed_out(props.remove(j), keys.drop_first()),
            None => seq![None] + handed_out(props, keys.drop_first()),
        }
    }
}

/// The position of the first property with key `key`.
fn find_property(props: &Vec<(u64, Vec<u8>)>, key: u64) -> (r: Option<usize>)
    ensures
        r matches Some(i) ==> first_with_key(props@, key) == Some(i as int),
        r is None ==> first_with_key(props@, key) is None,
{
    let mut i: usize = 0;
    while i < props.len()
        invariant
            i <= props.len(),
            forall|j: int| 0 <= j < i ==> props@[j].0 != key,
        decreases props.len() - i,
    {
        if props[i].0 == key {
            proof {
                lemma_first_with_key(props@, key);
                match first_with_key(props@, key) {
                    Some(f) => {
                        if f > i { assert(props@[i as int].0 == key); }
                    },
                    None => { assert(props@[i as int].0 == key); },
                }
            }
            return Some(i);
        }
        i = i + 1;
    }
    proof {
        lemma_first_with_key(props@, key);
        match first_with_key(props@, key) {
            Some(f) => { assert(props@[f].0 == key); },
            None => {},
        }
    }
    None
}

/// Hands the properties of an acknowledgement to the peer authenticators,
/// whose keys are `keys`, in order: each one gets the value of the first
/// property left with its key, which is taken out, or nothing.
pub fn authenticator_inputs(properties: Vec<(u64, Vec<u8>)>, keys: &Vec<u64>) -> (r: Vec<Option<Vec<u8>>>)
    ensures
        r@ == handed_out(properties@, keys@),
{
    let ghost props0 = properties@;
    let mut rem = properties;
    let mut out: Vec<Option<Vec<u8>>> = Vec::new();
    let mut i: usize = 0;
    assert(keys@.skip(0) =~= keys@);
    assert(out@ + handed_out(rem@, keys@) =~= handed_out(props0, keys@));
    while i < keys.len()
        invariant
            i <= keys.len(),
            handed_out(props0, keys@) == out@ + handed_out(rem@, keys@.skip(i as int)),
        decreases keys.len() - i,
    {
        let ghost rest = keys@.skip(i as int);
        let ghost before = rem@;
        assert(rest[0] == keys@[i as int]);
        assert(rest.drop_first() =~= keys@.skip(i + 1));
        match find_property(&rem, keys[i]) {
            Some(j) => {
                proof {
                    lemma_first_with_key(rem@, keys@[i as int]);
                }
                let (_, value) = rem.remove(j);
                proof {
                    assert(handed_out(before, rest) == seq![Some(value)] + handed_out(rem@, keys@.skip(i + 1)));
                }
                out.push(Some(value));
                proof {
                    assert(out@ + handed_out(rem@, keys@.skip(i + 1)) =~=
                        out@.drop_last() + (seq![Some(value)] + handed_out(rem@, keys@.skip(i + 1))));
                }
            },
            None => {
                out.push(None);
                proof {
                    assert(out@ + handed_out(rem@, keys@.skip(i + 1)) =~=
                        out@.drop_last() + (seq![None] + handed_out(rem@, keys@.skip(i + 1))));
                }
            },
        }
        i = i + 1;
    }
    assert(keys@.skip(i as int).len() == 0);
    assert(out@ + Seq::<Option<Vec<u8>>>::empty() =~= out@);
    out
}

} // verus!

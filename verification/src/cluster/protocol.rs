//! Messages between the coordinator and its workers: framing, and what each
//! message does to a connection.
use vstd::prelude::*;
use crate::cluster::analyzer::NodeCapability;
use crate::text::{same, Text};

verus! {

/// Cap on the size that a message may declare: the length comes from a peer,
/// and nothing is allocated for more.
pub const MAX_MESSAGE_BYTES: u32 = 16_777_216;

/// What a message declares exceeds the cap.
#[derive(Debug, Clone, Copy, PartialEq, Eq, Structural)]
pub struct MessageTooLong {
    pub declared: u32,
}

/// A length as it stands in front of a message: the highest byte first.
pub open spec fn length_bytes(n: u32) -> Seq<u8> {
    let v = n as int;
    seq![
        (v / 16777216) as u8,
        (v / 65536 % 256) as u8,
        (v / 256 % 256) as u8,
        (v % 256) as u8,
    ]
}

/// The length that four bytes declare.
pub open spec fn declared(b: Seq<u8>) -> int {
    16777216 * b[0] + 65536 * b[1] + 256 * b[2] + b[3]
}

/// A message as it goes over the wire: its length, then its bytes. A message
/// of more bytes than a length can say is given its length cut off.
pub fn frame_message(payload: &[u8]) -> (out: Vec<u8>)
    ensures
        out@ == length_bytes(payload@.len() as u32) + payload@,
{
    let n: u32 = payload.len() as u32;
    let mut out: Vec<u8> = Vec::new();
    out.push((n / 16777216) as u8);
    out.push((n / 65536 % 256) as u8);
    out.push((n / 256 % 256) as u8);
    out.push((n % 256) as u8);
    assert(out@ =~= length_bytes(n));
    let mut i: usize = 0;
    while i < payload.len()
        invariant
            i <= payload@.len(),
            out@ == length_bytes(n) + payload@.take(i as int),
        decreases payload@.len() - i,
    {
        out.push(payload[i]);
        assert(payload@.take(i + 1) =~= payload@.take(i as int).push(payload@[i as int]));
        i += 1;
    }
    assert(payload@.take(i as int) =~= payload@);
    out
}

/// How many bytes follow a length. A length above the cap is refused.
pub fn message_len(len: &[u8; 4]) -> (r: Result<u32, MessageTooLong>)
    ensures
        match r {
            Ok(n) => n == declared(len@) && n <= MAX_MESSAGE_BYTES,
            Err(e) => e.declared == declared(len@) && e.declared > MAX_MESSAGE_BYTES,
        },
        r is Ok <==> declared(len@) <= 16_777_216,
{
    let n: u32 = 16777216 * len[0] as u32 + 65536 * len[1] as u32 + 256 * len[2] as u32
        + len[3] as u32;
    if n > MAX_MESSAGE_BYTES {
        Err(MessageTooLong { declared: n })
    } else {
        Ok(n)
    }
}

/// A message within the cap is read back as it was framed, whatever follows it:
/// its length is declared truly and not refused, the bytes behind the length are
/// its own, and what follows is left where the next message is read.
pub proof fn law_frame_reads_back(payload: Seq<u8>, rest: Seq<u8>)
    requires
        payload.len() <= MAX_MESSAGE_BYTES,
    ensures
        ({
            let framed = length_bytes(payload.len() as u32) + payload;
            let stream = framed + rest;
            let n = declared(stream.take(4));
            &&& framed.len() == 4 + payload.len()
            &&& n == payload.len() && n <= MAX_MESSAGE_BYTES
            &&& stream.subrange(4, 4 + n) == payload
            &&& stream.skip(4 + n) == rest
        }),
{
    let framed = length_bytes(payload.len() as u32) + payload;
    let stream = framed + rest;
    assert(stream.take(4) =~= length_bytes(payload.len() as u32));
    assert(stream.subrange(4, 4 + payload.len() as int) =~= payload);
    assert(stream.skip(4 + payload.len() as int) =~= rest);
}

/// A message.
#[derive(Debug, Clone)]
pub enum ClusterMessage<S = String> {
    /// The first message of a worker: who it is and what it can do.
    Hello { node_id: S, capability: NodeCapability },
    /// The worker is alive.
    Heartbeat { node_id: S },
    /// The coordinator's answer to `Hello`.
    Welcome,
}

impl View for ClusterMessage {
    type V = ClusterMessage<Text>;

    open spec fn view(&self) -> ClusterMessage<Text> {
        match *self {
            ClusterMessage::Hello { node_id, capability } => ClusterMessage::Hello {
                node_id: node_id@,
                capability,
            },
            ClusterMessage::Heartbeat { node_id } => ClusterMessage::Heartbeat {
                node_id: node_id@,
            },
            ClusterMessage::Welcome => ClusterMessage::Welcome,
        }
    }
}

/// What a connection receives.
#[derive(Debug, Clone)]
pub enum Received<S = String> {
    Message(ClusterMessage<S>),
    /// The peer closed the connection between messages.
    Closed,
    /// The connection broke, or what came was no message.
    Broken,
}

impl View for Received {
    type V = Received<Text>;

    open spec fn view(&self) -> Received<Text> {
        match *self {
            Received::Message(m) => Received::Message(m@),
            Received::Closed => Received::Closed,
            Received::Broken => Received::Broken,
        }
    }
}

/// What a connection received that ended when `read` of the bytes that give the
/// next message's length had come: it was closed between messages where none
/// had, and broke where some had.
pub fn after_prefix(read: usize) -> (r: Received)
    requires
        read < 4,
    ensures
        read == 0 ==> r is Closed,
        read > 0 ==> r is Broken,
{
    if read == 0 {
        Received::Closed
    } else {
        Received::Broken
    }
}

/// What the coordinator does about what a connection received.
#[derive(Debug, Clone)]
pub enum Reaction<S = String> {
    /// Enter the node, count it as heard of, and welcome it.
    Register { node_id: S, capability: NodeCapability },
    /// Count the node as heard of. The beat may have named another.
    Beat { node_id: S, named_other: bool },
    /// The message has no place here.
    Ignore,
    /// End a connection that no node was entered for.
    Refuse,
    /// Remove the node at once and end the connection.
    Remove { node_id: S },
}

impl View for Reaction {
    type V = Reaction<Text>;

    open spec fn view(&self) -> Reaction<Text> {
        match *self {
            Reaction::Register { node_id, capability } => Reaction::Register {
                node_id: node_id@,
                capability,
            },
            Reaction::Beat { node_id, named_other } => Reaction::Beat {
                node_id: node_id@,
                named_other,
            },
            Reaction::Ignore => Reaction::Ignore,
            Reaction::Refuse => Reaction::Refuse,
            Reaction::Remove { node_id } => Reaction::Remove { node_id: node_id@ },
        }
    }
}

/// What the coordinator does, on a connection that the node `own` was entered
/// for, if one was.
pub open spec fn reaction(own: Option<Text>, what: Received<Text>) -> Reaction<Text> {
    match own {
        None => match what {
            Received::Message(ClusterMessage::Hello { node_id, capability }) => Reaction::Register {
                node_id,
                capability,
            },
            _ => Reaction::Refuse,
        },
        Some(id) => match what {
            Received::Message(ClusterMessage::Heartbeat { node_id }) => Reaction::Beat {
                node_id: id,
                named_other: node_id != id,
            },
            Received::Message(_) => Reaction::Ignore,
            Received::Closed => Reaction::Remove { node_id: id },
            Received::Broken => Reaction::Remove { node_id: id },
        },
    }
}

/// The node that a connection is entered for, after a reaction.
pub open spec fn entered(own: Option<Text>, r: Reaction<Text>) -> Option<Text> {
    match r {
        Reaction::Register { node_id, .. } => Some(node_id),
        Reaction::Remove { .. } => None,
        _ => own,
    }
}

/// A worker's connection, as the coordinator sees it.
#[derive(Debug, Clone)]
pub struct WorkerConnection {
    pub node_id: Option<String>,
}

impl WorkerConnection {
    /// The node that the connection is entered for.
    pub open spec fn own(self) -> Option<Text> {
        match self.node_id {
            Some(id) => Some(id@),
            None => None,
        }
    }

    /// A new connection: its first message must be `Hello`.
    pub fn new() -> (c: Self)
        ensures
            c.own() is None,
    {
        WorkerConnection { node_id: None }
    }

    /// What to do about what came. A beat counts for the node that the
    /// connection was entered for, whatever name it carries; and the node is
    /// removed as soon as the connection ends.
    pub fn handle(&mut self, what: Received) -> (r: Reaction)
        ensures
            r@ == reaction(old(self).own(), what@),
            final(self).own() == entered(old(self).own(), r@),
    {
        match &self.node_id {
            None => match what {
                Received::Message(ClusterMessage::Hello { node_id, capability }) => {
                    self.node_id = Some(node_id.clone());
                    Reaction::Register { node_id, capability }
                },
                _ => Reaction::Refuse,
            },
            Some(id) => {
                let own = id.clone();
                match what {
                    Received::Message(ClusterMessage::Heartbeat { node_id }) => {
                        let named_other = !same(&node_id, &own);
                        Reaction::Beat { node_id: own, named_other }
                    },
                    Received::Message(_) => Reaction::Ignore,
                    Received::Closed => {
                        self.node_id = None;
                        Reaction::Remove { node_id: own }
                    },
                    Received::Broken => {
                        self.node_id = None;
                        Reaction::Remove { node_id: own }
                    },
                }
            },
        }
    }
}

/// The nodes that are entered, after the coordinator reacted.
pub open spec fn nodes_after(nodes: Set<Text>, r: Reaction<Text>) -> Set<Text> {
    match r {
        Reaction::Register { node_id, .. } => nodes.insert(node_id),
        Reaction::Remove { node_id } => nodes.remove(node_id),
        _ => nodes,
    }
}

/// A connection neither enters nor removes any node but its own, and leaves
/// none behind when it ends.
pub proof fn law_connection_keeps_to_itself(
    nodes: Set<Text>,
    own: Option<Text>,
    what: Received<Text>,
    other: Text,
)
    requires
        own matches Some(id) ==> id != other,
        what matches Received::Message(ClusterMessage::Hello { node_id, .. }) ==> node_id != other,
    ensures
        nodes_after(nodes, reaction(own, what)).contains(other) == nodes.contains(other),
        own is Some && (what is Closed || what is Broken) ==> !nodes_after(
            nodes,
            reaction(own, what),
        ).contains(own->0),
{
}

/// What a worker does about the coordinator's answer to its `Hello`: only
/// `Welcome` will do.
pub fn is_welcome(what: &Received) -> (b: bool)
    ensures
        b == (what@ == Received::Message(ClusterMessage::<Text>::Welcome)),
{
    match what {
        Received::Message(ClusterMessage::Welcome) => true,
        _ => false,
    }
}

/// A length stands with its highest byte first.
pub proof fn law_highest_byte_first(n: u32, b: Seq<u8>)
    ensures
        length_bytes(n).len() == 4,
        length_bytes(n)[0] == n / 0x100_0000,
        length_bytes(n)[3] == n % 0x100,
        length_bytes(n)[0] * 0x100_0000 + length_bytes(n)[1] * 0x1_0000 + length_bytes(n)[2] * 0x100
            + length_bytes(n)[3] == n,
        declared(b) == b[0] * 0x100_0000 + b[1] * 0x1_0000 + b[2] * 0x100 + b[3],
{
}

/// A connection begins with `Hello`, which enters the node that it names; until
/// then anything else ends it. From then on a beat counts for that node, a
/// message of another kind changes nothing, and the end removes the node.
pub proof fn law_reactions(id: Text, name: Text, capability: NodeCapability, what: Received<Text>)
    ensures
        reaction(
            None,
            Received::Message(ClusterMessage::Hello { node_id: name, capability }),
        ) == (Reaction::Register { node_id: name, capability }),
        !(what matches Received::Message(ClusterMessage::Hello { .. })) ==> reaction(None, what)
            == Reaction::<Text>::Refuse,
        reaction(Some(id), Received::Message(ClusterMessage::Heartbeat { node_id: name })) == (
        Reaction::Beat { node_id: id, named_other: name != id }),
        reaction(
            Some(id),
            Received::Message(ClusterMessage::Hello { node_id: name, capability }),
        ) == Reaction::<Text>::Ignore,
        reaction(Some(id), Received::Message(ClusterMessage::Welcome)) == Reaction::<Text>::Ignore,
        reaction(Some(id), Received::Closed) == (Reaction::Remove { node_id: id }),
        reaction(Some(id), Received::Broken) == (Reaction::Remove { node_id: id }),
{
}

/// A node is entered from its `Hello` to the end of its connection.
pub proof fn law_nodes_come_and_go(
    nodes: Set<Text>,
    own: Option<Text>,
    id: Text,
    capability: NodeCapability,
)
    ensures
        nodes_after(nodes, Reaction::Register { node_id: id, capability }) == nodes.insert(id),
        nodes_after(nodes, Reaction::Remove { node_id: id }) == nodes.remove(id),
        nodes_after(nodes, Reaction::Ignore) == nodes,
        nodes_after(nodes, Reaction::Refuse) == nodes,
        entered(own, Reaction::Register { node_id: id, capability }) == Some(id),
        entered(own, Reaction::Remove { node_id: id }) is None,
        entered(own, Reaction::Ignore) == own,
        entered(own, Reaction::Refuse) == own,
        entered(own, Reaction::Beat { node_id: id, named_other: true }) == own,
        entered(own, Reaction::Beat { node_id: id, named_other: false }) == own,
{
}

} // verus!

//! What a simulation did, event by event, and the text of it.

use vstd::prelude::*;

use crate::mock::schedule::DirectedLink;
use crate::node::NodeId;
use crate::text::{decimal, hex, push_decimal, push_hex};

verus! {

/// What happened.
#[derive(Debug, Clone, Copy, PartialEq, Eq, Structural)]
pub enum EventKind {
    Scheduled,
    Delivered,
    Dropped,
    Partitioned,
    Healed,
    Reconnected,
    StaleGeneration,
}

/// The name of a kind of event.
pub open spec fn kind_name(kind: EventKind) -> Seq<char> {
    match kind {
        EventKind::Scheduled => "scheduled"@,
        EventKind::Delivered => "delivered"@,
        EventKind::Dropped => "dropped"@,
        EventKind::Partitioned => "partitioned"@,
        EventKind::Healed => "healed"@,
        EventKind::Reconnected => "reconnected"@,
        EventKind::StaleGeneration => "stale_generation"@,
    }
}

impl EventKind {
    /// The name of this kind.
    pub fn as_str(self) -> (name: &'static str)
        ensures
            name@ == kind_name(self),
    {
        match self {
            EventKind::Scheduled => "scheduled",
            EventKind::Delivered => "delivered",
            EventKind::Dropped => "dropped",
            EventKind::Partitioned => "partitioned",
            EventKind::Healed => "healed",
            EventKind::Reconnected => "reconnected",
            EventKind::StaleGeneration => "stale_generation",
        }
    }
}

/// One event of a simulation.
#[derive(Debug, PartialEq, Eq)]
pub struct EventRecord {
    pub sequence: u64,
    pub time: u64,
    pub kind: EventKind,
    pub packet_id: Option<u64>,
    pub parent_packet_id: Option<u64>,
    pub copy: Option<u16>,
    pub link: Option<DirectedLink>,
    pub node: Option<NodeId>,
    pub generation: Option<u64>,
    pub frame_fingerprint: Option<String>,
}

/// An event, seen as plain values.
pub struct EventView {
    pub sequence: u64,
    pub time: u64,
    pub kind: EventKind,
    pub packet_id: Option<u64>,
    pub parent_packet_id: Option<u64>,
    pub copy: Option<u16>,
    pub link: Option<DirectedLink>,
    pub node: Option<NodeId>,
    pub generation: Option<u64>,
    pub frame_fingerprint: Option<Seq<char>>,
}

/// The view of a text that may be missing.
pub open spec fn optional_text(text: Option<String>) -> Option<Seq<char>> {
    match text {
        Some(t) => Some(t@),
        None => None,
    }
}

impl View for EventRecord {
    type V = EventView;

    open spec fn view(&self) -> EventView {
        EventView {
            sequence: self.sequence,
            time: self.time,
            kind: self.kind,
            packet_id: self.packet_id,
            parent_packet_id: self.parent_packet_id,
            copy: self.copy,
            link: self.link,
            node: self.node,
            generation: self.generation,
            frame_fingerprint: optional_text(self.frame_fingerprint),
        }
    }
}

impl Clone for EventRecord {
    fn clone(&self) -> (copy: Self)
        ensures
            copy@ == self@,
    {
        EventRecord {
            sequence: self.sequence,
            time: self.time,
            kind: self.kind,
            packet_id: self.packet_id,
            parent_packet_id: self.parent_packet_id,
            copy: self.copy,
            link: self.link,
            node: self.node,
            generation: self.generation,
            frame_fingerprint: match &self.frame_fingerprint {
                Some(text) => Some(text.clone()),
                None => None,
            },
        }
    }
}

/// A number, or a dash where there is none.
pub open spec fn number_or_dash(n: Option<u64>) -> Seq<char> {
    match n {
        Some(n) => decimal(n as nat),
        None => "-"@,
    }
}

/// The thirty-two hexadecimal digits of a node's identifier.
pub open spec fn node_text(node: NodeId) -> Seq<char> {
    hex(node.id as nat, 32)
}

/// A link as text: source, `>`, target.
pub open spec fn link_text(link: DirectedLink) -> Seq<char> {
    node_text(link.source) + ">"@ + node_text(link.target)
}

/// The ten fields of an event, with `|` between them and a dash for what is missing.
pub open spec fn event_text(e: EventView) -> Seq<char> {
    decimal(e.sequence as nat) + "|"@ + decimal(e.time as nat) + "|"@ + kind_name(e.kind) + "|"@
        + number_or_dash(e.packet_id) + "|"@ + number_or_dash(
        match e.copy {
            Some(c) => Some(c as u64),
            None => None,
        },
    ) + "|"@ + (match e.link {
        Some(link) => link_text(link),
        None => "-"@,
    }) + "|"@ + number_or_dash(e.parent_packet_id) + "|"@ + (match e.node {
        Some(node) => node_text(node),
        None => "-"@,
    }) + "|"@ + number_or_dash(e.generation) + "|"@ + (match e.frame_fingerprint {
        Some(text) => text,
        None => "-"@,
    })
}

fn push_number(out: &mut String, n: Option<u64>)
    ensures
        final(out)@ == old(out)@ + number_or_dash(n),
{
    match n {
        Some(n) => push_decimal(out, n),
        None => out.append("-"),
    }
}

/// The thirty-two hexadecimal digits of a node's identifier.
pub fn encode_node(node: NodeId) -> (text: String)
    ensures
        text@ == node_text(node),
{
    let mut text = String::new();
    push_hex(&mut text, node.id, 32);
    assert(text@ =~= node_text(node));
    text
}

/// The line of an event in a trace.
pub fn stable_event(event: &EventRecord) -> (line: String)
    ensures
        line@ == event_text(event@),
{
    let mut line = String::new();
    push_decimal(&mut line, event.sequence);
    assert(line@ =~= decimal(event.sequence as nat));
    line.append("|");
    push_decimal(&mut line, event.time);
    line.append("|");
    line.append(event.kind.as_str());
    line.append("|");
    push_number(&mut line, event.packet_id);
    line.append("|");
    push_number(
        &mut line,
        match event.copy {
            Some(copy) => Some(copy as u64),
            None => None,
        },
    );
    line.append("|");
    let ghost before_link = line@;
    match event.link {
        Some(link) => {
            line.append(encode_node(link.source).as_str());
            line.append(">");
            line.append(encode_node(link.target).as_str());
            assert(line@ =~= before_link + link_text(link));
        },
        None => line.append("-"),
    }
    line.append("|");
    push_number(&mut line, event.parent_packet_id);
    line.append("|");
    match event.node {
        Some(node) => line.append(encode_node(node).as_str()),
        None => line.append("-"),
    }
    line.append("|");
    push_number(&mut line, event.generation);
    line.append("|");
    match &event.frame_fingerprint {
        Some(text) => line.append(text.as_str()),
        None => line.append("-"),
    }
    line
}

/// The FNV-1a hash of bytes, in sixty-four bits.
pub open spec fn fnv1a64(data: Seq<u8>) -> u64
    decreases data.len(),
{
    if data.len() == 0 {
        0xcbf2_9ce4_8422_2325
    } else {
        (fnv1a64(data.drop_last()) ^ (data.last() as u64)).wrapping_mul(0x0000_0100_0000_01b3)
    }
}

/// The name of a frame that encodes to `frame`.
pub open spec fn fingerprint(frame: Seq<u8>) -> Seq<char> {
    "fnv1a64:"@ + hex(fnv1a64(frame) as nat, 16)
}

/// The name of a frame, by its encoding.
pub fn frame_fingerprint(frame: &[u8]) -> (name: String)
    ensures
        name@ == fingerprint(frame@),
{
    let n: usize = frame.len();
    let mut hash: u64 = 0xcbf2_9ce4_8422_2325;
    let mut i: usize = 0;
    while i < n
        invariant
            i <= n,
            n == frame@.len(),
            hash == fnv1a64(frame@.take(i as int)),
        decreases n - i,
    {
        let ghost longer = frame@.take(i + 1);
        assert(longer.drop_last() =~= frame@.take(i as int));
        assert(longer.last() == frame@[i as int]);
        hash = (hash ^ (frame[i] as u64)).wrapping_mul(0x0000_0100_0000_01b3);
        i = i + 1;
    }
    assert(frame@.take(n as int) =~= frame@);
    let mut name = String::from_str("fnv1a64:");
    push_hex(&mut name, hash as u128, 16);
    name
}

/// The fingerprint of a frame starts from the offset basis of FNV-1a, and takes in one byte after
/// the other: by exclusive or, and then times the prime.
pub proof fn fingerprint_takes_in_each_byte(data: Seq<u8>, b: u8)
    ensures
        fnv1a64(Seq::<u8>::empty()) == 14695981039346656037,
        fnv1a64(data.push(b)) == (fnv1a64(data) ^ (b as u64)).wrapping_mul(1099511628211),
{
    assert(data.push(b).drop_last() =~= data);
}

/// A fingerprint is told by what stands before it, and is the number that its sixteen digits stand
/// for.
pub proof fn fingerprint_names_the_hash(frame: &[u8], name: String)
    requires
        call_ensures(frame_fingerprint, (frame,), name),
    ensures
        name@.len() == 24,
        name@.take(8) == "fnv1a64:"@,
        crate::text::number_of(name@.skip(8), 16) == fnv1a64(frame@),
{
    reveal_strlit("fnv1a64:");
    let h = fnv1a64(frame@) as nat;
    crate::text::hex_stands_for_its_number(h, 16);
    crate::text::eight_bytes_fit(fnv1a64(frame@));
    assert(name@.take(8) =~= "fnv1a64:"@);
    assert(name@.skip(8) =~= hex(h, 16));
}

/// Different nodes have different texts, and so have different links.
pub proof fn node_texts_differ(a: NodeId, b: NodeId, c: NodeId, d: NodeId)
    ensures
        node_text(a) == node_text(b) ==> a == b,
        link_text((DirectedLink { source: a, target: c })) == link_text(
            (DirectedLink { source: b, target: d }),
        ) ==> a == b && c == d,
{
    reveal_strlit(">");
    crate::text::sixteen_bytes_fit(a.id);
    crate::text::sixteen_bytes_fit(b.id);
    crate::text::sixteen_bytes_fit(c.id);
    crate::text::sixteen_bytes_fit(d.id);
    crate::text::hex_stands_for_its_number(a.id as nat, 32);
    crate::text::hex_stands_for_its_number(b.id as nat, 32);
    crate::text::hex_stands_for_its_number(c.id as nat, 32);
    crate::text::hex_stands_for_its_number(d.id as nat, 32);
    let one = DirectedLink { source: a, target: c };
    let two = DirectedLink { source: b, target: d };
    if link_text(one) == link_text(two) {
        assert(link_text(one).take(32) =~= node_text(a));
        assert(link_text(two).take(32) =~= node_text(b));
        assert(link_text(one).skip(33) =~= node_text(c));
        assert(link_text(two).skip(33) =~= node_text(d));
    }
}

/// The line of an event begins with its number and its time, and ends with what is known of the
/// frame.
pub proof fn event_line_begins_with_its_number(event: EventRecord, line: String)
    requires
        call_ensures(stable_event, (&event,), line),
    ensures
        ({
            let start = decimal(event.sequence as nat) + "|"@ + decimal(event.time as nat) + "|"@
                + kind_name(event.kind) + "|"@;
            let end = "|"@ + (match event.frame_fingerprint {
                Some(text) => text@,
                None => "-"@,
            });
            &&& line@.len() >= start.len() + end.len()
            &&& line@.take(start.len() as int) == start
            &&& line@.skip(line@.len() - end.len()) == end
        }),
{
    let start = decimal(event.sequence as nat) + "|"@ + decimal(event.time as nat) + "|"@
        + kind_name(event.kind) + "|"@;
    let end = "|"@ + (match event.frame_fingerprint {
        Some(text) => text@,
        None => "-"@,
    });
    assert(line@.take(start.len() as int) =~= start);
    assert(line@.skip(line@.len() - end.len()) =~= end);
}

/// Each kind of event has its own name.
pub proof fn kind_names_differ(a: EventKind, b: EventKind)
    requires
        kind_name(a) == kind_name(b),
    ensures
        a == b,
{
    reveal_strlit("scheduled");
    reveal_strlit("delivered");
    reveal_strlit("dropped");
    reveal_strlit("partitioned");
    reveal_strlit("healed");
    reveal_strlit("reconnected");
    reveal_strlit("stale_generation");
    assert("scheduled"@.len() == 9 && "delivered"@.len() == 9 && "dropped"@.len() == 7);
    assert("partitioned"@.len() == 11 && "healed"@.len() == 6 && "reconnected"@.len() == 11);
    assert("stale_generation"@.len() == 16);
    assert("scheduled"@[0] == 's' && "delivered"@[0] == 'd');
    assert("partitioned"@[0] == 'p' && "reconnected"@[0] == 'r');
}

} // verus!

//! Wire-level types exchanged between nodes: envelopes, headers and the
//! serialization error returned by decoders.

use vstd::prelude::*;

verus! {

/// Identifier of a node in the cluster.
#[derive(Debug, Clone, PartialEq, Eq)]
pub struct NodeId(pub String);

/// Globally unique actor address: the hosting node and a node-local id.
#[derive(Debug, Clone, PartialEq, Eq)]
pub struct ActorId {
    pub node: NodeId,
    pub local: u64,
}

/// How a message is delivered to its target.
#[derive(Debug, Clone, Copy, PartialEq, Eq, Structural)]
pub enum SendMode {
    /// Fire-and-forget.
    Tell,
    /// Request/reply.
    Ask,
    /// Stream of replies (one request, many items).
    Expand,
    /// Feed of items (many items, one reply).
    Reduce,
}

impl SendMode {
    /// Stream and feed items are delivered in strict enqueue order.
    pub open spec fn is_stream_spec(self) -> bool {
        self is Expand || self is Reduce
    }

    pub fn is_stream(&self) -> (r: bool)
        ensures
            r == self.is_stream_spec(),
    {
        match self {
            SendMode::Expand | SendMode::Reduce => true,
            _ => false,
        }
    }
}

/// First value stored under `key` in a header list (first match wins).
pub open spec fn header_lookup(entries: Seq<(Seq<char>, Seq<u8>)>, key: Seq<char>) -> Option<Seq<u8>>
    decreases entries.len(),
{
    if entries.len() == 0 {
        None
    } else if entries[0].0 == key {
        Some(entries[0].1)
    } else {
        header_lookup(entries.drop_first(), key)
    }
}

/// Looking up a key in a list whose first `i` entries have other keys is
/// looking it up in the rest.
proof fn lemma_header_lookup_skip(entries: Seq<(Seq<char>, Seq<u8>)>, key: Seq<char>, i: int)
    requires
        0 <= i <= entries.len(),
        forall|j: int| 0 <= j < i ==> #[trigger] entries[j].0 != key,
    ensures
        header_lookup(entries, key) == header_lookup(entries.subrange(i, entries.len() as int), key),
    decreases i,
{
    if i > 0 {
        lemma_header_lookup_skip(entries.drop_first(), key, i - 1);
        assert(entries.drop_first().subrange(i - 1, entries.len() - 1) =~= entries.subrange(
            i,
            entries.len() as int,
        ));
    } else {
        assert(entries.subrange(0, entries.len() as int) =~= entries);
    }
}

/// Header lookup after replacing the entry at `i` (whose key is `key` and
/// which is the first with that key) or after appending a new entry.
proof fn lemma_header_lookup_update(
    entries: Seq<(Seq<char>, Seq<u8>)>,
    i: int,
    key: Seq<char>,
    value: Seq<u8>,
    other: Seq<char>,
)
    requires
        0 <= i <= entries.len(),
        forall|j: int| 0 <= j < i ==> #[trigger] entries[j].0 != key,
        i < entries.len() ==> entries[i].0 == key,
    ensures
        header_lookup(
            if i < entries.len() {
                entries.update(i, (key, value))
            } else {
                entries.push((key, value))
            },
            other,
        ) == if other == key {
            Some(value)
        } else {
            header_lookup(entries, other)
        },
    decreases i,
{
    let new_entries = if i < entries.len() {
        entries.update(i, (key, value))
    } else {
        entries.push((key, value))
    };
    assert(new_entries.len() > 0);
    if i == 0 {
        assert(new_entries[0] == (key, value));
        if entries.len() > 0 {
            assert(new_entries.drop_first() =~= entries.drop_first());
            assert(header_lookup(entries, other) == if entries[0].0 == other {
                Some(entries[0].1)
            } else {
                header_lookup(entries.drop_first(), other)
            });
        } else {
            assert(new_entries.drop_first() =~= Seq::<(Seq<char>, Seq<u8>)>::empty());
            assert(header_lookup(new_entries.drop_first(), other) is None);
            assert(header_lookup(entries, other) is None);
        }
    } else {
        let rest = entries.drop_first();
        lemma_header_lookup_update(rest, i - 1, key, value, other);
        let new_rest = if i - 1 < rest.len() {
            rest.update(i - 1, (key, value))
        } else {
            rest.push((key, value))
        };
        assert(entries[0].0 != key);
        assert(new_entries[0] == entries[0]);
        assert(new_entries.drop_first() =~= new_rest);
        assert(header_lookup(new_entries, other) == if entries[0].0 == other {
            Some(entries[0].1)
        } else {
            header_lookup(new_rest, other)
        });
    }
}

/// Wire headers: string keys with opaque byte values.
#[derive(Debug, Clone)]
pub struct WireHeaders {
    entries: Vec<(String, Vec<u8>)>,
}

impl View for WireHeaders {
    type V = Seq<(Seq<char>, Seq<u8>)>;

    closed spec fn view(&self) -> Self::V {
        self.entries@.map_values(|e: (String, Vec<u8>)| (e.0@, e.1@))
    }
}

impl WireHeaders {
    /// The value stored under `key`, if any.
    pub open spec fn get_spec(&self, key: Seq<char>) -> Option<Seq<u8>> {
        header_lookup(self@, key)
    }

    pub fn new() -> (r: Self)
        ensures
            r@ == Seq::<(Seq<char>, Seq<u8>)>::empty(),
    {
        let r = WireHeaders { entries: Vec::new() };
        assert(r@ =~= Seq::<(Seq<char>, Seq<u8>)>::empty());
        r
    }

    /// Number of stored headers.
    pub fn len(&self) -> (r: usize)
        ensures
            r == self@.len(),
    {
        self.entries.len()
    }

    /// Store `value` under `name`, replacing any previous value.
    pub fn insert(&mut self, name: String, value: Vec<u8>)
        ensures
            forall|k: Seq<char>| #[trigger]
                final(self).get_spec(k) == if k == name@ {
                    Some(value@)
                } else {
                    old(self).get_spec(k)
                },
    {
        let ghost key = name@;
        let ghost val = value@;
        let ghost old_view = self@;
        let mut i: usize = 0;
        while i < self.entries.len()
            invariant
                i <= self.entries.len(),
                self@ == old_view,
                forall|j: int| 0 <= j < i ==> #[trigger] old_view[j].0 != key,
                key == name@,
            ensures
                i <= self.entries.len(),
                self@ == old_view,
                forall|j: int| 0 <= j < i ==> #[trigger] old_view[j].0 != key,
                i < self.entries.len() ==> old_view[i as int].0 == key,
            decreases self.entries.len() - i,
        {
            assert(old_view[i as int].0 == self.entries@[i as int].0@);
            if self.entries[i].0 == name {
                break;
            }
            i = i + 1;
        }
        if i < self.entries.len() {
            self.entries.set(i, (name, value));
            assert(self@ =~= old_view.update(i as int, (key, val)));
        } else {
            self.entries.push((name, value));
            assert(self@ =~= old_view.push((key, val)));
        }
        assert forall|k: Seq<char>| #[trigger]
            self.get_spec(k) == if k == key {
                Some(val)
            } else {
                header_lookup(old_view, k)
            } by {
            lemma_header_lookup_update(old_view, i as int, key, val, k);
        }
    }

    /// The value stored under `name`, if any.
    pub fn get(&self, name: &str) -> (r: Option<&Vec<u8>>)
        ensures
            match r {
                Some(v) => self.get_spec(name@) == Some(v@),
                None => self.get_spec(name@) is None,
            },
    {
        let key = name.to_owned();
        let mut i: usize = 0;
        while i < self.entries.len()
            invariant
                i <= self.entries.len(),
                key@ == name@,
                forall|j: int| 0 <= j < i ==> #[trigger] self@[j].0 != name@,
            decreases self.entries.len() - i,
        {
            assert(self@[i as int].0 == self.entries@[i as int].0@);
            if self.entries[i].0 == key {
                proof {
                    lemma_header_lookup_skip(self@, name@, i as int);
                }
                return Some(&self.entries[i].1);
            }
            i = i + 1;
        }
        proof {
            lemma_header_lookup_skip(self@, name@, i as int);
        }
        None
    }
}

/// An envelope as it travels over the wire to a remote actor.
#[derive(Debug, Clone)]
pub struct WireEnvelope {
    pub target: ActorId,
    pub target_name: String,
    pub message_type: String,
    pub send_mode: SendMode,
    pub headers: WireHeaders,
    pub body: Vec<u8>,
    pub request_id: Option<u64>,
    pub version: Option<u32>,
}

/// Error raised when bytes cannot be turned back into a value.
#[derive(Debug, Clone)]
pub struct SerializationError {
    pub message: String,
}

impl SerializationError {
    pub fn new(message: &str) -> (r: Self)
        ensures
            r.message@ == message@,
    {
        SerializationError { message: message.to_owned() }
    }
}

} // verus!

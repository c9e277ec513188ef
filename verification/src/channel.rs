//! The channels of an IEEE 1284.4 conversation.
use std::collections::BTreeMap;
use vstd::prelude::*;

verus! {

broadcast use vstd::std_specs::btree::group_btree_axioms;

/// A pair of sockets between which a channel runs.
#[derive(Clone, Copy, Debug, PartialEq, Eq, PartialOrd, Ord, Structural)]
pub struct ChannelId {
    pub peer_socket: u8,
    pub source_socket: u8,
}

impl ChannelId {
    /// The channel that carries transaction messages.
    #[verifier::allow_in_spec]
    pub fn transaction() -> Self
        returns
            (ChannelId { peer_socket: 0, source_socket: 0 }),
    {
        ChannelId { peer_socket: 0, source_socket: 0 }
    }
}

/// What an end knows of a channel.
#[derive(Debug)]
pub struct ChannelState {
    pub name: String,
    /// How many packets may still be sent.
    pub credit: u16,
    /// The longest packet that may be sent.
    pub max_packet_size: u16,
    /// The longest packet that may arrive.
    pub max_service_size: u16,
    pub max_credit: u16,
    pub open: bool,
}

/// The contents of a channel state.
pub struct ChannelView {
    pub name: Seq<char>,
    pub credit: u16,
    pub max_packet_size: u16,
    pub max_service_size: u16,
    pub max_credit: u16,
    pub open: bool,
}

impl View for ChannelState {
    type V = ChannelView;

    open spec fn view(&self) -> ChannelView {
        ChannelView {
            name: self.name@,
            credit: self.credit,
            max_packet_size: self.max_packet_size,
            max_service_size: self.max_service_size,
            max_credit: self.max_credit,
            open: self.open,
        }
    }
}

/// The number under which a channel is kept.
pub open spec fn channel_key(channel: ChannelId) -> u16 {
    (channel.peer_socket * 256 + channel.source_socket) as u16
}

/// Two channels never share a number.
proof fn lemma_channel_key(left: ChannelId, right: ChannelId)
    ensures
        (channel_key(left) == channel_key(right)) == (left == right),
{
}

/// The states of channels, at most one for each channel.
#[derive(Debug)]
pub struct ChannelTable {
    entries: BTreeMap<u16, ChannelState>,
}

impl View for ChannelTable {
    type V = Map<ChannelId, ChannelView>;

    closed spec fn view(&self) -> Map<ChannelId, ChannelView> {
        Map::new(
            |channel: ChannelId| self.entries@.contains_key(channel_key(channel)),
            |channel: ChannelId| self.entries@[channel_key(channel)]@,
        )
    }
}

fn key(channel: ChannelId) -> (number: u16)
    ensures
        number == channel_key(channel),
{
    channel.peer_socket as u16 * 256 + channel.source_socket as u16
}

impl ChannelTable {
    /// A table without channels.
    pub fn new() -> (table: Self)
        ensures
            table@ == Map::<ChannelId, ChannelView>::empty(),
    {
        let table = ChannelTable { entries: BTreeMap::new() };
        proof {
            assert(table@ =~= Map::empty());
        }
        table
    }

    /// The state of a channel.
    pub fn get(&self, channel: ChannelId) -> (state: Option<&ChannelState>)
        ensures
            match state {
                Some(state) => self@.contains_key(channel) && state@ == self@[channel],
                None => !self@.contains_key(channel),
            },
    {
        let number: u16 = key(channel);
        self.entries.get(&number)
    }

    /// Whether the table holds a channel.
    pub fn contains(&self, channel: ChannelId) -> (held: bool)
        ensures
            held == self@.contains_key(channel),
    {
        let number: u16 = key(channel);
        self.entries.contains_key(&number)
    }

    /// How many channels the table holds.
    pub fn len(&self) -> (length: usize)
        ensures
            self@.dom().finite(),
            length == self@.dom().len(),
    {
        proof {
            let numbers = self.entries@.dom();
            let channel_of = |number: u16|
                ChannelId {
                    peer_socket: (number / 256) as u8,
                    source_socket: (number % 256) as u8,
                };
            assert(numbers.map(channel_of) =~= self@.dom()) by {
                assert forall|channel: ChannelId| self@.dom().contains(channel) implies #[trigger]
                    numbers.map(channel_of).contains(channel) by {
                    assert(numbers.contains(channel_key(channel)));
                    assert(channel_of(channel_key(channel)) == channel);
                }
            }
            vstd::set_lib::lemma_map_size(numbers, self@.dom(), channel_of);
        }
        self.entries.len()
    }

    /// Records the state of a channel in place of what was known of it.
    pub fn insert(&mut self, channel: ChannelId, state: ChannelState)
        ensures
            final(self)@ == old(self)@.insert(channel, state@),
    {
        let number: u16 = key(channel);
        self.entries.insert(number, state);
        proof {
            assert forall|other: ChannelId| channel_key(other) == number implies other
                == channel by {
                lemma_channel_key(other, channel);
            }
            assert(self@ =~= old(self)@.insert(channel, state@));
        }
    }

    /// Takes a channel out of the table.
    pub fn remove(&mut self, channel: ChannelId) -> (state: Option<ChannelState>)
        ensures
            final(self)@ == old(self)@.remove(channel),
            match state {
                Some(state) => old(self)@.contains_key(channel) && state@ == old(self)@[channel],
                None => !old(self)@.contains_key(channel),
            },
    {
        let number: u16 = key(channel);
        let state = self.entries.remove(&number);
        proof {
            assert forall|other: ChannelId| channel_key(other) == number implies other
                == channel by {
                lemma_channel_key(other, channel);
            }
            assert(self@ =~= old(self)@.remove(channel));
        }
        state
    }

    /// Sets the credit of a channel.
    pub fn set_credit(&mut self, channel: ChannelId, credit: u16)
        requires
            old(self)@.contains_key(channel),
        ensures
            final(self)@ == old(self)@.insert(
                channel,
                ChannelView { credit, ..old(self)@[channel] },
            ),
    {
        if let Some(mut state) = self.remove(channel) {
            state.credit = credit;
            self.insert(channel, state);
        }
        proof {
            assert(self@ =~= old(self)@.insert(
                channel,
                ChannelView { credit, ..old(self)@[channel] },
            ));
        }
    }

    /// Marks a channel as closed.
    pub fn mark_closed(&mut self, channel: ChannelId)
        requires
            old(self)@.contains_key(channel),
        ensures
            final(self)@ == old(self)@.insert(
                channel,
                ChannelView { open: false, ..old(self)@[channel] },
            ),
    {
        if let Some(mut state) = self.remove(channel) {
            state.open = false;
            self.insert(channel, state);
        }
        proof {
            assert(self@ =~= old(self)@.insert(
                channel,
                ChannelView { open: false, ..old(self)@[channel] },
            ));
        }
    }

    /// Forgets all channels but one.
    pub fn keep_only(&mut self, channel: ChannelId)
        ensures
            final(self)@ == old(self)@.restrict(set![channel]),
    {
        let kept = self.remove(channel);
        self.entries.clear();
        proof {
            assert(self@ =~= Map::empty());
        }
        if let Some(state) = kept {
            self.insert(channel, state);
        }
        proof {
            assert(self@ =~= old(self)@.restrict(set![channel]));
        }
    }
}

} // verus!

//! The driver for outbound link-based LXMF deliveries.
//!
//! Callers start a delivery, let the runtime do what the manager asks for, refresh
//! the known destinations, and call the manager's round periodically to advance
//! transfers and enforce timeouts.

pub mod backchannel;
pub mod by_hash;
pub mod queries;
pub mod rounds;
pub mod start;

use std::collections::VecDeque;
use tokio::sync::mpsc;
use vstd::prelude::*;

use crate::backchannel::{
    start_views, BackchannelProofKey, BackchannelSendCommand, PendingBackchannelDelivery,
    PendingBackchannelStart,
};
use crate::channel::CommandSender;
use crate::commands::{command_views, CommandView, LinkCommand};
use crate::events::{event_views, EventView, LxmfDeliveryEvent};
use crate::keyed::KeyedList;
use crate::link_table::LinkTable;
use crate::model::{LinkTiming, ManagerState};
use crate::session::PendingDelivery;

verus! {

/// The public key of a destination.
pub struct KnownIdentity {
    /// The hexadecimal destination hash.
    pub name: String,
    pub public_key: [u8; 64],
}

impl View for KnownIdentity {
    type V = (Seq<char>, [u8; 64]);

    open spec fn view(&self) -> (Seq<char>, [u8; 64]) {
        (self.name@, self.public_key)
    }
}

/// The contents of a list of known destinations.
pub open spec fn identity_views(known: Seq<KnownIdentity>) -> Seq<(Seq<char>, [u8; 64])> {
    known.map_values(|identity: KnownIdentity| identity@)
}

/// Driver for outbound link-based LXMF deliveries.
pub struct LinkDeliveryManager {
    runtime: Option<LinkTiming>,
    known_identities: Vec<KnownIdentity>,
    /// Reusable Direct links keyed by LXMF delivery destination hash.
    direct_links: LinkTable,
    /// Reusable inbound backchannels keyed by remote LXMF delivery destination hash.
    backchannel_links: LinkTable,
    pending: KeyedList<[u8; 16], PendingDelivery>,
    backchannel_tx: Option<CommandSender>,
    inbound_packet_tx: Option<mpsc::Sender<(Vec<u8>, [u8; 16])>>,
    pending_backchannel_starts: Vec<PendingBackchannelStart>,
    pending_backchannel_deliveries: KeyedList<BackchannelProofKey, PendingBackchannelDelivery>,
    delivery_events: VecDeque<LxmfDeliveryEvent>,
    link_commands: VecDeque<LinkCommand>,
}

impl View for LinkDeliveryManager {
    type V = ManagerState;

    closed spec fn view(&self) -> ManagerState {
        ManagerState {
            runtime: self.runtime,
            known_identities: identity_views(self.known_identities@),
            direct_links: self.direct_links@,
            backchannel_links: self.backchannel_links@,
            sessions: self.pending@,
            backchannel_tx: match self.backchannel_tx {
                Some(sender) => Some(sender.channel()),
                None => None,
            },
            offers: match self.backchannel_tx {
                Some(sender) => sender.offered(),
                None => Seq::empty(),
            },
            inbound_packet_tx: self.inbound_packet_tx,
            starts: start_views(self.pending_backchannel_starts@),
            waits: self.pending_backchannel_deliveries@,
            events: event_views(self.delivery_events@),
            commands: command_views(self.link_commands@),
        }
    }
}

impl LinkDeliveryManager {
    /// What holds of the manager between any two calls.
    pub closed spec fn wf(self) -> bool {
        &&& self@.wf()
        &&& self.direct_links.wf()
        &&& self.backchannel_links.wf()
    }

    /// What holds of the manager while a session is being dealt with.
    pub closed spec fn sound(self) -> bool {
        &&& self@.sound()
        &&& self.direct_links.wf()
        &&& self.backchannel_links.wf()
    }

    /// A well-formed manager has a well-formed state.
    pub proof fn lemma_wf(self)
        requires
            self.wf(),
        ensures
            self@.wf(),
    {
    }

    /// A manager without runtime, links and deliveries.
    pub fn new() -> (manager: Self)
        ensures
            manager.wf(),
            manager@ == ManagerState::initial(),
    {
        let manager = LinkDeliveryManager {
            runtime: None,
            known_identities: Vec::new(),
            direct_links: LinkTable::new(),
            backchannel_links: LinkTable::new(),
            pending: KeyedList::new(),
            backchannel_tx: None,
            inbound_packet_tx: None,
            pending_backchannel_starts: Vec::new(),
            pending_backchannel_deliveries: KeyedList::new(),
            delivery_events: VecDeque::new(),
            link_commands: VecDeque::new(),
        };
        assert(manager@ =~= ManagerState::initial());
        manager
    }

    /// Opens links with a runtime from now on, at its clock rates.
    pub fn set_runtime(&mut self, timing: LinkTiming)
        requires
            old(self).wf(),
        ensures
            final(self).wf(),
            final(self)@ == (ManagerState { runtime: Some(timing), ..old(self)@ }),
    {
        self.runtime = Some(timing);
    }

    /// Installs the adapter used to send LXMF payloads over inbound authenticated
    /// backchannel links owned by the embedding runtime.
    pub fn set_backchannel_sender(&mut self, tx: mpsc::Sender<BackchannelSendCommand>)
        requires
            old(self).wf(),
        ensures
            final(self).wf(),
            final(self)@ == (ManagerState { backchannel_tx: Some(tx), ..old(self)@ }),
    {
        match &mut self.backchannel_tx {
            Some(sender) => sender.redirect(tx),
            None => {
                self.backchannel_tx = Some(CommandSender::new(tx));
            },
        }
    }

    /// Installs the adapter used to deliver inbound LXMF payloads that arrive over
    /// outbound reusable Direct links.
    pub fn set_inbound_packet_sender(&mut self, tx: mpsc::Sender<(Vec<u8>, [u8; 16])>)
        requires
            old(self).wf(),
        ensures
            final(self).wf(),
            final(self)@ == (ManagerState { inbound_packet_tx: Some(tx), ..old(self)@ }),
    {
        self.inbound_packet_tx = Some(tx);
    }

    /// Registers an inbound authenticated link as a reusable backchannel for a remote
    /// LXMF delivery destination.
    pub fn register_backchannel(&mut self, dest_hash: [u8; 16], link_id: [u8; 16])
        requires
            old(self).wf(),
        ensures
            final(self).wf(),
            final(self)@ == (ManagerState {
                backchannel_links: old(self)@.backchannel_links.insert(dest_hash, link_id),
                ..old(self)@
            }),
    {
        self.backchannel_links.insert(dest_hash, link_id);
    }

    /// Forgets the backchannel of a destination, and says which link it was.
    pub fn remove_backchannel(&mut self, dest_hash: &[u8; 16]) -> (link_id: Option<[u8; 16]>)
        requires
            old(self).wf(),
        ensures
            final(self).wf(),
            final(self)@ == old(self)@.without_backchannel(*dest_hash),
            link_id == if old(self)@.backchannel_links.contains_key(*dest_hash) {
                Some(old(self)@.backchannel_links[*dest_hash])
            } else {
                None
            },
    {
        self.backchannel_links.remove(dest_hash)
    }

    /// Refreshes the destination public keys used when links are opened.
    pub fn drain_events(&mut self, known_identities: &Vec<KnownIdentity>)
        requires
            old(self).wf(),
        ensures
            final(self).wf(),
            final(self)@ == (ManagerState {
                known_identities: identity_views(known_identities@),
                ..old(self)@
            }),
    {
        let mut copied: Vec<KnownIdentity> = Vec::new();
        let mut i: usize = 0;
        while i < known_identities.len()
            invariant
                i <= known_identities.len(),
                identity_views(copied@) == identity_views(known_identities@).take(i as int),
            decreases known_identities.len() - i,
        {
            let identity = &known_identities[i];
            let ghost before = copied@;
            let copy = KnownIdentity {
                name: identity.name.clone(),
                public_key: identity.public_key,
            };
            copied.push(copy);
            proof {
                let wanted = identity_views(known_identities@);
                assert(identity_views(copied@) =~= identity_views(before).push(copy@));
                assert(wanted.take(i + 1) =~= wanted.take(i as int).push(wanted[i as int]));
            }
            i += 1;
        }
        assert(identity_views(known_identities@).take(i as int) =~= identity_views(
            known_identities@,
        ));
        self.known_identities = copied;
    }

    /// Takes the events that have not been taken, the oldest first.
    pub fn take_delivery_events(&mut self) -> (taken: Vec<LxmfDeliveryEvent>)
        requires
            old(self).wf(),
        ensures
            final(self).wf(),
            final(self)@ == (ManagerState { events: Seq::empty(), ..old(self)@ }),
            event_views(taken@) == old(self)@.events,
    {
        let mut taken: Vec<LxmfDeliveryEvent> = Vec::new();
        let ghost before = self@;
        while self.delivery_events.len() > 0
            invariant
                self.wf(),
                before == old(self)@,
                self@ == (ManagerState { events: self@.events, ..before }),
                event_views(taken@) + self@.events == before.events,
            decreases self.delivery_events.len(),
        {
            let ghost told = event_views(taken@) + self@.events;
            if let Some(event) = self.delivery_events.pop_front() {
                taken.push(event);
            }
            assert(event_views(taken@) + self@.events =~= told);
        }
        assert(self@.events =~= Seq::<EventView>::empty());
        assert(event_views(taken@) + self@.events =~= event_views(taken@));
        taken
    }

    /// Takes the commands to the runtime that have not been taken, the oldest first.
    pub fn take_link_commands(&mut self) -> (taken: Vec<LinkCommand>)
        requires
            old(self).wf(),
        ensures
            final(self).wf(),
            final(self)@ == (ManagerState { commands: Seq::empty(), ..old(self)@ }),
            command_views(taken@) == old(self)@.commands,
    {
        let mut taken: Vec<LinkCommand> = Vec::new();
        let ghost before = self@;
        while self.link_commands.len() > 0
            invariant
                self.wf(),
                before == old(self)@,
                self@ == (ManagerState { commands: self@.commands, ..before }),
                command_views(taken@) + self@.commands == before.commands,
            decreases self.link_commands.len(),
        {
            let ghost asked = command_views(taken@) + self@.commands;
            if let Some(command) = self.link_commands.pop_front() {
                taken.push(command);
            }
            assert(command_views(taken@) + self@.commands =~= asked);
        }
        assert(self@.commands =~= Seq::<CommandView>::empty());
        assert(command_views(taken@) + self@.commands =~= command_views(taken@));
        taken
    }
}

} // verus!

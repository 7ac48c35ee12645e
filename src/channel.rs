//! An in-memory duplex channel: the transport that a connection sends on and reads from.
use vstd::prelude::*;
use crate::message::Message;

verus! {

/// A duplex message channel.
///
/// `incoming` holds what the peer has sent and the transport has not read yet, `inbound`
/// what has been read and waits to be dispatched, `outgoing` what was sent and not yet
/// written, and `written` what reached the peer. Serials are handed out from `next_serial`.
pub struct Channel {
    pub incoming: Vec<Message>,
    pub inbound: Vec<Message>,
    pub outgoing: Vec<Message>,
    pub written: Vec<Message>,
    pub next_serial: u32,
    pub open: bool,
}

impl Channel {
    /// An open channel with nothing in flight; the first serial is 1.
    pub fn new() -> (r: Channel)
        ensures
            r.incoming@.len() == 0,
            r.inbound@.len() == 0,
            r.outgoing@.len() == 0,
            r.written@.len() == 0,
            r.next_serial == 1,
            r.open,
    {
        Channel {
            incoming: Vec::new(),
            inbound: Vec::new(),
            outgoing: Vec::new(),
            written: Vec::new(),
            next_serial: 1,
            open: true,
        }
    }

    /// Whether a message sent now would be accepted.
    pub open spec fn can_send(&self) -> bool {
        self.open && self.next_serial < u32::MAX
    }

    /// Queues `msg` for writing under the next serial and returns that serial; fails, with
    /// nothing changed, when the channel is closed or its serials are spent.
    pub fn send(&mut self, msg: Message) -> (r: Result<u32, ()>)
        ensures
            r is Ok <==> old(self).can_send(),
            r matches Ok(s) ==> {
                &&& s == old(self).next_serial
                &&& final(self).next_serial == s + 1
                &&& final(self).outgoing@.len() == old(self).outgoing@.len() + 1
                &&& final(self).outgoing@.drop_last() == old(self).outgoing@
                &&& final(self).outgoing@.last() == (Message { serial: Some(s), ..msg })
                &&& final(self).incoming == old(self).incoming
                &&& final(self).inbound == old(self).inbound
                &&& final(self).written == old(self).written
                &&& final(self).open == old(self).open
            },
            r is Err ==> *final(self) == *old(self),
    {
        if self.open && self.next_serial < u32::MAX {
            let serial = self.next_serial;
            let mut msg = msg;
            msg.serial = Some(serial);
            self.outgoing.push(msg);
            self.next_serial = serial + 1;
            Ok(serial)
        } else {
            Err(())
        }
    }

    /// Takes the oldest message that has been read and not yet dispatched.
    pub fn pop_message(&mut self) -> (r: Option<Message>)
        ensures
            old(self).inbound@.len() == 0 ==> r is None && *final(self) == *old(self),
            old(self).inbound@.len() > 0 ==> {
                &&& r == Some(old(self).inbound@[0])
                &&& final(self).inbound@ == old(self).inbound@.drop_first()
                &&& final(self).incoming == old(self).incoming
                &&& final(self).outgoing == old(self).outgoing
                &&& final(self).written == old(self).written
                &&& final(self).next_serial == old(self).next_serial
                &&& final(self).open == old(self).open
            },
    {
        if self.inbound.len() == 0 {
            None
        } else {
            Some(self.inbound.remove(0))
        }
    }

    /// One non-blocking exchange with the peer: writes everything outgoing and reads
    /// everything that has arrived. Fails, with nothing changed, on a closed channel.
    pub fn read_write(&mut self) -> (r: Result<(), ()>)
        ensures
            r is Ok <==> old(self).open,
            r is Err ==> *final(self) == *old(self),
            r is Ok ==> {
                &&& final(self).written@ == old(self).written@ + old(self).outgoing@
                &&& final(self).inbound@ == old(self).inbound@ + old(self).incoming@
                &&& final(self).outgoing@.len() == 0
                &&& final(self).incoming@.len() == 0
                &&& final(self).next_serial == old(self).next_serial
                &&& final(self).open
            },
    {
        if !self.open {
            return Err(());
        }
        self.written.append(&mut self.outgoing);
        self.inbound.append(&mut self.incoming);
        Ok(())
    }

    /// What the peer sends: it arrives at the transport and is read by the next `read_write`.
    pub fn deliver(&mut self, msg: Message)
        ensures
            final(self).incoming@ == old(self).incoming@.push(msg),
            final(self).inbound == old(self).inbound,
            final(self).outgoing == old(self).outgoing,
            final(self).written == old(self).written,
            final(self).next_serial == old(self).next_serial,
            final(self).open == old(self).open,
    {
        self.incoming.push(msg);
    }

    /// Closes the channel: later sends and exchanges fail.
    pub fn close(&mut self)
        ensures
            !final(self).open,
            final(self).incoming == old(self).incoming,
            final(self).inbound == old(self).inbound,
            final(self).outgoing == old(self).outgoing,
            final(self).written == old(self).written,
            final(self).next_serial == old(self).next_serial,
    {
        self.open = false;
    }
}

} // verus!

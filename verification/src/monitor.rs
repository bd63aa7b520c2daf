//! The monitor: one store for each client that has connected.

use crate::client_infos_store::ClientInfoStore;
use crate::entities::{opt_diagnostic, Diagnostic};
use crate::message::MonitorMsg;
use crate::timeline::StoreView;
use vstd::prelude::*;

verus! {

/// The stores of the clients, in the order in which the clients connected.
pub struct Monitor {
    clients: Vec<ClientInfoStore>,
}

impl View for Monitor {
    type V = Seq<StoreView>;

    closed spec fn view(&self) -> Seq<StoreView> {
        self.clients@.map_values(|c: ClientInfoStore| c@)
    }
}

impl Default for Monitor {
    fn default() -> (monitor: Monitor)
        ensures
            monitor@.len() == 0,
    {
        Monitor { clients: Vec::new() }
    }
}

impl Monitor {
    /// The number of clients.
    pub fn clients_len(&self) -> (n: usize)
        ensures
            n == self@.len(),
    {
        self.clients.len()
    }

    /// Takes the store of a client that has connected. Returns the index
    /// under which the monitor keeps it.
    pub fn add_client(&mut self, store: ClientInfoStore) -> (index: usize)
        ensures
            final(self)@ == old(self)@.push(store@),
            index == old(self)@.len(),
    {
        let index = self.clients.len();
        self.clients.push(store);
        assert(self@ =~= old(self)@.push(store@));
        index
    }

    /// The store of client `index`, if there are that many clients.
    pub fn client(&self, index: usize) -> (store: Option<&ClientInfoStore>)
        ensures
            match store {
                Some(s) => index < self@.len() && s@ == self@[index as int],
                None => index >= self@.len(),
            },
    {
        if index < self.clients.len() {
            Some(&self.clients[index])
        } else {
            None
        }
    }

    /// Whether client `index` is known and its store can take `msg`.
    pub fn can_record(&self, index: usize, msg: &MonitorMsg) -> (b: bool)
        ensures
            b == (index < self@.len() && self@[index as int].has_room(msg@)),
    {
        index < self.clients.len() && self.clients[index].can_record(msg)
    }

    /// Hands a message of client `index` to that client's store. The stores
    /// of the other clients are not touched.
    pub fn record(&mut self, index: usize, msg: MonitorMsg) -> (report: Option<Diagnostic>)
        requires
            index < old(self)@.len(),
            old(self)@[index as int].has_room(msg@),
        ensures
            final(self)@ == old(self)@.update(index as int, old(self)@[index as int].recorded(msg@)),
            opt_diagnostic(report) == old(self)@[index as int].diagnosis(msg@),
    {
        let report = self.clients[index].record(msg);
        assert(self@ =~= old(self)@.update(index as int, old(self)@[index as int].recorded(msg@)));
        report
    }
}

} // verus!

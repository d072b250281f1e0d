//! A client of the storage nodes: it registers with a node, learns the other
//! clients, and sends and fetches items.

use vstd::prelude::*;

pub use crate::items::Item;
pub use crate::store::{Action, Entity, Request};

use crate::registry::{with_all, AddressSet};

verus! {

/// A client: its address, the node it talks to, the clients it knows and the items
/// it keeps.
pub struct Client {
    pub addr: String,
    pub register_addr: String,
    pub clients: AddressSet,
    pub storage: Vec<Item>,
}

/// A message from a client.
pub fn client_request(action: Action, data: String) -> (request: Request)
    ensures
        request.entity == Entity::CLIENT,
        request.action == action,
        request.data == data,
{
    Request { entity: Entity::CLIENT, action, data }
}

impl Client {
    /// The message that registers this client with its node: it carries the client's
    /// own address.
    pub fn registration_request(&self) -> (request: Request)
        ensures
            request.entity == Entity::CLIENT,
            request.action == Action::REGISTER,
            request.data == self.addr,
    {
        client_request(Action::REGISTER, self.addr.clone())
    }

    /// Takes in the clients that the node listed in its answer to a registration:
    /// each one not yet known is added, in the order listed.
    pub fn add_clients(&mut self, clients: Vec<String>)
        ensures
            final(self).clients@ == with_all(old(self).clients@, clients@.map_values(|c: String| c@)),
            final(self).storage@ == old(self).storage@,
            final(self).addr == old(self).addr,
            final(self).register_addr == old(self).register_addr,
    {
        self.clients.insert_all(clients);
    }
}

} // verus!

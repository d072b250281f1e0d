//! A peer of the item-sharing network: it stores items, learns the other peers
//! from an entry point, and forgets the peers it cannot reach.

use vstd::prelude::*;

use crate::items::{find_item, fresh_id_for, new_item, Item};
use crate::outside::is_plain_uuid;
use crate::registry::{lemma_with_idempotent, with, with_all, without_all, AddressSet};

verus! {

/// A peer: its address, the entry point it registers with, the peers it knows and the
/// items it stores.
pub struct Node {
    pub addr: String,
    pub register_addr: String,
    pub nodes: AddressSet,
    pub storage: Vec<Item>,
}

/// The entry point's answer to a registration: a message and the peers it knows.
pub struct RegisterNodeResponse {
    pub message: String,
    pub nodes: Vec<String>,
}

/// A peer's announcement of its address.
pub struct NodeRegistration {
    pub ip: String,
}

/// The path under an entry point where peers register.
pub open spec fn register_path() -> Seq<char> {
    "/register/node"@
}

impl Node {
    /// The URL that this peer registers at: the entry point's address, then
    /// `/register/node`.
    pub fn register_node_endpoint(&self) -> (url: String)
        ensures
            url@ == self.register_addr@ + register_path(),
    {
        let mut url = self.register_addr.clone();
        url.append("/register/node");
        url
    }

    /// Takes in the entry point's answer to a registration at `endpoint`: when there is
    /// one, the endpoint and then each peer it lists are added to the known peers; when
    /// there is none (the request failed or its answer could not be read), nothing
    /// changes. Returns whether the registration succeeded.
    pub fn complete_registration(&mut self, endpoint: String, answer: Option<RegisterNodeResponse>) -> (registered: bool)
        ensures
            registered == answer is Some,
            match answer {
                Some(a) => final(self).nodes@ == with_all(
                    with(old(self).nodes@, endpoint@),
                    a.nodes@.map_values(|n: String| n@),
                ),
                None => final(self).nodes@ == old(self).nodes@,
            },
            final(self).storage@ == old(self).storage@,
            final(self).addr == old(self).addr,
            final(self).register_addr == old(self).register_addr,
    {
        match answer {
            Some(a) => {
                self.nodes.insert(endpoint);
                self.nodes.insert_all(a.nodes);
                true
            },
            None => false,
        }
    }

    /// Stores a new item that holds `content`, made at `now`, under an identifier that no
    /// stored item has (the one made from `random` when it is free), and returns it.
    pub fn create_item(&mut self, content: String, now: u64, random: [u8; 16]) -> (item: Item)
        requires
            old(self).storage@.len() < 0x1000_0000_0000_0000,
        ensures
            item.content == content,
            item.timestamp == now,
            item.id@ == fresh_id_for(old(self).storage@, random@),
            is_plain_uuid(item.id@),
            find_item(old(self).storage@, item.id@) is None,
            final(self).storage@ == old(self).storage@.push(item),
            final(self).nodes@ == old(self).nodes@,
            final(self).addr == old(self).addr,
            final(self).register_addr == old(self).register_addr,
    {
        let item = new_item(&self.storage, content, now, random);
        self.storage.push(item.clone());
        item
    }

    /// Forgets the peers that an item could not be sent to; the others keep their order.
    pub fn forget_unreachable(&mut self, unreachable: &Vec<String>)
        ensures
            final(self).nodes@ == without_all(old(self).nodes@, unreachable@.map_values(|n: String| n@)),
            final(self).storage@ == old(self).storage@,
            final(self).addr == old(self).addr,
            final(self).register_addr == old(self).register_addr,
    {
        self.nodes.remove_all(unreachable);
    }

    /// Stores an item that another peer sent, made at `now` under the identifier that
    /// `random` gives.
    pub fn handle_item_from_node(&mut self, content: String, now: u64, random: [u8; 16])
        requires
            old(self).storage@.len() < 0x1000_0000_0000_0000,
        ensures
            final(self).storage@.len() == old(self).storage@.len() + 1,
            final(self).storage@.drop_last() == old(self).storage@,
            final(self).storage@.last().content == content,
            final(self).storage@.last().timestamp == now,
            is_plain_uuid(final(self).storage@.last().id@),
            find_item(old(self).storage@, final(self).storage@.last().id@) is None,
            final(self).nodes@ == old(self).nodes@,
    {
        let ghost before = self.storage@;
        let _item = self.create_item(content, now, random);
        assert(self.storage@.drop_last() =~= before);
    }

    /// Takes in a peer that announces itself: an unknown peer is added at the end of
    /// the known peers, a known one changes nothing. Returns whether it was known.
    pub fn handle_new_node(&mut self, new_node_url: String) -> (known: bool)
        ensures
            known == old(self).nodes@.contains(new_node_url@),
            final(self).nodes@ == with(old(self).nodes@, new_node_url@),
            final(self).nodes@.contains(new_node_url@),
            final(self).storage@ == old(self).storage@,
            final(self).addr == old(self).addr,
            final(self).register_addr == old(self).register_addr,
    {
        proof {
            lemma_with_idempotent(self.nodes@, new_node_url@);
        }
        let added = self.nodes.insert(new_node_url);
        !added
    }
}

} // verus!

//! A storage node: it keeps items for clients and a registry of the nodes that
//! joined it, and answers the messages that clients and nodes send it.

use vstd::prelude::*;

use crate::items::{
    find_item, found_json, found_to_json, is_most_frequent, item_json, item_to_json, lemma_most_frequent_unique, tally, copies, lemma_majority_is_most_frequent,
    fresh_id_for, lookup_item, most_frequent, new_item, pick_most_frequent, Item,
};
use crate::outside::is_plain_uuid;
use crate::registry::{lemma_with_idempotent, texts_json, with, without_all, AddressSet};
use crate::text::same_text;

verus! {

/// What a message asks for, or says.
#[allow(non_camel_case_types)]
#[derive(Clone, Copy, Debug, PartialEq, Eq, Structural)]
pub enum Action {
    REGISTER,
    SUCCESS,
    CREATE,
    RETRIEVE,
}

/// Who sends a message.
#[allow(non_camel_case_types)]
#[derive(Clone, Copy, Debug, PartialEq, Eq, Structural)]
pub enum Entity {
    NODE,
    CLIENT,
}

/// A message between clients and nodes; `data` is text or JSON, by action.
pub struct Request {
    pub entity: Entity,
    pub action: Action,
    pub data: String,
}

/// A storage node: its address, the address it registers with, the nodes that
/// registered with it and the items it stores.
pub struct Node {
    pub addr: String,
    pub register_addr: String,
    pub nodes: AddressSet,
    pub storage: Vec<Item>,
}

/// The reply a node sends: a success message that carries `data`.
pub open spec fn success(reply: Request, data: Seq<char>) -> bool {
    reply.entity == Entity::NODE && reply.action == Action::SUCCESS && reply.data@ == data
}

impl Node {
    /// Stores a new item that holds `content`, made at `now`, under an identifier that no
    /// stored item has (the one made from `random` when it is free), and returns it.
    pub fn create_item(&mut self, content: String, now: u64, random: [u8; 16]) -> (item: Item)
        requires
            old(self).storage@.len() < 0x1000_0000_0000_0000,
        ensures
            item.content == content,
            item.timestamp == now,
            item.id@ == fresh_id_for(old(self).storage@, random@),
            is_plain_uuid(item.id@),
            find_item(old(self).storage@, item.id@) is None,
            final(self).storage@ == old(self).storage@.push(item),
            final(self).nodes@ == old(self).nodes@,
            final(self).addr == old(self).addr,
            final(self).register_addr == old(self).register_addr,
    {
        let item = new_item(&self.storage, content, now, random);
        self.storage.push(item.clone());
        item
    }

    /// The first stored item whose identifier is `id`.
    pub fn retrieve_item(&self, id: String) -> (found: Option<Item>)
        ensures
            found == find_item(self.storage@, id@),
    {
        lookup_item(&self.storage, id.as_str())
    }

    /// Stores an item that another node shared, as it is.
    pub fn store_shared_item(&mut self, item: Item)
        ensures
            final(self).storage@ == old(self).storage@.push(item),
            final(self).nodes@ == old(self).nodes@,
            final(self).addr == old(self).addr,
            final(self).register_addr == old(self).register_addr,
    {
        self.storage.push(item);
    }

    /// Forgets the nodes that could not be reached; the others keep their order.
    pub fn forget_unreachable(&mut self, unreachable: &Vec<String>)
        ensures
            final(self).nodes@ == without_all(old(self).nodes@, unreachable@.map_values(|n: String| n@)),
            final(self).storage@ == old(self).storage@,
            final(self).addr == old(self).addr,
            final(self).register_addr == old(self).register_addr,
    {
        self.nodes.remove_all(unreachable);
    }

    /// Answers a client; `now` and `random` are the time and the random bytes read for
    /// this message. `CREATE` stores an item that holds the message's data, made at
    /// `now`, under an identifier no stored item has (the one `random` gives when it is
    /// free), replies with the item's JSON, and then shares the item with every known
    /// node. `RETRIEVE` changes nothing yet: the node first asks
    /// every known node for the item whose identifier is the data, and answers with
    /// [`Node::finish_retrieval`]. Other actions get no reply and change nothing.
    pub fn handle_client_connection(&mut self, request: Request, now: u64, random: [u8; 16]) -> (step: Step)
        requires
            old(self).storage@.len() < 0x1000_0000_0000_0000,
        ensures
            request.action == Action::CREATE ==> {
                &&& final(self).storage@.len() == old(self).storage@.len() + 1
                &&& final(self).storage@.drop_last() == old(self).storage@
                &&& final(self).storage@.last().content == request.data
                &&& final(self).storage@.last().timestamp == now
                &&& final(self).storage@.last().id@ == fresh_id_for(old(self).storage@, random@)
                &&& is_plain_uuid(final(self).storage@.last().id@)
                &&& find_item(old(self).storage@, final(self).storage@.last().id@) is None
                &&& final(self).nodes@ == old(self).nodes@
                &&& step matches Step::Share { reply, item, nodes } && {
                    &&& item == final(self).storage@.last()
                    &&& success(reply, item_json(item))
                    &&& nodes@.map_values(|n: String| n@) == old(self).nodes@
                }
            },
            request.action == Action::RETRIEVE ==> {
                &&& *final(self) == *old(self)
                &&& step matches Step::Gather { id, nodes } && {
                    &&& id == request.data
                    &&& nodes@.map_values(|n: String| n@) == old(self).nodes@
                }
            },
            (request.action == Action::REGISTER || request.action == Action::SUCCESS) ==> {
                &&& *final(self) == *old(self)
                &&& step is Idle
            },
    {
        match request.action {
            Action::CREATE => {
                let ghost before = self.storage@;
                let item = self.create_item(request.data, now, random);
                assert(self.storage@.drop_last() =~= before);
                let reply = Request { entity: Entity::NODE, action: Action::SUCCESS, data: item_to_json(&item) };
                Step::Share { reply, item, nodes: self.nodes.entries() }
            },
            Action::RETRIEVE => Step::Gather { id: request.data, nodes: self.nodes.entries() },
            Action::REGISTER => Step::Idle,
            Action::SUCCESS => Step::Idle,
        }
    }

    /// Answers a client's `RETRIEVE` once the known nodes were asked. The nodes that
    /// could not be reached or answered with an item under another identifier are
    /// forgotten. When at least 51% of the nodes asked gave a valid answer (the item, or
    /// that they do not have it), the answer is the most frequent of the items they sent;
    /// otherwise, and when none sent the item, it is `null`. When no node was asked (the
    /// node knows none), the answer is its own item, or `null`. Nothing is stored.
    pub fn finish_retrieval(&mut self, id: String, answers: Vec<Answer>) -> (reply: Request)
        ensures
            success(reply, found_json(agreed(old(self).storage@, answers@, id@))),
            final(self).nodes@ == without_all(old(self).nodes@, failed_nodes(answers@, id@)),
            final(self).storage@ == old(self).storage@,
            final(self).addr == old(self).addr,
            final(self).register_addr == old(self).register_addr,
    {
        let n = answers.len();
        if n == 0 {
            let found = self.retrieve_item(id);
            proof {
                assert(failed_nodes(answers@, id@) =~= Seq::<Seq<char>>::empty());
                assert(without_all(old(self).nodes@, failed_nodes(answers@, id@)) == old(self).nodes@);
            }
            return Request { entity: Entity::NODE, action: Action::SUCCESS, data: found_to_json(&found) };
        }
        let mut failed: Vec<String> = Vec::new();
        let mut heard: Vec<Item> = Vec::new();
        let mut ok: usize = 0;
        let mut i: usize = 0;
        while i < n
            invariant
                n == answers@.len(),
                i <= n,
                failed@.map_values(|f: String| f@) == failed_nodes(answers@.take(i as int), id@),
                ok == ok_count(answers@.take(i as int), id@),
                ok <= i,
                heard@ == reported(answers@.take(i as int), id@),
            decreases n - i,
        {
            let ghost before_failed = failed@;
            proof {
                let t = answers@.take(i as int + 1);
                assert(t.drop_last() =~= answers@.take(i as int));
                assert(t.last() == answers@[i as int]);
            }
            match &answers[i].heard {
                Heard::Unreachable => {
                    failed.push(answers[i].node.clone());
                    assert(failed@.map_values(|f: String| f@) =~= before_failed.map_values(|f: String| f@).push(answers@[i as int].node@));
                },
                Heard::Found(item) => {
                    if same_text(item.id.as_str(), id.as_str()) {
                        ok = ok + 1;
                        heard.push(item.clone());
                    } else {
                        failed.push(answers[i].node.clone());
                        assert(failed@.map_values(|f: String| f@) =~= before_failed.map_values(|f: String| f@).push(answers@[i as int].node@));
                    }
                },
                Heard::NotFound => {
                    ok = ok + 1;
                },
            }
            assert(heard@ =~= reported(answers@.take(i as int + 1), id@));
            i = i + 1;
        }
        assert(answers@.take(n as int) =~= answers@);
        self.nodes.remove_all(&failed);
        let met: bool = (ok as u128) * 100 >= (n as u128) * 51;
        let chosen = if met {
            pick_most_frequent(&heard)
        } else {
            None
        };
        Request { entity: Entity::NODE, action: Action::SUCCESS, data: found_to_json(&chosen) }
    }

    /// Answers a node. `REGISTER` adds the address in the message's data to the
    /// registry (unless it is there) and replies with the JSON list of all registered
    /// addresses. `RETRIEVE` replies with the JSON of the first stored item whose
    /// identifier is the data, or `null`, without asking further. `CREATE` shares an
    /// item: `shared` is the item its data holds, when the data could be read as one; it
    /// is stored as it is, with no reply. Other actions get no reply and change nothing.
    pub fn handle_server_connection(&mut self, request: Request, shared: Option<Item>) -> (reply: Option<Request>)
        ensures
            request.action == Action::REGISTER ==> {
                &&& final(self).nodes@ == with(old(self).nodes@, request.data@)
                &&& final(self).nodes@.contains(request.data@)
                &&& final(self).storage@ == old(self).storage@
                &&& reply is Some
                &&& success(reply->0, texts_json(final(self).nodes@))
            },
            request.action == Action::RETRIEVE ==> {
                &&& *final(self) == *old(self)
                &&& reply is Some
                &&& success(reply->0, found_json(find_item(old(self).storage@, request.data@)))
            },
            request.action == Action::CREATE ==> {
                &&& final(self).storage@ == match shared {
                    Some(item) => old(self).storage@.push(item),
                    None => old(self).storage@,
                }
                &&& final(self).nodes@ == old(self).nodes@
                &&& final(self).addr == old(self).addr
                &&& final(self).register_addr == old(self).register_addr
                &&& reply is None
            },
            request.action == Action::SUCCESS ==> {
                &&& *final(self) == *old(self)
                &&& reply is None
            },
    {
        match request.action {
            Action::REGISTER => {
                proof {
                    lemma_with_idempotent(self.nodes@, request.data@);
                }
                let _added = self.nodes.insert(request.data);
                Some(Request { entity: Entity::NODE, action: Action::SUCCESS, data: self.nodes.to_json() })
            },
            Action::RETRIEVE => {
                let found = self.retrieve_item(request.data);
                Some(Request { entity: Entity::NODE, action: Action::SUCCESS, data: found_to_json(&found) })
            },
            Action::CREATE => {
                match shared {
                    Some(item) => self.store_shared_item(item),
                    None => {},
                }
                None
            },
            Action::SUCCESS => None,
        }
    }
}

/// What a node heard back from a node it asked for an item.
pub enum Heard {
    /// The node could not be reached, or its answer could not be read.
    Unreachable,
    /// The node sent this item.
    Found(Item),
    /// The node does not have the item.
    NotFound,
}

/// A node that was asked, and what it answered.
pub struct Answer {
    pub node: String,
    pub heard: Heard,
}

/// What a node does after taking in a message.
pub enum Step {
    /// Nothing.
    Idle,
    /// Send `reply` to the client, then send `item` to each of `nodes` to be stored;
    /// forget the nodes that cannot be reached.
    Share { reply: Request, item: Item, nodes: Vec<String> },
    /// Ask each of `nodes` for the item `id`, then answer the client with
    /// [`Node::finish_retrieval`].
    Gather { id: String, nodes: Vec<String> },
}

/// An answer that counts: the node sent the item asked for, or said it does not have it.
pub open spec fn answer_ok(a: Answer, id: Seq<char>) -> bool {
    match a.heard {
        Heard::Unreachable => false,
        Heard::Found(item) => item.id@ == id,
        Heard::NotFound => true,
    }
}

/// The nodes whose answers do not count, in the order they were asked.
pub open spec fn failed_nodes(answers: Seq<Answer>, id: Seq<char>) -> Seq<Seq<char>>
    decreases answers.len(),
{
    if answers.len() == 0 {
        seq![]
    } else if answer_ok(answers.last(), id) {
        failed_nodes(answers.drop_last(), id)
    } else {
        failed_nodes(answers.drop_last(), id).push(answers.last().node@)
    }
}

/// How many answers count.
pub open spec fn ok_count(answers: Seq<Answer>, id: Seq<char>) -> nat
    decreases answers.len(),
{
    if answers.len() == 0 {
        0
    } else {
        ok_count(answers.drop_last(), id) + if answer_ok(answers.last(), id) {
            1nat
        } else {
            0nat
        }
    }
}

/// The items that the nodes sent under the identifier asked for, in the order asked.
pub open spec fn reported(answers: Seq<Answer>, id: Seq<char>) -> Seq<Item>
    decreases answers.len(),
{
    if answers.len() == 0 {
        seq![]
    } else {
        match answers.last().heard {
            Heard::Found(item) => if item.id@ == id {
                reported(answers.drop_last(), id).push(item)
            } else {
                reported(answers.drop_last(), id)
            },
            _ => reported(answers.drop_last(), id),
        }
    }
}

/// At least 51% of the nodes asked gave an answer that counts.
pub open spec fn quorum(ok: nat, asked: nat) -> bool {
    ok * 100 >= asked * 51
}

/// The item a retrieval agrees on: when no node was asked, the node's own item; with a
/// quorum, the most frequent of the items the nodes sent; otherwise none.
pub open spec fn agreed(storage: Seq<Item>, answers: Seq<Answer>, id: Seq<char>) -> Option<Item> {
    if answers.len() == 0 {
        find_item(storage, id)
    } else if quorum(ok_count(answers, id), answers.len()) {
        most_frequent(reported(answers, id))
    } else {
        None
    }
}

/// A node that knows no other node answers a retrieval with its own item, or `null`.
pub proof fn lemma_retrieval_alone(storage: Seq<Item>, id: Seq<char>)
    ensures
        agreed(storage, Seq::<Answer>::empty(), id) == find_item(storage, id),
{
}

/// When every node asked sends the same item, and at least one node was asked, the
/// retrieval agrees on that item.
pub proof fn lemma_retrieval_unanimous(storage: Seq<Item>, answers: Seq<Answer>, id: Seq<char>, item: Item)
    requires
        answers.len() > 0,
        item.id@ == id,
        forall|i: int| 0 <= i < answers.len() ==> #[trigger] answers[i].heard == Heard::Found(item),
    ensures
        agreed(storage, answers, id) == Some(item),
    decreases answers.len(),
{
    lemma_unanimous_counts(answers, id, item);
    let r = reported(answers, id);
    assert(r.len() > 0);
    lemma_tally_all(r, item);
    assert(is_most_frequent(r, 0));
    let k = choose|k: int| is_most_frequent(r, k);
    lemma_most_frequent_unique(r, 0, k);
}

/// Unanimous answers all count and all report the item.
proof fn lemma_unanimous_counts(answers: Seq<Answer>, id: Seq<char>, item: Item)
    requires
        item.id@ == id,
        forall|i: int| 0 <= i < answers.len() ==> #[trigger] answers[i].heard == Heard::Found(item),
    ensures
        ok_count(answers, id) == answers.len(),
        reported(answers, id).len() == answers.len(),
        forall|i: int| 0 <= i < answers.len() ==> #[trigger] reported(answers, id)[i] == item,
    decreases answers.len(),
{
    if answers.len() > 0 {
        let d = answers.drop_last();
        assert forall|i: int| 0 <= i < d.len() implies #[trigger] d[i].heard == Heard::Found(item) by {
            assert(d[i] == answers[i]);
        }
        lemma_unanimous_counts(d, id, item);
        assert(answers.last().heard == Heard::Found(item)) by {
            assert(answers[answers.len() - 1] == answers.last());
        }
    }
}

/// In a list of copies of one item, each copy is counted once per place.
proof fn lemma_tally_all(s: Seq<Item>, item: Item)
    requires
        forall|i: int| 0 <= i < s.len() ==> #[trigger] s[i] == item,
    ensures
        tally(s, item) == s.len(),
    decreases s.len(),
{
    if s.len() > 0 {
        let d = s.drop_last();
        assert forall|i: int| 0 <= i < d.len() implies #[trigger] d[i] == item by {
            assert(d[i] == s[i]);
        }
        lemma_tally_all(d, item);
        assert(s.last() == s[s.len() - 1]);
    }
}

/// The quorum is 51% of the nodes asked, counted exactly: `ok` valid answers out of
/// `asked` make one when `100 * ok >= 51 * asked` (so 2 of 3, or 51 of 100, but not 50 of
/// 100).
pub proof fn lemma_quorum_is_51_percent(ok: nat, asked: nat)
    ensures
        quorum(ok, asked) <==> 100 * ok >= 51 * asked,
{
}

/// When at least 51% of the nodes asked gave a valid answer and more than half of the
/// items they sent are copies of one item, the retrieval answers that item.
pub proof fn lemma_retrieval_majority(storage: Seq<Item>, answers: Seq<Answer>, id: Seq<char>, x: Item)
    requires
        answers.len() > 0,
        100 * ok_count(answers, id) >= 51 * answers.len(),
        2 * copies(reported(answers, id), x) > reported(answers, id).len(),
    ensures
        agreed(storage, answers, id) matches Some(r) && r.id@ == x.id@ && r.timestamp == x.timestamp
            && r.content@ == x.content@,
{
    lemma_majority_is_most_frequent(reported(answers, id), x);
}

/// The nodes a retrieval forgets are exactly those with an answer that does not count:
/// unreachable, unreadable, or an item under another identifier.
pub proof fn lemma_failed_nodes_exact(answers: Seq<Answer>, id: Seq<char>, x: Seq<char>)
    ensures
        failed_nodes(answers, id).contains(x) <==> exists|i: int|
            0 <= i < answers.len() && !answer_ok(#[trigger] answers[i], id) && answers[i].node@ == x,
    decreases answers.len(),
{
    if answers.len() > 0 {
        let d = answers.drop_last();
        lemma_failed_nodes_exact(d, id, x);
        let f = failed_nodes(answers, id);
        let fd = failed_nodes(d, id);
        if f.contains(x) {
            if fd.contains(x) {
                let i = choose|i: int| 0 <= i < d.len() && !answer_ok(#[trigger] d[i], id) && d[i].node@ == x;
                assert(answers[i] == d[i]);
            } else {
                assert(!answer_ok(answers.last(), id));
                let k = choose|k: int| 0 <= k < f.len() && f[k] == x;
                assert(f == fd.push(answers.last().node@));
                assert(k == fd.len());
                assert(answers[answers.len() - 1] == answers.last());
            }
        }
        if exists|i: int| 0 <= i < answers.len() && !answer_ok(#[trigger] answers[i], id) && answers[i].node@ == x {
            let i = choose|i: int| 0 <= i < answers.len() && !answer_ok(#[trigger] answers[i], id) && answers[i].node@ == x;
            if i < d.len() {
                assert(d[i] == answers[i]);
                let k = choose|k: int| 0 <= k < fd.len() && fd[k] == x;
                if answer_ok(answers.last(), id) {
                    assert(f[k] == x);
                } else {
                    assert(f == fd.push(answers.last().node@));
                    assert(f[k] == x);
                }
            } else {
                assert(answers[i] == answers.last());
                assert(f == fd.push(answers.last().node@));
                assert(f[fd.len() as int] == x);
            }
        }
    }
}

} // verus!

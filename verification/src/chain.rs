//! A proof-of-work blockchain: pending transactions, blocks that seal them,
//! the block hash and the proof that links each block to the one before.

use vstd::prelude::*;

use crate::outside::{sha256_digest, sha256_hex};
use crate::text::{
    decimal, int_text, json_string, push_char, push_decimal, push_i32, push_json_string,
    push_seconds, seconds_text,
};

verus! {

/// A transfer of coins from one party to another.
pub struct Transaction {
    pub sender: String,
    pub receiver: String,
    pub amount: i32,
}

impl Clone for Transaction {
    fn clone(&self) -> (copy: Self)
        ensures
            copy == *self,
    {
        Transaction {
            sender: self.sender.clone(),
            receiver: self.receiver.clone(),
            amount: self.amount,
        }
    }
}

/// A sealed block: its position (from 1), when it was made, the transactions it
/// holds, the proof of work and the hash of the block before it.
pub struct Block {
    pub index: usize,
    /// Milliseconds since 1970-01-01 UTC.
    pub timestamp: u64,
    pub transactions: Vec<Transaction>,
    pub proof: usize,
    pub previous_hash: String,
}

/// What a block holds, with its transactions as a sequence.
pub struct BlockView {
    pub index: usize,
    pub timestamp: u64,
    pub transactions: Seq<Transaction>,
    pub proof: usize,
    pub previous_hash: Seq<char>,
}

impl View for Block {
    type V = BlockView;

    open spec fn view(&self) -> BlockView {
        BlockView {
            index: self.index,
            timestamp: self.timestamp,
            transactions: self.transactions@,
            proof: self.proof,
            previous_hash: self.previous_hash@,
        }
    }
}

impl Clone for Block {
    fn clone(&self) -> (copy: Self)
        ensures
            copy@ == self@,
    {
        let transactions = self.transactions.clone();
        assert(transactions@ =~= self.transactions@);
        Block {
            index: self.index,
            timestamp: self.timestamp,
            transactions,
            proof: self.proof,
            previous_hash: self.previous_hash.clone(),
        }
    }
}

/// The chain of blocks and the transactions that wait for the next block.
pub struct Blockchain {
    pub blocks: Vec<Block>,
    pub transactions: Vec<Transaction>,
}

/// The blocks of a chain and its pending transactions.
pub struct ChainView {
    pub blocks: Seq<BlockView>,
    pub pending: Seq<Transaction>,
}

impl View for Blockchain {
    type V = ChainView;

    open spec fn view(&self) -> ChainView {
        ChainView {
            blocks: self.blocks@.map_values(|b: Block| b@),
            pending: self.transactions@,
        }
    }
}

/// The JSON object of a transaction, fields in declaration order.
pub open spec fn transaction_json(t: Transaction) -> Seq<char> {
    "{\"sender\":"@ + json_string(t.sender@) + ",\"receiver\":"@ + json_string(t.receiver@)
        + ",\"amount\":"@ + int_text(t.amount as int) + seq!['}']
}

/// The JSON objects of a list of transactions, separated by commas.
pub open spec fn transactions_json(ts: Seq<Transaction>) -> Seq<char>
    decreases ts.len(),
{
    if ts.len() == 0 {
        seq![]
    } else if ts.len() == 1 {
        transaction_json(ts[0])
    } else {
        transactions_json(ts.drop_last()) + seq![','] + transaction_json(ts.last())
    }
}

/// The compact JSON text of a block, fields in declaration order; the timestamp is
/// written in seconds.
pub open spec fn block_json(b: BlockView) -> Seq<char> {
    "{\"index\":"@ + decimal(b.index as nat) + ",\"timestamp\":"@ + seconds_text(
        b.timestamp as nat,
    ) + ",\"transactions\":["@ + transactions_json(b.transactions) + "],\"proof\":"@
        + decimal(b.proof as nat) + ",\"previous_hash\":"@ + json_string(b.previous_hash)
        + seq!['}']
}

/// The hash of a block: the SHA-256 digest of its JSON text.
pub open spec fn block_hash(b: BlockView) -> Seq<char> {
    sha256_hex(block_json(b))
}

/// The text that a proof is hashed as: the previous proof's digits, then its own.
pub open spec fn proof_text(previous_proof: usize, proof: usize) -> Seq<char> {
    decimal(previous_proof as nat) + decimal(proof as nat)
}

/// A hash meets the difficulty when its first six characters are all `0`
/// (of a shorter hash, all of its characters).
pub open spec fn meets_difficulty(hash: Seq<char>) -> bool {
    forall|i: int| 0 <= i < 6 && i < hash.len() ==> hash[i] == '0'
}

/// Whether `proof` is a valid proof of work after `previous_proof`.
pub open spec fn proof_accepted(previous_proof: usize, proof: usize) -> bool {
    meets_difficulty(sha256_hex(proof_text(previous_proof, proof)))
}

/// The transaction that rewards the miner of a block.
pub open spec fn is_reward(t: Transaction) -> bool {
    t.sender@ == "0"@ && t.receiver@ == "0"@ && t.amount == 1
}

/// Blocks are numbered from 1 in the order they stand.
pub open spec fn numbered(blocks: Seq<BlockView>) -> bool {
    forall|i: int| 0 <= i < blocks.len() ==> #[trigger] blocks[i].index == i + 1
}

/// The first block of every chain.
pub open spec fn is_genesis(b: BlockView) -> bool {
    b.index == 1 && b.proof == 1 && b.previous_hash == "1"@ && b.transactions.len() == 0
}

/// `next` follows `prev`: it names `prev`'s hash, and its proof is valid after `prev`'s.
pub open spec fn links(prev: BlockView, next: BlockView) -> bool {
    &&& next.previous_hash == block_hash(prev)
    &&& proof_accepted(prev.proof, next.proof)
}

/// A valid chain: it starts with the genesis block, is numbered from 1, and each
/// block links to the one before it.
pub open spec fn valid_chain(blocks: Seq<BlockView>) -> bool {
    &&& blocks.len() >= 1
    &&& is_genesis(blocks[0])
    &&& numbered(blocks)
    &&& forall|i: int| 1 <= i < blocks.len() ==> links(#[trigger] blocks[i - 1], blocks[i])
}

/// Appends the JSON text of a transaction.
fn push_transaction_json(out: &mut String, t: &Transaction)
    ensures
        final(out)@ == old(out)@ + transaction_json(*t),
{
    out.append("{\"sender\":");
    push_json_string(out, t.sender.as_str());
    out.append(",\"receiver\":");
    push_json_string(out, t.receiver.as_str());
    out.append(",\"amount\":");
    push_i32(out, t.amount);
    push_char(out, '}');
    assert(final(out)@ =~= old(out)@ + transaction_json(*t));
}

/// Appends the JSON texts of a list of transactions, separated by commas.
fn push_transactions_json(out: &mut String, ts: &Vec<Transaction>)
    ensures
        final(out)@ == old(out)@ + transactions_json(ts@),
{
    let ghost start = out@;
    let n = ts.len();
    let mut i: usize = 0;
    while i < n
        invariant
            n == ts@.len(),
            i <= n,
            start == old(out)@,
            out@ == start + transactions_json(ts@.take(i as int)),
        decreases n - i,
    {
        let ghost before = out@;
        if i > 0 {
            push_char(out, ',');
        }
        push_transaction_json(out, &ts[i]);
        proof {
            let t = ts@.take(i as int + 1);
            assert(t.drop_last() =~= ts@.take(i as int));
            assert(t.last() == ts@[i as int]);
            if i == 0 {
                assert(t.len() == 1);
                assert(out@ =~= start + transactions_json(t));
            } else {
                assert(out@ =~= start + transactions_json(t));
            }
        }
        i = i + 1;
    }
    assert(ts@.take(n as int) =~= ts@);
}

/// The JSON text of a block, as the chain hashes it and the nodes send it.
pub fn block_to_json(block: &Block) -> (json: String)
    ensures
        json@ == block_json(block@),
{
    let mut out = String::new();
    out.append("{\"index\":");
    push_decimal(&mut out, block.index as u64);
    out.append(",\"timestamp\":");
    push_seconds(&mut out, block.timestamp);
    out.append(",\"transactions\":[");
    push_transactions_json(&mut out, &block.transactions);
    out.append("],\"proof\":");
    push_decimal(&mut out, block.proof as u64);
    out.append(",\"previous_hash\":");
    push_json_string(&mut out, block.previous_hash.as_str());
    push_char(&mut out, '}');
    assert(out@ =~= block_json(block@));
    out
}

/// Whether a hash meets the difficulty: its first six characters are `0`.
pub fn hash_meets_difficulty(hash: &str) -> (ok: bool)
    ensures
        ok == meets_difficulty(hash@),
{
    let n = hash.unicode_len();
    let mut i: usize = 0;
    while i < 6 && i < n
        invariant
            n == hash@.len(),
            i <= 6,
            forall|j: int| 0 <= j < i && j < n ==> hash@[j] == '0',
        decreases 6 - i,
    {
        if hash.get_char(i) != '0' {
            return false;
        }
        i = i + 1;
    }
    true
}

/// The text that a proof is hashed as.
pub fn proof_input(previous_proof: usize, proof: usize) -> (text: String)
    ensures
        text@ == proof_text(previous_proof, proof),
{
    let mut text = String::new();
    push_decimal(&mut text, previous_proof as u64);
    push_decimal(&mut text, proof as u64);
    assert(text@ =~= proof_text(previous_proof, proof));
    text
}

/// The first valid proof in `from..to` after `previous_proof`, if there is one.
pub fn search_proof(previous_proof: usize, from: usize, to: usize) -> (found: Option<usize>)
    ensures
        match found {
            Some(p) => from <= p < to && proof_accepted(previous_proof, p) && forall|q: usize|
                from <= q < p ==> !#[trigger] proof_accepted(previous_proof, q),
            None => forall|q: usize| from <= q < to ==> !#[trigger] proof_accepted(previous_proof, q),
        },
{
    let mut p = from;
    while p < to
        invariant
            from <= p,
            forall|q: usize| from <= q < p ==> !#[trigger] proof_accepted(previous_proof, q),
        decreases to - p,
    {
        if Blockchain::check_proof(&previous_proof, &p) {
            return Some(p);
        }
        p = p + 1;
    }
    None
}

impl Blockchain {
    /// A chain that holds only the genesis block, made at `timestamp`: index 1, previous
    /// hash `"1"`, proof 1, no transactions; nothing is pending.
    pub fn new(timestamp: u64) -> (chain: Self)
        ensures
            chain@.blocks.len() == 1,
            is_genesis(chain@.blocks[0]),
            chain@.blocks[0].timestamp == timestamp,
            chain@.pending.len() == 0,
            valid_chain(chain@.blocks),
    {
        let mut chain = Blockchain { transactions: Vec::new(), blocks: Vec::new() };
        let _genesis = chain.create_block("1", 1, timestamp);
        chain
    }

    /// Seals the pending transactions into a new block made at `timestamp` (milliseconds
    /// since 1970-01-01 UTC), appends it, and empties the pending list.
    pub fn create_block(&mut self, previous_hash: &str, proof: usize, timestamp: u64) -> (block: Block)
        requires
            old(self).blocks@.len() < usize::MAX,
        ensures
            block@ == (BlockView {
                index: (old(self)@.blocks.len() + 1) as usize,
                timestamp,
                transactions: old(self)@.pending,
                proof,
                previous_hash: previous_hash@,
            }),
            final(self)@.blocks == old(self)@.blocks.push(block@),
            final(self)@.pending.len() == 0,
            numbered(old(self)@.blocks) ==> numbered(final(self)@.blocks),
    {
        let block = Block {
            index: self.blocks.len() + 1,
            timestamp,
            transactions: self.transactions.clone(),
            proof,
            previous_hash: previous_hash.to_owned(),
        };
        assert(block.transactions@ =~= self.transactions@);
        let ghost before = self.blocks@;
        self.blocks.push(block.clone());
        self.transactions.clear();
        assert(self.blocks@.map_values(|b: Block| b@) =~= before.map_values(|b: Block| b@).push(block@));
        proof {
            if numbered(before.map_values(|b: Block| b@)) {
                lemma_push_numbered(before.map_values(|b: Block| b@), block@);
            }
        }
        block
    }

    /// Adds a transaction to the pending list and gives it back.
    pub fn add_transaction(&mut self, transaction: Transaction) -> (added: Transaction)
        ensures
            added == transaction,
            final(self)@.pending == old(self)@.pending.push(transaction),
            final(self)@.blocks == old(self)@.blocks,
            final(self).blocks@ == old(self).blocks@,
    {
        self.transactions.push(transaction.clone());
        transaction
    }

    /// The last block of the chain.
    pub fn get_last_block(&self) -> (last: Block)
        requires
            self.blocks@.len() > 0,
        ensures
            last@ == self@.blocks.last(),
    {
        self.blocks[self.blocks.len() - 1].clone()
    }

    /// The hash of a block: the SHA-256 digest of its JSON text, in lowercase hexadecimal.
    pub fn get_block_hash(block: &Block) -> (hash: String)
        ensures
            hash@ == block_hash(block@),
    {
        let json = block_to_json(block);
        sha256_digest(json.as_str())
    }

    /// Whether `proof` is a valid proof of work after `previous_proof`: the SHA-256
    /// digest of their digits written one after the other starts with six zeros.
    pub fn check_proof(previous_proof: &usize, proof: &usize) -> (ok: bool)
        ensures
            ok == proof_accepted(*previous_proof, *proof),
            ok == (sha256_hex(proof_text(*previous_proof, *proof)).take(6) == seq!['0', '0', '0', '0', '0', '0']),
    {
        let text = proof_input(*previous_proof, *proof);
        let hash = sha256_digest(text.as_str());
        proof {
            lemma_six_leading_zeros(hash@);
        }
        hash_meets_difficulty(hash.as_str())
    }

    /// The smallest valid proof, counting from 1, after the last block's proof.
    pub fn obtain_proof(&self) -> (proof: usize)
        requires
            self.blocks@.len() > 0,
            exists|p: usize| 1 <= p && #[trigger] proof_accepted(self@.blocks.last().proof, p),
        ensures
            1 <= proof,
            proof_accepted(self@.blocks.last().proof, proof),
            forall|q: usize| 1 <= q < proof ==> !#[trigger] proof_accepted(self@.blocks.last().proof, q),
    {
        let previous_proof = self.get_last_block().proof;
        let mut proof: usize = 1;
        while !Blockchain::check_proof(&previous_proof, &proof)
            invariant
                1 <= proof,
                previous_proof == self@.blocks.last().proof,
                exists|p: usize| proof <= p && #[trigger] proof_accepted(previous_proof, p),
                forall|q: usize| 1 <= q < proof ==> !#[trigger] proof_accepted(previous_proof, q),
            decreases usize::MAX - proof,
        {
            assert(proof < usize::MAX) by {
                let p = choose|p: usize| proof <= p && #[trigger] proof_accepted(previous_proof, p);
                assert(p != proof);
            }
            proof = proof + 1;
        }
        proof
    }
}

impl Blockchain {
    /// Mines a block: finds the smallest valid proof after the last block's proof,
    /// adds the miner's reward to the pending transactions, and seals them into a block
    /// made at `timestamp` that names the hash of the last block.
    pub fn mine(&mut self, timestamp: u64) -> (block: Block)
        requires
            old(self).blocks@.len() > 0,
            old(self).blocks@.len() < usize::MAX,
            exists|p: usize| 1 <= p && #[trigger] proof_accepted(old(self)@.blocks.last().proof, p),
        ensures
            block@.index == old(self)@.blocks.len() + 1,
            block@.timestamp == timestamp,
            block@.transactions.len() == old(self)@.pending.len() + 1,
            block@.transactions.drop_last() == old(self)@.pending,
            is_reward(block@.transactions.last()),
            block@.previous_hash == block_hash(old(self)@.blocks.last()),
            1 <= block@.proof,
            proof_accepted(old(self)@.blocks.last().proof, block@.proof),
            forall|q: usize|
                1 <= q < block@.proof ==> !#[trigger] proof_accepted(old(self)@.blocks.last().proof, q),
            final(self)@.blocks == old(self)@.blocks.push(block@),
            final(self)@.pending.len() == 0,
            valid_chain(old(self)@.blocks) ==> valid_chain(final(self)@.blocks),
    {
        let ghost before = self@;
        let proof = self.obtain_proof();
        let reward = Transaction { sender: "0".to_owned(), receiver: "0".to_owned(), amount: 1 };
        self.add_transaction(reward);
        let last_block = self.get_last_block();
        let previous_hash = Blockchain::get_block_hash(&last_block);
        let block = self.create_block(previous_hash.as_str(), proof, timestamp);
        proof {
            assert(block@.transactions.drop_last() =~= before.pending);
            if valid_chain(before.blocks) {
                lemma_extend_valid(before.blocks, block@);
            }
        }
        block
    }

    /// Mines a block as [`Blockchain::mine`] does when a valid proof below `limit`
    /// exists; otherwise changes nothing and returns `None`.
    pub fn mine_within(&mut self, limit: usize, timestamp: u64) -> (mined: Option<Block>)
        requires
            old(self).blocks@.len() > 0,
            old(self).blocks@.len() < usize::MAX,
        ensures
            match mined {
                Some(block) => {
                    &&& block@.index == old(self)@.blocks.len() + 1
                    &&& block@.timestamp == timestamp
                    &&& block@.transactions.len() == old(self)@.pending.len() + 1
                    &&& block@.transactions.drop_last() == old(self)@.pending
                    &&& is_reward(block@.transactions.last())
                    &&& block@.previous_hash == block_hash(old(self)@.blocks.last())
                    &&& 1 <= block@.proof < limit
                    &&& proof_accepted(old(self)@.blocks.last().proof, block@.proof)
                    &&& forall|q: usize|
                        1 <= q < block@.proof ==> !#[trigger] proof_accepted(
                            old(self)@.blocks.last().proof,
                            q,
                        )
                    &&& final(self)@.blocks == old(self)@.blocks.push(block@)
                    &&& final(self)@.pending.len() == 0
                    &&& valid_chain(old(self)@.blocks) ==> valid_chain(final(self)@.blocks)
                },
                None => {
                    &&& forall|q: usize|
                        1 <= q < limit ==> !#[trigger] proof_accepted(
                            old(self)@.blocks.last().proof,
                            q,
                        )
                    &&& *final(self) == *old(self)
                },
            },
    {
        let previous_proof = self.blocks[self.blocks.len() - 1].proof;
        match search_proof(previous_proof, 1, limit) {
            None => None,
            Some(p) => {
                assert(proof_accepted(self@.blocks.last().proof, p));
                let block = self.mine(timestamp);
                assert(block@.proof <= p) by {
                    if block@.proof > p {
                        assert(!proof_accepted(old(self)@.blocks.last().proof, p));
                    }
                }
                Some(block)
            },
        }
    }

    /// The JSON text of the whole chain: the blocks' JSON texts in a list.
    pub fn blocks_to_json(&self) -> (json: String)
        ensures
            json@ == seq!['['] + blocks_json(self@.blocks) + seq![']'],
    {
        let mut out = String::new();
        push_char(&mut out, '[');
        let ghost start = out@;
        let n = self.blocks.len();
        let mut i: usize = 0;
        while i < n
            invariant
                n == self@.blocks.len(),
                i <= n,
                start == seq!['['],
                out@ == start + blocks_json(self@.blocks.take(i as int)),
            decreases n - i,
        {
            if i > 0 {
                push_char(&mut out, ',');
            }
            let json = block_to_json(&self.blocks[i]);
            out.append(json.as_str());
            proof {
                let t = self@.blocks.take(i as int + 1);
                assert(t.drop_last() =~= self@.blocks.take(i as int));
                assert(t.last() == self.blocks@[i as int]@);
                assert(out@ =~= start + blocks_json(t));
            }
            i = i + 1;
        }
        assert(self@.blocks.take(n as int) =~= self@.blocks);
        push_char(&mut out, ']');
        out
    }
}

/// The JSON texts of a list of blocks, separated by commas.
pub open spec fn blocks_json(blocks: Seq<BlockView>) -> Seq<char>
    decreases blocks.len(),
{
    if blocks.len() == 0 {
        seq![]
    } else if blocks.len() == 1 {
        block_json(blocks[0])
    } else {
        blocks_json(blocks.drop_last()) + seq![','] + block_json(blocks.last())
    }
}

/// The JSON text of a transaction.
pub fn transaction_to_json(t: &Transaction) -> (json: String)
    ensures
        json@ == transaction_json(*t),
{
    let mut out = String::new();
    push_transaction_json(&mut out, t);
    assert(out@ =~= transaction_json(*t));
    out
}

/// What the chain's web service starts with: the port it listens on and a fresh chain.
pub struct ChainService {
    pub port: u16,
    pub blockchain: Blockchain,
}

/// The chain service as it is launched at `timestamp`: port 5000 and a chain that holds
/// only the genesis block, made then.
pub fn rocket(timestamp: u64) -> (service: ChainService)
    ensures
        service.port == 5000,
        service.blockchain@.blocks.len() == 1,
        is_genesis(service.blockchain@.blocks[0]),
        service.blockchain@.blocks[0].timestamp == timestamp,
        service.blockchain@.pending.len() == 0,
{
    ChainService { port: 5000, blockchain: Blockchain::new(timestamp) }
}

/// A valid chain stays valid when the block added next is numbered after the last
/// one, names the last block's hash and carries a valid proof after the last block's.
pub proof fn lemma_extend_valid(blocks: Seq<BlockView>, next: BlockView)
    requires
        valid_chain(blocks),
        next.index == blocks.len() + 1,
        links(blocks.last(), next),
    ensures
        valid_chain(blocks.push(next)),
{
    let extended = blocks.push(next);
    assert forall|i: int| 0 <= i < extended.len() implies #[trigger] extended[i].index == i + 1 by {
        if i < blocks.len() {
            assert(extended[i] == blocks[i]);
        }
    }
    assert forall|i: int| 1 <= i < extended.len() implies links(#[trigger] extended[i - 1], extended[i]) by {
        if i < blocks.len() {
            assert(extended[i] == blocks[i]);
            assert(extended[i - 1] == blocks[i - 1]);
        } else {
            assert(extended[i - 1] == blocks.last());
        }
    }
    assert(extended[0] == blocks[0]);
}

/// Numbering from 1 is kept by adding a block numbered after the last one.
pub proof fn lemma_push_numbered(blocks: Seq<BlockView>, next: BlockView)
    requires
        numbered(blocks),
        next.index == blocks.len() + 1,
    ensures
        numbered(blocks.push(next)),
{
    let extended = blocks.push(next);
    assert forall|i: int| 0 <= i < extended.len() implies #[trigger] extended[i].index == i + 1 by {
        if i < blocks.len() {
            assert(extended[i] == blocks[i]);
        }
    }
}

/// A hash of at least six characters meets the difficulty exactly when its first six
/// characters are `000000`: five leading zeros are not enough.
pub proof fn lemma_six_leading_zeros(hash: Seq<char>)
    requires
        hash.len() >= 6,
    ensures
        meets_difficulty(hash) <==> hash.take(6) == seq!['0', '0', '0', '0', '0', '0'],
{
    let zeros = seq!['0', '0', '0', '0', '0', '0'];
    if meets_difficulty(hash) {
        assert(hash.take(6) =~= zeros);
    }
    if hash.take(6) == zeros {
        assert forall|i: int| 0 <= i < 6 && i < hash.len() implies hash[i] == '0' by {
            assert(hash.take(6)[i] == zeros[i]);
        }
    }
}

/// A proof is valid exactly when the SHA-256 digest of the two proofs' digits starts
/// with six zeros (for a digest of at least six characters, as every SHA-256 digest is).
pub proof fn lemma_proof_accepted_six_zeros(previous_proof: usize, proof: usize)
    requires
        sha256_hex(proof_text(previous_proof, proof)).len() >= 6,
    ensures
        proof_accepted(previous_proof, proof) <==> sha256_hex(proof_text(previous_proof, proof)).take(6)
            == seq!['0', '0', '0', '0', '0', '0'],
{
    lemma_six_leading_zeros(sha256_hex(proof_text(previous_proof, proof)));
}

/// The transactions' JSON texts, split anywhere, are the two parts' texts joined by a
/// comma: each pair of neighbouring transactions is separated by exactly one `,`.
pub proof fn lemma_transactions_json_split(a: Seq<Transaction>, b: Seq<Transaction>)
    requires
        a.len() > 0,
        b.len() > 0,
    ensures
        transactions_json(a + b) == transactions_json(a) + seq![','] + transactions_json(b),
    decreases b.len(),
{
    if b.len() == 1 {
        assert((a + b).drop_last() =~= a);
        assert((a + b).last() == b[0]);
    } else {
        let b2 = b.drop_last();
        lemma_transactions_json_split(a, b2);
        assert((a + b).drop_last() =~= a + b2);
        assert((a + b).last() == b.last());
        assert(transactions_json(a + b) =~= transactions_json(a) + seq![','] + transactions_json(b));
    }
}

} // verus!

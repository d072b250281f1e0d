//! Items: pieces of content that the nodes store and hand out by identifier.

use vstd::prelude::*;

use crate::outside::{is_lower_hex, is_plain_uuid, is_variant_digit, new_id, plain_uuid};
use crate::text::{
    hex_char, hex_digit, json_string, push_char, push_json_string, push_seconds, seconds_text, same_text,
};

verus! {

/// A piece of content with the identifier and the time (milliseconds since
/// 1970-01-01 UTC) that the node gave it.
pub struct Item {
    pub id: String,
    pub timestamp: u64,
    pub content: String,
}

impl Clone for Item {
    fn clone(&self) -> (copy: Self)
        ensures
            copy == *self,
    {
        Item { id: self.id.clone(), timestamp: self.timestamp, content: self.content.clone() }
    }
}

/// The first item of `items` whose identifier is `id`.
pub open spec fn find_item(items: Seq<Item>, id: Seq<char>) -> Option<Item>
    decreases items.len(),
{
    if items.len() == 0 {
        None
    } else if items[0].id@ == id {
        Some(items[0])
    } else {
        find_item(items.drop_first(), id)
    }
}

/// The JSON object of an item; its timestamp is written in seconds.
pub open spec fn item_json(item: Item) -> Seq<char> {
    "{\"id\":"@ + json_string(item.id@) + ",\"timestamp\":"@ + seconds_text(item.timestamp as nat)
        + ",\"content\":"@ + json_string(item.content@) + seq!['}']
}

/// The JSON text of an item that may be missing: the item, or `null`.
pub open spec fn found_json(found: Option<Item>) -> Seq<char> {
    match found {
        Some(item) => item_json(item),
        None => "null"@,
    }
}

/// The JSON text of an item.
pub fn item_to_json(item: &Item) -> (json: String)
    ensures
        json@ == item_json(*item),
{
    let mut out = String::new();
    out.append("{\"id\":");
    push_json_string(&mut out, item.id.as_str());
    out.append(",\"timestamp\":");
    push_seconds(&mut out, item.timestamp);
    out.append(",\"content\":");
    push_json_string(&mut out, item.content.as_str());
    push_char(&mut out, '}');
    assert(out@ =~= item_json(*item));
    out
}

/// The JSON text of an item that may be missing.
pub fn found_to_json(found: &Option<Item>) -> (json: String)
    ensures
        json@ == found_json(*found),
{
    match found {
        Some(item) => item_to_json(item),
        None => "null".to_owned(),
    }
}

/// A new item that holds `content`, made at `now` (milliseconds since 1970-01-01 UTC),
/// under an identifier that no item of `stored` has: the version-4 UUID made from
/// `random`, without hyphens, or, when that one is taken, the first fallback identifier
/// that is free. (`stored` cannot hold `16^15` items: that many items do not fit in
/// memory.)
pub fn new_item(stored: &Vec<Item>, content: String, now: u64, random: [u8; 16]) -> (item: Item)
    requires
        stored@.len() < 0x1000_0000_0000_0000,
    ensures
        item.content == content,
        item.timestamp == now,
        is_plain_uuid(item.id@),
        find_item(stored@, item.id@) is None,
        item.id@ == fresh_id_for(stored@, random@),
{
    Item { id: fresh_id(stored, random), timestamp: now, content }
}

/// Whether the fallback identifier `k` after `drawn` is taken by an item of `stored`.
pub open spec fn fallback_taken(stored: Seq<Item>, drawn: Seq<char>, k: nat) -> bool {
    find_item(stored, fallback_id(drawn, k)) is Some
}

/// The identifier given under `stored` for `random`: the UUID digits made from `random`
/// when no item has them; otherwise the first fallback identifier that is free.
pub open spec fn fresh_id_for(stored: Seq<Item>, random: Seq<u8>) -> Seq<char> {
    let drawn = plain_uuid(random);
    if find_item(stored, drawn) is None {
        drawn
    } else {
        fallback_id(drawn, choose|k: nat| !fallback_taken(stored, drawn, k) && forall|j: nat| j < k ==> #[trigger] fallback_taken(stored, drawn, j))
    }
}

/// The fallback identifier `k` after `drawn`.
fn fallback(drawn: &String, k: u64) -> (id: String)
    requires
        drawn@.len() >= 17,
    ensures
        id@ == fallback_id(drawn@, k as nat),
{
    let mut id = String::new();
    let mut i: usize = 0;
    while i < 17
        invariant
            drawn@.len() >= 17,
            i <= 17,
            id@ == drawn@.take(i as int),
        decreases 17 - i,
    {
        push_char(&mut id, drawn.as_str().get_char(i));
        assert(id@ =~= drawn@.take(i as int + 1));
        i = i + 1;
    }
    push_hex_digits(&mut id, k, 15);
    id
}

/// An identifier that no item of `stored` has, shaped as the nodes write identifiers:
/// the UUID digits made from `random`, or the first free fallback after them.
pub fn fresh_id(stored: &Vec<Item>, random: [u8; 16]) -> (id: String)
    requires
        stored@.len() < 0x1000_0000_0000_0000,
    ensures
        is_plain_uuid(id@),
        find_item(stored@, id@) is None,
        id@ == fresh_id_for(stored@, random@),
{
    let drawn = new_id(random);
    if lookup_item(stored, drawn.as_str()).is_none() {
        return drawn;
    }
    assert(pow16(15) == 0x1000_0000_0000_0000) by {
        reveal_with_fuel(pow16, 16);
    }
    let ghost n = stored@.len();
    let mut k: u64 = 0;
    loop
        invariant
            n == stored@.len(),
            n < pow16(15),
            pow16(15) == 0x1000_0000_0000_0000,
            is_plain_uuid(drawn@),
            drawn@ == plain_uuid(random@),
            find_item(stored@, drawn@) is Some,
            k <= n,
            forall|j: nat| j < k ==> ids(stored@).contains(#[trigger] fallback_id(drawn@, j)),
            forall|j: nat| j < k ==> #[trigger] fallback_taken(stored@, drawn@, j),
        decreases n - k,
    {
        let candidate = fallback(&drawn, k);
        if lookup_item(stored, candidate.as_str()).is_none() {
            proof {
                lemma_hex_digits_shape(k as nat, 15);
                let c = candidate@;
                assert(c.len() == 32);
                assert forall|i: int| 0 <= i < 32 implies #[trigger] is_lower_hex(c[i]) by {
                    if i < 17 {
                        assert(c[i] == drawn@[i]);
                    } else {
                        assert(c[i] == hex_digits(k as nat, 15)[i - 17]);
                    }
                }
                assert(c[12] == drawn@[12]);
                assert(c[16] == drawn@[16]);
                assert(!fallback_taken(stored@, drawn@, k as nat));
                let chosen = choose|m: nat| !fallback_taken(stored@, drawn@, m) && forall|j: nat| j < m ==> #[trigger] fallback_taken(stored@, drawn@, j);
                assert(chosen == k as nat) by {
                    if chosen < k {
                        assert(fallback_taken(stored@, drawn@, chosen));
                    } else if chosen > k {
                        assert(fallback_taken(stored@, drawn@, k as nat));
                    }
                }
            }
            return candidate;
        }
        proof {
            lemma_find_item_none(stored@, candidate@);
            let i = choose|i: int| 0 <= i < stored@.len() && #[trigger] stored@[i].id@ == candidate@;
            assert(ids(stored@)[i] == candidate@);
            assert forall|j: nat| j < k + 1 implies ids(stored@).contains(#[trigger] fallback_id(drawn@, j)) by {
                if j == k {
                    assert(ids(stored@)[i] == fallback_id(drawn@, j));
                }
            }
            lemma_fallbacks_not_all_taken(stored@, drawn@, (k + 1) as nat);
            assert(fallback_taken(stored@, drawn@, k as nat));
        }
        k = k + 1;
    }
}

/// Looks an item up by identifier: the first one stored under `id`.
pub fn lookup_item(items: &Vec<Item>, id: &str) -> (found: Option<Item>)
    ensures
        found == find_item(items@, id@),
{
    let n = items.len();
    let mut i: usize = 0;
    assert(items@.skip(0) =~= items@);
    while i < n
        invariant
            n == items@.len(),
            i <= n,
            find_item(items@, id@) == find_item(items@.skip(i as int), id@),
        decreases n - i,
    {
        proof {
            let rest = items@.skip(i as int);
            assert(rest[0] == items@[i as int]);
            assert(rest.drop_first() =~= items@.skip(i as int + 1));
        }
        if same_text(items[i].id.as_str(), id) {
            return Some(items[i].clone());
        }
        i = i + 1;
    }
    assert(items@.skip(n as int) =~= Seq::<Item>::empty());
    None
}

/// Adding an item does not change what the items before it are found by.
pub proof fn lemma_find_after_push(items: Seq<Item>, item: Item, id: Seq<char>)
    requires
        find_item(items, id) is Some,
    ensures
        find_item(items.push(item), id) == find_item(items, id),
    decreases items.len(),
{
    if items[0].id@ != id {
        assert(items.push(item).drop_first() =~= items.drop_first().push(item));
        lemma_find_after_push(items.drop_first(), item, id);
    }
}

/// An item added under an identifier that no earlier item has is found by it.
pub proof fn lemma_find_new(items: Seq<Item>, item: Item)
    requires
        find_item(items, item.id@) is None,
    ensures
        find_item(items.push(item), item.id@) == Some(item),
    decreases items.len(),
{
    if items.len() > 0 {
        assert(items.push(item).drop_first() =~= items.drop_first().push(item));
        lemma_find_new(items.drop_first(), item);
    }
}

/// Sixteen to the power `w`.
pub open spec fn pow16(w: nat) -> nat
    decreases w,
{
    if w == 0 {
        1
    } else {
        16 * pow16((w - 1) as nat)
    }
}

/// `k` written as `w` lowercase hexadecimal digits, most significant first.
pub open spec fn hex_digits(k: nat, w: nat) -> Seq<char>
    decreases w,
{
    if w == 0 {
        seq![]
    } else {
        hex_digits(k / 16, (w - 1) as nat).push(hex_char(k % 16))
    }
}

/// Hexadecimal digits are lowercase hexadecimal characters, `w` of them.
pub proof fn lemma_hex_digits_shape(k: nat, w: nat)
    ensures
        hex_digits(k, w).len() == w,
        forall|i: int| 0 <= i < w ==> #[trigger] is_lower_hex(hex_digits(k, w)[i]),
    decreases w,
{
    if w > 0 {
        lemma_hex_digits_shape(k / 16, (w - 1) as nat);
        let d = k % 16;
        assert(is_lower_hex(hex_char(d)));
        let prev = hex_digits(k / 16, (w - 1) as nat);
        assert forall|i: int| 0 <= i < w implies #[trigger] is_lower_hex(hex_digits(k, w)[i]) by {
            if i < w - 1 {
                assert(hex_digits(k, w)[i] == prev[i]);
            }
        }
    }
}

/// Numbers below `16^w` have different `w`-digit texts.
pub proof fn lemma_hex_digits_injective(a: nat, b: nat, w: nat)
    requires
        a < pow16(w),
        b < pow16(w),
        hex_digits(a, w) == hex_digits(b, w),
    ensures
        a == b,
    decreases w,
{
    if w > 0 {
        let sa = hex_digits(a, w);
        let sb = hex_digits(b, w);
        assert(sa.last() == hex_char(a % 16));
        assert(sb.last() == hex_char(b % 16));
        assert((hex_char(a % 16) as int) == (if a % 16 < 10 { 48 + a % 16 } else { 87 + a % 16 }));
        assert((hex_char(b % 16) as int) == (if b % 16 < 10 { 48 + b % 16 } else { 87 + b % 16 }));
        assert(a % 16 == b % 16);
        assert(sa.drop_last() == hex_digits(a / 16, (w - 1) as nat));
        assert(sb.drop_last() == hex_digits(b / 16, (w - 1) as nat));
        lemma_hex_digits_injective(a / 16, b / 16, (w - 1) as nat);
    } else {
        assert(a == 0 && b == 0);
    }
}

/// Appends `k` as `w` lowercase hexadecimal digits.
fn push_hex_digits(out: &mut String, k: u64, w: u64)
    ensures
        final(out)@ == old(out)@ + hex_digits(k as nat, w as nat),
    decreases w,
{
    if w > 0 {
        push_hex_digits(out, k / 16, w - 1);
        let d: u32 = (k % 16) as u32;
        push_char(out, hex_digit(d));
    }
    assert(final(out)@ =~= old(out)@ + hex_digits(k as nat, w as nat));
}

/// No item is found by `id` exactly when no stored item has that identifier.
pub proof fn lemma_find_item_none(items: Seq<Item>, id: Seq<char>)
    ensures
        find_item(items, id) is None <==> forall|i: int| 0 <= i < items.len() ==> #[trigger] items[i].id@ != id,
    decreases items.len(),
{
    if items.len() > 0 {
        lemma_find_item_none(items.drop_first(), id);
        if find_item(items, id) is None {
            assert forall|i: int| 0 <= i < items.len() implies #[trigger] items[i].id@ != id by {
                if i > 0 {
                    assert(items[i] == items.drop_first()[i - 1]);
                }
            }
        } else if items[0].id@ != id {
            let k = choose|k: int| 0 <= k < items.drop_first().len() && #[trigger] items.drop_first()[k].id@ == id;
            assert(items[k + 1] == items.drop_first()[k]);
        }
    }
}

/// The identifier tried after a drawn one that is taken: the drawn identifier's first
/// 17 characters (its version and variant digits among them), then `k` in 15
/// hexadecimal digits.
pub open spec fn fallback_id(drawn: Seq<char>, k: nat) -> Seq<char> {
    drawn.take(17) + hex_digits(k, 15)
}

/// The identifiers of a list of items.
pub open spec fn ids(items: Seq<Item>) -> Seq<Seq<char>> {
    items.map_values(|it: Item| it.id@)
}

/// More distinct fallback identifiers than items cannot all be taken.
proof fn lemma_fallbacks_not_all_taken(items: Seq<Item>, drawn: Seq<char>, k: nat)
    requires
        drawn.len() >= 17,
        k <= pow16(15),
        forall|j: nat| j < k ==> ids(items).contains(#[trigger] fallback_id(drawn, j)),
    ensures
        k <= items.len(),
{
    let tried = Seq::new(k, |j: int| fallback_id(drawn, j as nat));
    assert(tried.no_duplicates()) by {
        assert forall|a: int, b: int| 0 <= a < tried.len() && 0 <= b < tried.len() && a != b implies tried[a]
            != tried[b] by {
            if tried[a] == tried[b] {
                let fa = fallback_id(drawn, a as nat);
                let fb = fallback_id(drawn, b as nat);
                assert(fa.subrange(17, 32) =~= hex_digits(a as nat, 15)) by {
                    lemma_hex_digits_shape(a as nat, 15);
                }
                assert(fb.subrange(17, 32) =~= hex_digits(b as nat, 15)) by {
                    lemma_hex_digits_shape(b as nat, 15);
                }
                lemma_hex_digits_injective(a as nat, b as nat, 15);
            }
        }
    }
    tried.unique_seq_to_set();
    ids(items).lemma_cardinality_of_set();
    assert(tried.to_set().subset_of(ids(items).to_set())) by {
        assert forall|x: Seq<char>| tried.to_set().contains(x) implies ids(items).to_set().contains(x) by {
            let j = choose|j: int| 0 <= j < tried.len() && tried[j] == x;
            assert(ids(items).contains(fallback_id(drawn, j as nat)));
        }
    }
    vstd::set_lib::lemma_len_subset(tried.to_set(), ids(items).to_set());
}

/// Two items with the same identifier, time and content.
pub open spec fn same_item(a: Item, b: Item) -> bool {
    a.id@ == b.id@ && a.timestamp == b.timestamp && a.content@ == b.content@
}

/// How many items of `s` are the same as `x`.
pub open spec fn tally(s: Seq<Item>, x: Item) -> nat
    decreases s.len(),
{
    if s.len() == 0 {
        0
    } else {
        tally(s.drop_last(), x) + if same_item(s.last(), x) {
            1nat
        } else {
            0nat
        }
    }
}

/// `s[i]` occurs at least as often in `s` as any item of `s`, and more often than each
/// item before it.
pub open spec fn is_most_frequent(s: Seq<Item>, i: int) -> bool {
    &&& 0 <= i < s.len()
    &&& forall|j: int| 0 <= j < s.len() ==> tally(s, #[trigger] s[j]) <= tally(s, s[i])
    &&& forall|j: int| 0 <= j < i ==> tally(s, #[trigger] s[j]) < tally(s, s[i])
}

/// The most frequent item of `s`, the first of them on a tie; none when `s` is empty.
pub open spec fn most_frequent(s: Seq<Item>) -> Option<Item> {
    if exists|i: int| is_most_frequent(s, i) {
        Some(s[choose|i: int| is_most_frequent(s, i)])
    } else {
        None
    }
}

/// Only one position holds the first most frequent item.
pub proof fn lemma_most_frequent_unique(s: Seq<Item>, i: int, k: int)
    requires
        is_most_frequent(s, i),
        is_most_frequent(s, k),
    ensures
        i == k,
{
    if i < k {
        assert(tally(s, s[i]) < tally(s, s[k]));
        assert(tally(s, s[i]) <= tally(s, s[k]));
        assert(tally(s, s[k]) <= tally(s, s[i]));
    } else if k < i {
        assert(tally(s, s[k]) < tally(s, s[i]));
        assert(tally(s, s[i]) <= tally(s, s[k]));
    }
}

/// Whether two items have the same identifier, time and content.
pub fn is_same_item(a: &Item, b: &Item) -> (same: bool)
    ensures
        same == same_item(*a, *b),
{
    a.timestamp == b.timestamp && same_text(a.id.as_str(), b.id.as_str()) && same_text(
        a.content.as_str(),
        b.content.as_str(),
    )
}

/// How many items of `s` are the same as `x`.
pub fn count_same(s: &Vec<Item>, x: &Item) -> (n: usize)
    ensures
        n == tally(s@, *x),
{
    let len = s.len();
    let mut n: usize = 0;
    let mut i: usize = 0;
    while i < len
        invariant
            len == s@.len(),
            i <= len,
            n == tally(s@.take(i as int), *x),
            n <= i,
        decreases len - i,
    {
        proof {
            let t = s@.take(i as int + 1);
            assert(t.drop_last() =~= s@.take(i as int));
            assert(t.last() == s@[i as int]);
        }
        if is_same_item(&s[i], x) {
            n = n + 1;
        }
        i = i + 1;
    }
    assert(s@.take(len as int) =~= s@);
    n
}

/// The most frequent item of `s`, the first of them on a tie; none when `s` is empty.
pub fn pick_most_frequent(s: &Vec<Item>) -> (picked: Option<Item>)
    ensures
        picked == most_frequent(s@),
{
    let len = s.len();
    if len == 0 {
        return None;
    }
    let mut best: usize = 0;
    let mut best_count = count_same(s, &s[0]);
    let mut i: usize = 1;
    while i < len
        invariant
            len == s@.len(),
            1 <= i <= len,
            best < i,
            best_count == tally(s@, s@[best as int]),
            forall|j: int| 0 <= j < i ==> tally(s@, #[trigger] s@[j]) <= best_count,
            forall|j: int| 0 <= j < best ==> tally(s@, #[trigger] s@[j]) < best_count,
        decreases len - i,
    {
        let c = count_same(s, &s[i]);
        if c > best_count {
            best = i;
            best_count = c;
        }
        i = i + 1;
    }
    proof {
        assert(is_most_frequent(s@, best as int));
        let k = choose|k: int| is_most_frequent(s@, k);
        lemma_most_frequent_unique(s@, best as int, k);
    }
    Some(s[best].clone())
}

/// How many items of `s` have the identifier, the time and the content of `x`.
pub open spec fn copies(s: Seq<Item>, x: Item) -> nat
    decreases s.len(),
{
    if s.len() == 0 {
        0
    } else {
        copies(s.drop_last(), x) + if s.last().id@ == x.id@ && s.last().timestamp == x.timestamp
            && s.last().content@ == x.content@ {
            1nat
        } else {
            0nat
        }
    }
}

/// Items that are the same as one another are counted alike.
proof fn lemma_tally_copies(s: Seq<Item>, x: Item)
    ensures
        tally(s, x) == copies(s, x),
    decreases s.len(),
{
    if s.len() > 0 {
        lemma_tally_copies(s.drop_last(), x);
    }
}

/// Items that are the same are counted the same number of times.
proof fn lemma_tally_same(s: Seq<Item>, a: Item, b: Item)
    requires
        same_item(a, b),
    ensures
        tally(s, a) == tally(s, b),
    decreases s.len(),
{
    if s.len() > 0 {
        lemma_tally_same(s.drop_last(), a, b);
    }
}

/// Two different items are counted in separate places.
proof fn lemma_tally_disjoint(s: Seq<Item>, a: Item, b: Item)
    requires
        !same_item(a, b),
    ensures
        tally(s, a) + tally(s, b) <= s.len(),
    decreases s.len(),
{
    if s.len() > 0 {
        lemma_tally_disjoint(s.drop_last(), a, b);
    }
}

/// An item counted at least once stands somewhere in `s`.
proof fn lemma_tally_witness(s: Seq<Item>, x: Item) -> (j: int)
    requires
        tally(s, x) > 0,
    ensures
        0 <= j < s.len(),
        same_item(s[j], x),
    decreases s.len(),
{
    if same_item(s.last(), x) {
        s.len() - 1
    } else {
        let j = lemma_tally_witness(s.drop_last(), x);
        assert(s.drop_last()[j] == s[j]);
        j
    }
}

/// Among the first `k` items, the first that occurs most often in `s`.
proof fn lemma_best_prefix(s: Seq<Item>, k: int) -> (best: int)
    requires
        0 < k <= s.len(),
    ensures
        0 <= best < k,
        forall|j: int| 0 <= j < k ==> tally(s, #[trigger] s[j]) <= tally(s, s[best]),
        forall|j: int| 0 <= j < best ==> tally(s, #[trigger] s[j]) < tally(s, s[best]),
    decreases k,
{
    if k == 1 {
        0
    } else {
        let b = lemma_best_prefix(s, k - 1);
        if tally(s, s[k - 1]) > tally(s, s[b]) {
            k - 1
        } else {
            b
        }
    }
}

/// An item that more than half of `s` are copies of is the most frequent one: it is
/// what a vote over `s` answers.
pub proof fn lemma_majority_is_most_frequent(s: Seq<Item>, x: Item)
    requires
        2 * copies(s, x) > s.len(),
    ensures
        most_frequent(s) matches Some(r) && r.id@ == x.id@ && r.timestamp == x.timestamp
            && r.content@ == x.content@,
{
    lemma_tally_copies(s, x);
    let best = lemma_best_prefix(s, s.len() as int);
    assert(is_most_frequent(s, best));
    let i = choose|i: int| is_most_frequent(s, i);
    lemma_most_frequent_unique(s, best, i);
    let r = s[i];
    let j = lemma_tally_witness(s, x);
    lemma_tally_same(s, s[j], x);
    assert(tally(s, s[j]) <= tally(s, r));
    if !same_item(r, x) {
        lemma_tally_disjoint(s, r, x);
    }
}

} // verus!

//! Who may validate, and who does: the stakes that the staking transactions
//! leave, and the election of a validator among them by a ticket.

use crate::block::Block;
use crate::block::BlockView;
use crate::block::txs_view;
use crate::blockchain::invalid_amount;
use crate::codec::bytes_less;
use crate::codec::is_text;
use crate::codec::lex_less;
use crate::codec::lex_less_total;
use crate::codec::lex_less_transitive;
use crate::codec::push_bytes;
use crate::codec::texts_view;
use crate::codec::utf8;
use crate::crypto::merkle_root;
use crate::crypto::merkle_tree_root;
use crate::crypto::sha256;
use crate::crypto::sha256_digest;
use crate::error::Failure;
use crate::error::unexpected_record;
use crate::numeric::decimal_to_integer;
use crate::numeric::decimal_whole_part;
use crate::numeric::integer_add;
use crate::numeric::integer_less;
use crate::numeric::integer_of;
use crate::numeric::integer_rem;
use crate::numeric::integer_subtract;
use crate::numeric::integer_zero;
use crate::numeric::is_amount;
use crate::numeric::is_amount_text;
use crate::numeric::is_integer;
use crate::numeric::parsed_integer;
use crate::numeric::prints;
use crate::stake::Stake;
use crate::stake::StakeView;
use crate::stake::is_stake;
use crate::storage::tx_storage::Store;
use crate::storage::tx_storage::moved;
use crate::storage::tx_storage::ordered;
use crate::storage::tx_storage::txs_under;
use crate::system::STAKE_WALLET;
use crate::system::UNSTAKE_WALLET;
use crate::tx::Tx;
use crate::tx::TxView;
use vstd::prelude::*;

verus! {

/// The position at which a text belongs in a list in dictionary order: that
/// of the first member, from `i` on, that does not come before it.
pub open spec fn text_place(sorted: Seq<Seq<char>>, text: Seq<char>, i: int) -> int
    decreases sorted.len() - i,
{
    if i < 0 || i >= sorted.len() || !lex_less(utf8(sorted[i]), utf8(text)) {
        i
    } else {
        text_place(sorted, text, i + 1)
    }
}

/// A list in dictionary order with one more text in its place; a text that
/// stands at its place already is not added again.
pub open spec fn text_insert(sorted: Seq<Seq<char>>, text: Seq<char>) -> Seq<Seq<char>> {
    let place = text_place(sorted, text, 0);
    if place < sorted.len() && sorted[place] == text {
        sorted
    } else {
        sorted.insert(place, text)
    }
}

/// The senders of the transactions to a recipient, added in dictionary order
/// to those already known.
pub open spec fn senders(txs: Seq<TxView>, to: Seq<char>, known: Seq<Seq<char>>) -> Seq<Seq<char>>
    decreases txs.len(),
{
    if txs.len() == 0 {
        known
    } else if txs.last().to == to {
        text_insert(senders(txs.drop_last(), to, known), txs.last().from)
    } else {
        senders(txs.drop_last(), to, known)
    }
}

/// The wallets that ever staked or took out of the stake, in dictionary
/// order, each once.
pub open spec fn stakers(stakes: Seq<TxView>, unstakes: Seq<TxView>) -> Seq<Seq<char>> {
    senders(unstakes, UNSTAKE_WALLET@, senders(stakes, STAKE_WALLET@, Seq::empty()))
}

/// A running stake after the whole parts of the amounts that a wallet sent
/// to a recipient were added to it, or taken from it. There is none where
/// one of those amounts is not a plain numeral.
pub open spec fn tally(
    txs: Seq<TxView>,
    to: Seq<char>,
    wallet: Seq<char>,
    start: int,
    adds: bool,
) -> Option<int>
    decreases txs.len(),
{
    if txs.len() == 0 {
        Some(start)
    } else {
        match tally(txs.drop_last(), to, wallet, start, adds) {
            None => None,
            Some(stake) => if txs.last().to == to && txs.last().from == wallet {
                if !is_amount(txs.last().amount) {
                    None
                } else if adds {
                    Some(stake + decimal_whole_part(txs.last().amount))
                } else {
                    Some(stake - decimal_whole_part(txs.last().amount))
                }
            } else {
                Some(stake)
            },
        }
    }
}

/// A wallet's net stake: what it sent to `STAKE` less what it sent to
/// `UNSTAKE`.
pub open spec fn net_stake(stakes: Seq<TxView>, unstakes: Seq<TxView>, wallet: Seq<char>) -> Option<
    int,
> {
    match tally(stakes, STAKE_WALLET@, wallet, 0, true) {
        Some(staked) => tally(unstakes, UNSTAKE_WALLET@, wallet, staked, false),
        None => None,
    }
}

/// The stakes of a list of wallets, in the list's order; a wallet whose net
/// stake is below the minimum has none.
pub open spec fn stake_list(wallets: Seq<Seq<char>>, stakes: Seq<TxView>, unstakes: Seq<TxView>) -> Option<
    Seq<StakeView>,
>
    decreases wallets.len(),
{
    if wallets.len() == 0 {
        Some(Seq::empty())
    } else {
        match stake_list(wallets.drop_last(), stakes, unstakes) {
            None => None,
            Some(front) => match net_stake(stakes, unstakes, wallets.last()) {
                None => None,
                Some(stake) => if is_stake(stake) {
                    Some(front.push(StakeView { wallet: wallets.last(), stake }))
                } else {
                    Some(front)
                },
            },
        }
    }
}

/// The active validator set: the stakes of all wallets whose net stake is at
/// least the minimum, in dictionary order of the wallets.
pub open spec fn stakes_of(txs: Store) -> Result<Seq<StakeView>, Failure> {
    match (txs_under(txs, STAKE_WALLET@), txs_under(txs, UNSTAKE_WALLET@)) {
        (Some(stakes), Some(unstakes)) => match stake_list(
            stakers(ordered(stakes), ordered(unstakes)),
            ordered(stakes),
            ordered(unstakes),
        ) {
            Some(list) => Ok(list),
            None => Err(invalid_amount()),
        },
        _ => Err(unexpected_record()),
    }
}

/// A list of stakes as plain values.
pub open spec fn stakes_view(stakes: Seq<Stake>) -> Seq<StakeView> {
    Seq::new(stakes.len(), |i: int| stakes[i]@)
}

/// The sum of a list of stakes.
pub open spec fn total_of(stakes: Seq<StakeView>) -> int
    decreases stakes.len(),
{
    if stakes.len() == 0 {
        0
    } else {
        total_of(stakes.drop_last()) + stakes.last().stake
    }
}

/// The sum of the first `n` of a list of stakes.
pub open spec fn staked_before(stakes: Seq<StakeView>, n: int) -> int {
    total_of(stakes.subrange(0, n))
}

/// The wallet whose share of the total holds the index: walking the stakes
/// from `i` on with the sum of those before, the first whose stake lifts the
/// running sum above the index. The empty text where there is none.
pub open spec fn winner_from(stakes: Seq<StakeView>, index: int, i: int, running: int) -> Seq<char>
    decreases stakes.len() - i,
{
    if i < 0 || i >= stakes.len() {
        Seq::empty()
    } else if index < stakes[i].stake + running {
        stakes[i].wallet
    } else {
        winner_from(stakes, index, i + 1, stakes[i].stake + running)
    }
}

/// The validator that a ticket elects: the ticket is reduced modulo the
/// total stake, and the wallet whose share holds the remainder wins. The
/// empty text where the total is not above zero.
pub open spec fn elected(stakes: Seq<StakeView>, total: int, ticket: u64) -> Seq<char> {
    if total > 0 {
        winner_from(stakes, ticket as int % total, 0, 0)
    } else {
        Seq::empty()
    }
}

/// The leaves of the election's Merkle tree: the digests of the stakes.
pub open spec fn stake_digests(stakes: Seq<StakeView>) -> Seq<Seq<u8>> {
    Seq::new(stakes.len(), |i: int| stakes[i].digest())
}

/// The seed of an election: the SHA-256 digest of the latest block's digest
/// followed by the Merkle root over the stakes. There is none without
/// stakes.
pub open spec fn election_seed(latest: BlockView, stakes: Seq<StakeView>) -> Option<Seq<u8>> {
    match merkle_tree_root(stake_digests(stakes)) {
        Some(root) => Some(sha256_digest(latest.digest() + root)@),
        None => None,
    }
}

/// Whether a list of texts is in dictionary order, each text once.
pub open spec fn ascending(texts: Seq<Seq<char>>) -> bool {
    forall|i: int, j: int|
        0 <= i < j < texts.len() ==> lex_less(utf8(#[trigger] texts[i]), utf8(#[trigger] texts[j]))
}

/// The wallets of a list of stakes.
pub open spec fn stake_wallets(stakes: Seq<StakeView>) -> Seq<Seq<char>> {
    Seq::new(stakes.len(), |i: int| stakes[i].wallet)
}

/// Whether a wallet sent one of the transactions to a recipient.
pub open spec fn sent_to(txs: Seq<TxView>, to: Seq<char>, wallet: Seq<char>) -> bool {
    exists|i: int| 0 <= i < txs.len() && (#[trigger] txs[i]).to == to && txs[i].from == wallet
}

/// Puts a text in its place in a list in dictionary order, unless it stands
/// there already.
fn insert_text(sorted: &mut Vec<String>, text: String)
    ensures
        texts_view(final(sorted)@) == text_insert(texts_view(old(sorted)@), text@),
{
    let mut i: usize = 0;
    while i < sorted.len() && bytes_less(sorted[i].as_str().as_bytes(), text.as_str().as_bytes())
        invariant
            i <= sorted.len(),
            text_place(texts_view(sorted@), text@, 0) == text_place(
                texts_view(sorted@),
                text@,
                i as int,
            ),
        decreases sorted.len() - i,
    {
        i = i + 1;
    }
    if i < sorted.len() && sorted[i] == text {
        return ;
    }
    sorted.insert(i, text);
    assert(texts_view(sorted@) =~= texts_view(old(sorted)@).insert(i as int, text@));
}

/// Adds the senders of the transactions to a recipient to a list in
/// dictionary order.
pub(crate) fn collect_senders(txs: &Vec<Tx>, to: &str, known: Vec<String>) -> (wallets: Vec<String>)
    ensures
        texts_view(wallets@) == senders(txs_view(txs@), to@, texts_view(known@)),
{
    let mut wallets = known;
    let mut i: usize = 0;
    assert(txs_view(txs@).subrange(0, 0) =~= Seq::<TxView>::empty());
    while i < txs.len()
        invariant
            i <= txs.len(),
            texts_view(wallets@) == senders(
                txs_view(txs@).subrange(0, i as int),
                to@,
                texts_view(known@),
            ),
        decreases txs.len() - i,
    {
        let ghost before = txs_view(txs@).subrange(0, i as int);
        let ghost after = txs_view(txs@).subrange(0, i + 1);
        assert(after.drop_last() =~= before);
        assert(after.last() == txs[i as int]@);
        if is_text(&txs[i].to, to) {
            insert_text(&mut wallets, txs[i].from.clone());
        }
        i = i + 1;
    }
    assert(txs_view(txs@).subrange(0, i as int) =~= txs_view(txs@));
    wallets
}

/// Adds to a running stake, or takes from it, the whole parts of the amounts
/// that a wallet sent to a recipient.
pub(crate) fn tally_stake(txs: &Vec<Tx>, to: &str, wallet: &String, start: String, adds: bool) -> (result:
    Option<String>)
    requires
        prints(start@, integer_of(start@)),
    ensures
        match tally(txs_view(txs@), to@, wallet@, integer_of(start@), adds) {
            Some(stake) => result.is_some() && prints(result.unwrap()@, stake),
            None => result.is_none(),
        },
{
    let ghost first = integer_of(start@);
    let mut stake = start;
    let mut i: usize = 0;
    assert(txs_view(txs@).subrange(0, 0) =~= Seq::<TxView>::empty());
    while i < txs.len()
        invariant
            i <= txs.len(),
            first == integer_of(start@),
            prints(stake@, integer_of(stake@)),
            tally(txs_view(txs@).subrange(0, i as int), to@, wallet@, first, adds) == Some(
                integer_of(stake@),
            ),
        decreases txs.len() - i,
    {
        let ghost before = txs_view(txs@).subrange(0, i as int);
        let ghost after = txs_view(txs@).subrange(0, i + 1);
        assert(after.drop_last() =~= before);
        assert(after.last() == txs[i as int]@);
        let tx = &txs[i];
        if is_text(&tx.to, to) && tx.from == *wallet {
            let next = if is_amount_text(tx.amount.as_str()) {
                let amount = decimal_to_integer(tx.amount.as_str());
                if adds {
                    integer_add(stake.as_str(), amount.as_str())
                } else {
                    integer_subtract(stake.as_str(), amount.as_str())
                }
            } else {
                None
            };
            match next {
                Some(next) => {
                    stake = next;
                },
                None => {
                    proof {
                        tally_fails_on(txs_view(txs@), to@, wallet@, first, adds, i + 1);
                    }
                    return None;
                },
            }
        }
        i = i + 1;
    }
    assert(txs_view(txs@).subrange(0, i as int) =~= txs_view(txs@));
    Some(stake)
}

/// The sum of a list of stakes, an integer numeral.
pub fn total_stake(stakes: &Vec<Stake>) -> (total: String)
    ensures
        prints(total@, total_of(stakes_view(stakes@))),
{
    let mut total = integer_zero();
    let mut i: usize = 0;
    assert(stakes_view(stakes@).subrange(0, 0) =~= Seq::<StakeView>::empty());
    while i < stakes.len()
        invariant
            i <= stakes.len(),
            prints(total@, total_of(stakes_view(stakes@).subrange(0, i as int))),
        decreases stakes.len() - i,
    {
        let ghost before = stakes_view(stakes@).subrange(0, i as int);
        let ghost after = stakes_view(stakes@).subrange(0, i + 1);
        assert(after.drop_last() =~= before);
        assert(after.last() == stakes[i as int]@);
        let stake = stakes[i].stake();
        match integer_add(total.as_str(), stake.as_str()) {
            Some(sum) => {
                total = sum;
            },
            None => {},
        }
        i = i + 1;
    }
    assert(stakes_view(stakes@).subrange(0, i as int) =~= stakes_view(stakes@));
    total
}

/// The validator that a ticket elects among the stakes, walked in their
/// order: the ticket is reduced modulo the total, and the first wallet whose
/// stake lifts the running sum above the remainder wins. The empty text
/// where the total is no integer above zero or no wallet wins.
pub fn elect(stakes: &Vec<Stake>, total: &String, ticket: u64) -> (validator: String)
    ensures
        validator@ == match parsed_integer(total@) {
            Some(total) => elected(stakes_view(stakes@), total, ticket),
            None => Seq::empty(),
        },
{
    if integer_less(integer_zero().as_str(), total.as_str()) != Some(true) {
        return String::new();
    }
    let index = integer_rem(ticket, total.as_str());
    let mut latest = integer_zero();
    let mut i: usize = 0;
    while i < stakes.len()
        invariant
            i <= stakes.len(),
            is_integer(latest@),
            is_integer(index@),
            is_integer(total@),
            elected(stakes_view(stakes@), integer_of(total@), ticket) == winner_from(
                stakes_view(stakes@),
                integer_of(index@),
                i as int,
                integer_of(latest@),
            ),
        decreases stakes.len() - i,
    {
        let stake = stakes[i].stake();
        let next = match integer_add(stake.as_str(), latest.as_str()) {
            Some(next) => next,
            None => { return String::new(); },
        };
        if integer_less(index.as_str(), next.as_str()) == Some(true) {
            return stakes[i].wallet();
        }
        latest = next;
        i = i + 1;
    }
    String::new()
}

/// The seed of an election over the stakes, on top of a latest block;
/// nothing without stakes.
pub fn seed_of(latest: &Block, stakes: &Vec<Stake>) -> (seed: Option<[u8; 32]>)
    ensures
        match election_seed(latest@, stakes_view(stakes@)) {
            Some(s) => seed.is_some() && seed.unwrap()@ == s,
            None => seed.is_none(),
        },
        seed.is_some() == (stakes.len() > 0),
{
    let mut leaves: Vec<[u8; 32]> = Vec::new();
    let mut i: usize = 0;
    while i < stakes.len()
        invariant
            i <= stakes.len(),
            leaves.len() == i,
            forall|j: int| 0 <= j < i ==> leaves@[j]@ == stakes@[j]@.digest(),
        decreases stakes.len() - i,
    {
        leaves.push(stakes[i].hash());
        i = i + 1;
    }
    assert(crate::crypto::leaves_view(leaves@) =~= stake_digests(stakes_view(stakes@)));
    match merkle_root(&leaves) {
        Some(root) => {
            let mut preimage: Vec<u8> = Vec::new();
            let digest = latest.hash();
            push_bytes(&mut preimage, &digest);
            push_bytes(&mut preimage, &root);
            assert(preimage@ =~= latest@.digest() + root@);
            Some(sha256(preimage.as_slice()))
        },
        None => None,
    }
}

/// A tally fails where it fails for a part of the transactions.
proof fn tally_fails_on(
    txs: Seq<TxView>,
    to: Seq<char>,
    wallet: Seq<char>,
    start: int,
    adds: bool,
    n: int,
)
    requires
        0 <= n <= txs.len(),
        tally(txs.subrange(0, n), to, wallet, start, adds).is_none(),
    ensures
        tally(txs, to, wallet, start, adds).is_none(),
    decreases txs.len() - n,
{
    if n < txs.len() {
        assert(txs.subrange(0, n + 1).drop_last() =~= txs.subrange(0, n));
        tally_fails_on(txs, to, wallet, start, adds, n + 1);
    } else {
        assert(txs.subrange(0, n) =~= txs);
    }
}

/// A list of stakes fails where it fails for a part of the wallets.
pub(crate) proof fn stake_list_fails_on(
    wallets: Seq<Seq<char>>,
    stakes: Seq<TxView>,
    unstakes: Seq<TxView>,
    n: int,
)
    requires
        0 <= n <= wallets.len(),
        stake_list(wallets.subrange(0, n), stakes, unstakes).is_none(),
    ensures
        stake_list(wallets, stakes, unstakes).is_none(),
    decreases wallets.len() - n,
{
    if n < wallets.len() {
        assert(wallets.subrange(0, n + 1).drop_last() =~= wallets.subrange(0, n));
        stake_list_fails_on(wallets, stakes, unstakes, n + 1);
    } else {
        assert(wallets.subrange(0, n) =~= wallets);
    }
}

/// The sum of the stakes up to one of them is the sum before it and its
/// stake; so the sums grow along a list of stakes above zero.
proof fn staked_before_grows(stakes: Seq<StakeView>, n: int)
    requires
        0 <= n < stakes.len(),
    ensures
        staked_before(stakes, n + 1) == staked_before(stakes, n) + stakes[n].stake,
        staked_before(stakes, 0) == 0,
        staked_before(stakes, stakes.len() as int) == total_of(stakes),
{
    assert(stakes.subrange(0, n + 1).drop_last() =~= stakes.subrange(0, n));
    assert(stakes.subrange(0, stakes.len() as int) =~= stakes);
}

/// The total of stakes of at least the minimum is above zero.
proof fn total_is_above_zero(stakes: Seq<StakeView>)
    requires
        stakes.len() > 0,
        forall|j: int| 0 <= j < stakes.len() ==> is_stake((#[trigger] stakes[j]).stake),
    ensures
        total_of(stakes) > 0,
    decreases stakes.len(),
{
    let front = stakes.drop_last();
    assert(is_stake(stakes[stakes.len() - 1].stake));
    if front.len() > 0 {
        assert forall|j: int| 0 <= j < front.len() implies is_stake((#[trigger] front[j]).stake) by {
            assert(front[j] == stakes[j]);
        }
        total_is_above_zero(front);
    }
}

/// Walking the stakes from a place that the index has not passed finds a
/// wallet: the one whose share holds the index.
proof fn winner_from_wins(stakes: Seq<StakeView>, index: int, i: int, running: int) -> (k: int)
    requires
        0 <= i < stakes.len(),
        forall|j: int| 0 <= j < stakes.len() ==> is_stake((#[trigger] stakes[j]).stake),
        running == staked_before(stakes, i),
        running <= index < total_of(stakes),
    ensures
        i <= k < stakes.len(),
        winner_from(stakes, index, i, running) == stakes[k].wallet,
        staked_before(stakes, k) <= index < staked_before(stakes, k + 1),
    decreases stakes.len() - i,
{
    staked_before_grows(stakes, i);
    if index < stakes[i].stake + running {
        i
    } else {
        if i + 1 == stakes.len() {
            assert(false);
        }
        winner_from_wins(stakes, index, i + 1, stakes[i].stake + running)
    }
}

/// An election over stakes always has a winner, and it is the wallet whose
/// share of the total holds the ticket's remainder: the sum of the stakes
/// before it is not above the remainder, and with its own stake it is. A
/// wallet's chance is therefore its stake's part of the total.
pub proof fn election_has_winner(stakes: Seq<StakeView>, ticket: u64) -> (k: int)
    requires
        stakes.len() > 0,
        forall|j: int| 0 <= j < stakes.len() ==> is_stake((#[trigger] stakes[j]).stake),
    ensures
        total_of(stakes) > 0,
        0 <= k < stakes.len(),
        elected(stakes, total_of(stakes), ticket) == stakes[k].wallet,
        staked_before(stakes, k) <= ticket as int % total_of(stakes) < staked_before(stakes, k + 1),
{
    let total = total_of(stakes);
    total_is_above_zero(stakes);
    let index = ticket as int % total;
    assert(0 <= index < total) by (nonlinear_arith)
        requires
            total > 0,
            ticket >= 0,
            index == ticket as int % total,
    ;
    staked_before_grows(stakes, 0);
    winner_from_wins(stakes, index, 0, 0)
}

/// The place of a text lies after every member that comes before the text,
/// and at a member that does not.
proof fn text_place_parts(sorted: Seq<Seq<char>>, text: Seq<char>, i: int)
    requires
        0 <= i <= sorted.len(),
    ensures
        i <= text_place(sorted, text, i) <= sorted.len(),
        forall|k: int|
            i <= k < text_place(sorted, text, i) ==> lex_less(utf8(#[trigger] sorted[k]), utf8(text)),
        text_place(sorted, text, i) < sorted.len() ==> !lex_less(
            utf8(sorted[text_place(sorted, text, i)]),
            utf8(text),
        ),
    decreases sorted.len() - i,
{
    if i < sorted.len() && lex_less(utf8(sorted[i]), utf8(text)) {
        text_place_parts(sorted, text, i + 1);
    }
}

/// A list in dictionary order stays in dictionary order when a text is put
/// in its place.
proof fn text_insert_ascending(sorted: Seq<Seq<char>>, text: Seq<char>)
    requires
        ascending(sorted),
    ensures
        ascending(text_insert(sorted, text)),
{
    let place = text_place(sorted, text, 0);
    let after = text_insert(sorted, text);
    text_place_parts(sorted, text, 0);
    if !(place < sorted.len() && sorted[place] == text) {
        assert forall|i: int, j: int| 0 <= i < j < after.len() implies lex_less(
            utf8(#[trigger] after[i]),
            utf8(#[trigger] after[j]),
        ) by {
            if j == place {
                assert(after[i] == sorted[i]);
            } else if i == place {
                assert(after[j] == sorted[j - 1]);
                lex_less_total(utf8(sorted[place]), utf8(text), 0);
                if utf8(sorted[place]) == utf8(text) {
                    vstd::utf8::encode_utf8_decode_utf8(sorted[place]);
                    vstd::utf8::encode_utf8_decode_utf8(text);
                }
                if j - 1 > place {
                    assert(lex_less(utf8(sorted[place]), utf8(sorted[j - 1])));
                    lex_less_transitive(utf8(text), utf8(sorted[place]), utf8(sorted[j - 1]), 0);
                }
            } else {
                let a = if i < place { i } else { i - 1 };
                let b = if j < place { j } else { j - 1 };
                assert(after[i] == sorted[a]);
                assert(after[j] == sorted[b]);
            }
        }
    }
}

/// The senders added to a list in dictionary order leave it in dictionary
/// order.
proof fn senders_ascending(txs: Seq<TxView>, to: Seq<char>, known: Seq<Seq<char>>)
    requires
        ascending(known),
    ensures
        ascending(senders(txs, to, known)),
    decreases txs.len(),
{
    if txs.len() > 0 {
        senders_ascending(txs.drop_last(), to, known);
        if txs.last().to == to {
            text_insert_ascending(senders(txs.drop_last(), to, known), txs.last().from);
        }
    }
}

/// The stakes of a list of wallets in dictionary order are in dictionary
/// order of their wallets, each wallet is one of the list, and each stake
/// is the wallet's net stake and at least the minimum.
proof fn stake_list_ascending(
    wallets: Seq<Seq<char>>,
    stakes: Seq<TxView>,
    unstakes: Seq<TxView>,
)
    requires
        ascending(wallets),
        stake_list(wallets, stakes, unstakes).is_some(),
    ensures
        ascending(stake_wallets(stake_list(wallets, stakes, unstakes).unwrap())),
        forall|j: int|
            0 <= j < stake_list(wallets, stakes, unstakes).unwrap().len() ==> {
                let stake = #[trigger] stake_list(wallets, stakes, unstakes).unwrap()[j];
                &&& is_stake(stake.stake)
                &&& net_stake(stakes, unstakes, stake.wallet) == Some(stake.stake)
                &&& exists|i: int| 0 <= i < wallets.len() && wallets[i] == stake.wallet
            },
    decreases wallets.len(),
{
    if wallets.len() > 0 {
        let front_wallets = wallets.drop_last();
        assert forall|i: int, j: int| 0 <= i < j < front_wallets.len() implies lex_less(
            utf8(#[trigger] front_wallets[i]),
            utf8(#[trigger] front_wallets[j]),
        ) by {
            assert(front_wallets[i] == wallets[i] && front_wallets[j] == wallets[j]);
        }
        stake_list_ascending(front_wallets, stakes, unstakes);
        let front = stake_list(front_wallets, stakes, unstakes).unwrap();
        let list = stake_list(wallets, stakes, unstakes).unwrap();
        let last = wallets.len() - 1;
        assert forall|j: int| 0 <= j < list.len() implies {
            let stake = #[trigger] list[j];
            &&& is_stake(stake.stake)
            &&& net_stake(stakes, unstakes, stake.wallet) == Some(stake.stake)
            &&& exists|i: int| 0 <= i < wallets.len() && wallets[i] == stake.wallet
        } by {
            if j < front.len() {
                assert(list[j] == front[j]);
                let i = choose|i: int|
                    0 <= i < front_wallets.len() && front_wallets[i] == front[j].wallet;
                assert(wallets[i] == list[j].wallet);
            } else {
                assert(wallets[last] == list[j].wallet);
            }
        }
        assert forall|i: int, j: int| 0 <= i < j < list.len() implies lex_less(
            utf8(#[trigger] stake_wallets(list)[i]),
            utf8(#[trigger] stake_wallets(list)[j]),
        ) by {
            assert(list[i] == front[i]);
            if j < front.len() {
                assert(list[j] == front[j]);
                assert(lex_less(utf8(stake_wallets(front)[i]), utf8(stake_wallets(front)[j])));
            } else {
                let k = choose|k: int|
                    0 <= k < front_wallets.len() && front_wallets[k] == front[i].wallet;
                assert(wallets[k] == list[i].wallet);
                assert(wallets[last] == list[j].wallet);
            }
        }
    }
}

/// A list in which a text was put holds the text and what it held before,
/// and nothing else.
proof fn text_insert_members(sorted: Seq<Seq<char>>, text: Seq<char>, other: Seq<char>)
    ensures
        text_insert(sorted, text).contains(other) <==> other == text || sorted.contains(other),
{
    let place = text_place(sorted, text, 0);
    let after = text_insert(sorted, text);
    text_place_parts(sorted, text, 0);
    if place < sorted.len() && sorted[place] == text {
        assert(sorted[place] == text);
    } else {
        assert(after[place] == text);
        if sorted.contains(other) {
            let k = choose|k: int| 0 <= k < sorted.len() && sorted[k] == other;
            let moved = if k < place { k } else { k + 1 };
            assert(after[moved] == other);
        }
        if after.contains(other) && other != text {
            let k = choose|k: int| 0 <= k < after.len() && after[k] == other;
            let from = if k < place { k } else { k - 1 };
            assert(sorted[from] == other);
        }
    }
}

/// The senders added to a list are those that sent a transaction to the
/// recipient, beside those known before.
proof fn senders_members(
    txs: Seq<TxView>,
    to: Seq<char>,
    known: Seq<Seq<char>>,
    wallet: Seq<char>,
)
    ensures
        senders(txs, to, known).contains(wallet) <==> known.contains(wallet) || sent_to(
            txs,
            to,
            wallet,
        ),
    decreases txs.len(),
{
    if txs.len() > 0 {
        let front = txs.drop_last();
        senders_members(front, to, known, wallet);
        if txs.last().to == to {
            text_insert_members(senders(front, to, known), txs.last().from, wallet);
        }
        if sent_to(front, to, wallet) {
            let i = choose|i: int|
                0 <= i < front.len() && (#[trigger] front[i]).to == to && front[i].from == wallet;
            assert(txs[i].to == to && txs[i].from == wallet);
        }
        if sent_to(txs, to, wallet) {
            let i = choose|i: int|
                0 <= i < txs.len() && (#[trigger] txs[i]).to == to && txs[i].from == wallet;
            if i < txs.len() - 1 {
                assert(front[i].to == to && front[i].from == wallet);
            }
        }
        if txs.last().to == to && txs.last().from == wallet {
            assert(txs[txs.len() - 1].to == to);
        }
    }
}

/// The stakes of a list of wallets hold the stake of each wallet of the
/// list whose net stake is at least the minimum.
proof fn stake_list_members(
    wallets: Seq<Seq<char>>,
    stakes: Seq<TxView>,
    unstakes: Seq<TxView>,
    wallet: Seq<char>,
)
    requires
        stake_list(wallets, stakes, unstakes).is_some(),
        wallets.contains(wallet),
        net_stake(stakes, unstakes, wallet).is_some(),
        is_stake(net_stake(stakes, unstakes, wallet).unwrap()),
    ensures
        stake_list(wallets, stakes, unstakes).unwrap().contains(
            StakeView { wallet, stake: net_stake(stakes, unstakes, wallet).unwrap() },
        ),
    decreases wallets.len(),
{
    let stake = StakeView { wallet, stake: net_stake(stakes, unstakes, wallet).unwrap() };
    let list = stake_list(wallets, stakes, unstakes).unwrap();
    let front_wallets = wallets.drop_last();
    let front = stake_list(front_wallets, stakes, unstakes).unwrap();
    if wallets.last() == wallet {
        assert(list[list.len() - 1] == stake);
    } else {
        let i = choose|i: int| 0 <= i < wallets.len() && wallets[i] == wallet;
        assert(front_wallets[i] == wallet);
        stake_list_members(front_wallets, stakes, unstakes, wallet);
        let j = choose|j: int| 0 <= j < front.len() && front[j] == stake;
        assert(list[j] == stake);
    }
}

/// Every wallet that sent a transaction to `STAKE` or `UNSTAKE`, and whose
/// net stake is at least the minimum, is in the active validator set with
/// that stake.
pub proof fn staker_is_listed(txs: Store, wallet: Seq<char>)
    requires
        stakes_of(txs).is_ok(),
        sent_to(ordered(txs_under(txs, STAKE_WALLET@).unwrap()), STAKE_WALLET@, wallet) || sent_to(
            ordered(txs_under(txs, UNSTAKE_WALLET@).unwrap()),
            UNSTAKE_WALLET@,
            wallet,
        ),
        is_stake(
            net_stake(
                ordered(txs_under(txs, STAKE_WALLET@).unwrap()),
                ordered(txs_under(txs, UNSTAKE_WALLET@).unwrap()),
                wallet,
            ).unwrap(),
        ),
        net_stake(
            ordered(txs_under(txs, STAKE_WALLET@).unwrap()),
            ordered(txs_under(txs, UNSTAKE_WALLET@).unwrap()),
            wallet,
        ).is_some(),
    ensures
        (stakes_of(txs)->Ok_0).contains(
            StakeView {
                wallet,
                stake: net_stake(
                    ordered(txs_under(txs, STAKE_WALLET@).unwrap()),
                    ordered(txs_under(txs, UNSTAKE_WALLET@).unwrap()),
                    wallet,
                ).unwrap(),
            },
        ),
{
    let stakes = ordered(txs_under(txs, STAKE_WALLET@).unwrap());
    let unstakes = ordered(txs_under(txs, UNSTAKE_WALLET@).unwrap());
    let none = Seq::<Seq<char>>::empty();
    senders_members(stakes, STAKE_WALLET@, none, wallet);
    senders_members(unstakes, UNSTAKE_WALLET@, senders(stakes, STAKE_WALLET@, none), wallet);
    stake_list_members(stakers(stakes, unstakes), stakes, unstakes, wallet);
}

/// The active validator set is in dictionary order of its wallets, each
/// wallet once, and holds for each wallet its net stake, which is at least
/// the minimum. So every node that holds the same staking transactions
/// walks the same stakes in the same order.
pub proof fn stakes_are_ascending(txs: Store)
    requires
        stakes_of(txs).is_ok(),
    ensures
        ascending(stake_wallets(stakes_of(txs)->Ok_0)),
        forall|j: int|
            0 <= j < (stakes_of(txs)->Ok_0).len() ==> {
                let stake = #[trigger] (stakes_of(txs)->Ok_0)[j];
                &&& is_stake(stake.stake)
                &&& net_stake(
                    ordered(txs_under(txs, STAKE_WALLET@).unwrap()),
                    ordered(txs_under(txs, UNSTAKE_WALLET@).unwrap()),
                    stake.wallet,
                ) == Some(stake.stake)
            },
{
    let stakes = ordered(txs_under(txs, STAKE_WALLET@).unwrap());
    let unstakes = ordered(txs_under(txs, UNSTAKE_WALLET@).unwrap());
    let none = Seq::<Seq<char>>::empty();
    assert(ascending(none));
    senders_ascending(stakes, STAKE_WALLET@, none);
    senders_ascending(unstakes, UNSTAKE_WALLET@, senders(stakes, STAKE_WALLET@, none));
    stake_list_ascending(stakers(stakes, unstakes), stakes, unstakes);
}

} // verus!

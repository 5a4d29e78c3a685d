//! Discovering fresh pools: which exchange to ask about which token, and how the answers are
//! put together.

use crate::markets::Market;
use crate::table::NameTable;
use vstd::prelude::*;

verus! {

/// The pause between two exchanges, in milliseconds.
pub const EXCHANGE_PAUSE_MS: u64 = 500;

/// The pause between two tokens, in milliseconds.
pub const TOKEN_PAUSE_MS: u64 = 1000;

/// How many exchanges are asked.
pub const EXCHANGE_COUNT: usize = 3;

/// A token of the arbitrage.
#[derive(Clone, Debug)]
pub struct TokenInArb {
    pub address: String,
}

/// An exchange that is asked for pools.
#[derive(Clone, Copy, Debug, PartialEq, Eq, Structural)]
pub enum Exchange {
    Orca,
    Raydium,
    Meteora,
}

/// The markets under their ids after some were found. A later one replaces an earlier one.
pub open spec fn with_found(
    before: Map<Seq<char>, Market>,
    found: Seq<(String, Market)>,
) -> Map<Seq<char>, Market>
    decreases found.len(),
{
    if found.len() == 0 {
        before
    } else {
        with_found(before, found.drop_last()).insert(found.last().0@, found.last().1)
    }
}

/// The markets of one exchange: those found with the token first, then those with it second.
pub open spec fn exchange_markets(
    tokena: Seq<(String, Market)>,
    tokenb: Seq<(String, Market)>,
) -> Map<Seq<char>, Market> {
    with_found(with_found(Map::empty(), tokena), tokenb)
}

/// The markets of some tokens together. A later one replaces an earlier one.
pub open spec fn combined(results: Seq<Map<Seq<char>, Market>>) -> Map<Seq<char>, Market>
    decreases results.len(),
{
    if results.len() == 0 {
        Map::empty()
    } else {
        combined(results.drop_last()).union_prefer_right(results.last())
    }
}

fn reversed<T>(list: Vec<T>) -> (r: Vec<T>)
    ensures
        r@ == list@.reverse(),
{
    let ghost all = list@;
    let mut list: Vec<T> = list;
    let mut r: Vec<T> = Vec::new();
    while list.len() > 0
        invariant
            list@.len() + r@.len() == all.len(),
            list@ == all.take(list@.len() as int),
            r@ == all.reverse().take(r@.len() as int),
        decreases list.len(),
    {
        if let Some(item) = list.pop() {
            r.push(item);
        }
    }
    r
}

fn insert_found(table: &mut NameTable<Market>, found: Vec<(String, Market)>)
    requires
        old(table).well_formed(),
    ensures
        final(table).well_formed(),
        final(table)@ == with_found(old(table)@, found@),
{
    let ghost all = found@;
    let mut backwards: Vec<(String, Market)> = reversed(found);
    assert(all.take(0) =~= Seq::empty());
    while backwards.len() > 0
        invariant
            table.well_formed(),
            backwards@.len() <= all.len(),
            forall|i: int|
                0 <= i < backwards@.len() ==> #[trigger] backwards@[i] == all[all.len() - 1 - i],
            table@ == with_found(old(table)@, all.take(all.len() - backwards@.len())),
        decreases backwards.len(),
    {
        let ghost at = all.len() - backwards@.len();
        assert(all.take(at + 1).drop_last() =~= all.take(at));
        if let Some((id, market)) = backwards.pop() {
            assert((id, market) == all[at]);
            table.insert(id, market);
        }
    }
    assert(all.take(all.len() as int) =~= all);
}

/// Puts the two answers of an exchange together.
pub fn fetch_pools_from_exchange(
    tokena_results: Vec<(String, Market)>,
    tokenb_results: Vec<(String, Market)>,
) -> (markets: NameTable<Market>)
    ensures
        markets.well_formed(),
        markets@ == exchange_markets(tokena_results@, tokenb_results@),
{
    let mut markets: NameTable<Market> = NameTable::new();
    insert_found(&mut markets, tokena_results);
    insert_found(&mut markets, tokenb_results);
    markets
}

/// What to do next for one token.
#[derive(Clone, Copy, Debug, PartialEq, Eq, Structural)]
pub enum TokenStep {
    /// Ask this exchange, with the token on either side.
    Fetch(Exchange),
    /// Wait for so many milliseconds.
    Pause { millis: u64 },
    /// Nothing: every exchange was asked.
    Done,
}

/// How far the discovery for one token has come.
pub ghost struct TokenState {
    pub asked: nat,
    pub resting: bool,
    pub markets: Map<Seq<char>, Market>,
}

/// The exchange that is asked after so many others.
pub open spec fn exchange_at(asked: nat) -> Exchange {
    if asked == 0 {
        Exchange::Orca
    } else if asked == 1 {
        Exchange::Raydium
    } else {
        Exchange::Meteora
    }
}

impl TokenState {
    /// The start.
    pub open spec fn start() -> Self {
        TokenState { asked: 0, resting: false, markets: Map::empty() }
    }

    /// What to do next.
    pub open spec fn step(self) -> TokenStep {
        if self.resting {
            TokenStep::Pause { millis: EXCHANGE_PAUSE_MS }
        } else if self.asked < EXCHANGE_COUNT {
            TokenStep::Fetch(exchange_at(self.asked))
        } else {
            TokenStep::Done
        }
    }

    /// After an exchange has answered.
    pub open spec fn answered(self, found: Map<Seq<char>, Market>) -> Self {
        TokenState {
            asked: self.asked + 1,
            resting: true,
            markets: self.markets.union_prefer_right(found),
        }
    }

    /// After the pause.
    pub open spec fn rested(self) -> Self {
        TokenState { resting: false, ..self }
    }
}

/// The discovery of the pools of one token.
pub struct TokenDiscovery {
    asked: usize,
    resting: bool,
    markets: NameTable<Market>,
}

impl View for TokenDiscovery {
    type V = TokenState;

    closed spec fn view(&self) -> TokenState {
        TokenState { asked: self.asked as nat, resting: self.resting, markets: self.markets@ }
    }
}

impl TokenDiscovery {
    /// No more exchanges were asked than there are, and the markets are in order.
    pub closed spec fn well_formed(self) -> bool {
        self.asked <= EXCHANGE_COUNT && self.markets.well_formed()
    }

    /// No exchange was asked yet.
    pub fn new() -> (d: Self)
        ensures
            d.well_formed(),
            d@ == TokenState::start(),
    {
        TokenDiscovery { asked: 0, resting: false, markets: NameTable::new() }
    }

    /// What to do next.
    pub fn step(&self) -> (step: TokenStep)
        requires
            self.well_formed(),
        ensures
            step == self@.step(),
    {
        if self.resting {
            TokenStep::Pause { millis: EXCHANGE_PAUSE_MS }
        } else if self.asked == 0 {
            TokenStep::Fetch(Exchange::Orca)
        } else if self.asked == 1 {
            TokenStep::Fetch(Exchange::Raydium)
        } else if self.asked == 2 {
            TokenStep::Fetch(Exchange::Meteora)
        } else {
            TokenStep::Done
        }
    }

    /// Takes the two answers of the exchange that was to be asked, and tells how many pools
    /// they hold.
    pub fn answered(
        &mut self,
        tokena_results: Vec<(String, Market)>,
        tokenb_results: Vec<(String, Market)>,
    ) -> (pools_count: usize)
        requires
            old(self).well_formed(),
            old(self)@.step() is Fetch,
        ensures
            final(self).well_formed(),
            final(self)@ == old(self)@.answered(
                exchange_markets(tokena_results@, tokenb_results@),
            ),
            pools_count == exchange_markets(tokena_results@, tokenb_results@).len(),
    {
        let results = fetch_pools_from_exchange(tokena_results, tokenb_results);
        let pools_count: usize = results.len();
        self.markets.extend(results);
        self.asked = self.asked + 1;
        self.resting = true;
        pools_count
    }

    /// The pause is over.
    pub fn rested(&mut self)
        requires
            old(self).well_formed(),
            old(self)@.step() is Pause,
        ensures
            final(self).well_formed(),
            final(self)@ == old(self)@.rested(),
    {
        self.resting = false;
    }

    /// The markets that were found.
    pub fn into_markets(self) -> (markets: NameTable<Market>)
        requires
            self.well_formed(),
        ensures
            markets.well_formed(),
            markets@ == self@.markets,
    {
        self.markets
    }
}

/// What to do next for a list of tokens.
#[derive(Debug)]
pub enum DiscoveryStep {
    /// Discover the pools of the token with this address.
    Discover(String),
    /// Wait for so many milliseconds.
    Pause { millis: u64 },
    /// Nothing: every token had its turn.
    Done,
}

/// How far the discovery for a list of tokens has come.
pub ghost struct DiscoveryState {
    pub addresses: Seq<Seq<char>>,
    pub found: nat,
    pub resting: bool,
    pub markets: Map<Seq<char>, Market>,
}

/// The addresses of the tokens that have a turn: all but the first.
pub open spec fn tokens_to_process(tokens: Seq<TokenInArb>) -> Seq<Seq<char>> {
    tokens.skip(1).map_values(|token: TokenInArb| token.address@)
}

impl DiscoveryState {
    /// The start.
    pub open spec fn start(addresses: Seq<Seq<char>>) -> Self {
        DiscoveryState { addresses, found: 0, resting: false, markets: Map::empty() }
    }

    /// A token has its turn now.
    pub open spec fn discovers(self) -> bool {
        !self.resting && self.found < self.addresses.len()
    }

    /// After the pools of a token were discovered. A pause follows unless it was the last.
    pub open spec fn discovered(self, token_markets: Map<Seq<char>, Market>) -> Self {
        DiscoveryState {
            found: self.found + 1,
            resting: self.found + 1 < self.addresses.len(),
            markets: self.markets.union_prefer_right(token_markets),
            ..self
        }
    }

    /// After the pause.
    pub open spec fn rested(self) -> Self {
        DiscoveryState { resting: false, ..self }
    }
}

/// The discovery of the pools of a list of tokens, one token after the other.
pub struct PoolDiscovery {
    addresses: Vec<String>,
    found: usize,
    resting: bool,
    markets: NameTable<Market>,
}

impl View for PoolDiscovery {
    type V = DiscoveryState;

    closed spec fn view(&self) -> DiscoveryState {
        DiscoveryState {
            addresses: self.addresses@.map_values(|address: String| address@),
            found: self.found as nat,
            resting: self.resting,
            markets: self.markets@,
        }
    }
}

/// The addresses of the tokens that have a turn. The first token of the list has none; it is
/// the one that the others are traded for.
pub fn addresses_to_process(tokens: &Vec<TokenInArb>) -> (addresses: Vec<String>)
    requires
        tokens@.len() > 0,
    ensures
        addresses@.map_values(|address: String| address@) == tokens_to_process(tokens@),
{
    let len: usize = tokens.len();
    let mut addresses: Vec<String> = Vec::new();
    let mut i: usize = 1;
    while i < len
        invariant
            1 <= i <= len,
            len == tokens@.len(),
            addresses@.len() == i - 1,
            forall|j: int|
                0 <= j < i - 1 ==> (#[trigger] addresses@[j])@ == tokens@[j + 1].address@,
        decreases len - i,
    {
        addresses.push(tokens[i].address.clone());
        i = i + 1;
    }
    assert(addresses@.map_values(|address: String| address@) =~= tokens_to_process(tokens@));
    addresses
}

impl PoolDiscovery {
    /// No more tokens had their turn than there are, and the markets are in order.
    pub closed spec fn well_formed(self) -> bool {
        self.found <= self.addresses@.len() && self.markets.well_formed()
    }

    /// No token has had its turn yet.
    pub fn new(tokens: &Vec<TokenInArb>) -> (d: Self)
        requires
            tokens@.len() > 0,
        ensures
            d.well_formed(),
            d@ == DiscoveryState::start(tokens_to_process(tokens@)),
    {
        PoolDiscovery {
            addresses: addresses_to_process(tokens),
            found: 0,
            resting: false,
            markets: NameTable::new(),
        }
    }

    /// What to do next.
    pub fn step(&self) -> (step: DiscoveryStep)
        requires
            self.well_formed(),
        ensures
            match step {
                DiscoveryStep::Discover(address) => self@.discovers() && address@
                    == self@.addresses[self@.found as int],
                DiscoveryStep::Pause { millis } => self@.resting && millis == 1000,
                DiscoveryStep::Done => !self@.resting && self@.found == self@.addresses.len(),
            },
    {
        if self.resting {
            DiscoveryStep::Pause { millis: TOKEN_PAUSE_MS }
        } else if self.found < self.addresses.len() {
            DiscoveryStep::Discover(self.addresses[self.found].clone())
        } else {
            DiscoveryStep::Done
        }
    }

    /// Takes the markets of the token that had its turn, and tells how many there are.
    pub fn discovered(&mut self, token_markets: NameTable<Market>) -> (pools_added: usize)
        requires
            old(self).well_formed(),
            old(self)@.discovers(),
            token_markets.well_formed(),
        ensures
            final(self).well_formed(),
            final(self)@ == old(self)@.discovered(token_markets@),
            pools_added == token_markets@.len(),
    {
        let pools_added: usize = token_markets.len();
        self.markets.extend(token_markets);
        assert(self.found < self.addresses.len());
        self.found = self.found + 1;
        self.resting = self.found < self.addresses.len();
        pools_added
    }

    /// The pause is over.
    pub fn rested(&mut self)
        requires
            old(self).well_formed(),
            old(self)@.resting,
        ensures
            final(self).well_formed(),
            final(self)@ == old(self)@.rested(),
    {
        self.resting = false;
    }

    /// The markets that were found.
    pub fn into_markets(self) -> (markets: NameTable<Market>)
        requires
            self.well_formed(),
        ensures
            markets.well_formed(),
            markets@ == self@.markets,
    {
        self.markets
    }
}

/// Puts the markets of tokens together whose pools were discovered at the same time. The
/// tokens come in the order of their list.
pub fn combine_markets(results: Vec<NameTable<Market>>) -> (all_markets: NameTable<Market>)
    requires
        forall|i: int| 0 <= i < results@.len() ==> (#[trigger] results@[i]).well_formed(),
    ensures
        all_markets.well_formed(),
        all_markets@ == combined(
            results@.map_values(|table: NameTable<Market>| table@),
        ),
{
    let ghost tables = results@;
    let ghost all = tables.map_values(|table: NameTable<Market>| table@);
    let mut backwards: Vec<NameTable<Market>> = reversed(results);
    let mut all_markets: NameTable<Market> = NameTable::new();
    assert(all.take(0) =~= Seq::empty());
    while backwards.len() > 0
        invariant
            all_markets.well_formed(),
            all == tables.map_values(|table: NameTable<Market>| table@),
            forall|i: int| 0 <= i < tables.len() ==> (#[trigger] tables[i]).well_formed(),
            backwards@.len() <= tables.len(),
            forall|i: int|
                0 <= i < backwards@.len() ==> #[trigger] backwards@[i] == tables[tables.len() - 1
                    - i],
            all_markets@ == combined(all.take(all.len() - backwards@.len())),
        decreases backwards.len(),
    {
        let ghost at = all.len() - backwards@.len();
        assert(all.take(at + 1).drop_last() =~= all.take(at));
        if let Some(table) = backwards.pop() {
            assert(table == tables[at]);
            all_markets.extend(table);
        }
    }
    assert(all.take(all.len() as int) =~= all);
    all_markets
}

/// Where the discovery stands after the tokens gave these markets, one after the other, with
/// the pauses between them.
pub open spec fn after_tokens(
    addresses: Seq<Seq<char>>,
    results: Seq<Map<Seq<char>, Market>>,
) -> DiscoveryState
    decreases results.len(),
{
    if results.len() == 0 {
        DiscoveryState::start(addresses)
    } else {
        after_tokens(addresses, results.drop_last()).discovered(results.last()).rested()
    }
}

/// Discovering one token after the other and discovering them at the same time find the same
/// markets.
pub proof fn law_both_ways_find_the_same(
    addresses: Seq<Seq<char>>,
    results: Seq<Map<Seq<char>, Market>>,
)
    ensures
        after_tokens(addresses, results).markets == combined(results),
        after_tokens(addresses, results).found == results.len(),
        after_tokens(addresses, results).addresses == addresses,
    decreases results.len(),
{
    if results.len() > 0 {
        law_both_ways_find_the_same(addresses, results.drop_last());
    }
}

/// There is a pause after every token but the last, and then the discovery is done.
pub proof fn law_no_pause_after_the_last_token(
    addresses: Seq<Seq<char>>,
    results: Seq<Map<Seq<char>, Market>>,
    last: Map<Seq<char>, Market>,
)
    requires
        results.len() < addresses.len(),
    ensures
        after_tokens(addresses, results).discovers(),
        after_tokens(addresses, results).discovered(last).resting <==> results.len() + 1
            < addresses.len(),
    decreases results.len(),
{
    if results.len() > 0 {
        law_no_pause_after_the_last_token(addresses, results.drop_last(), results.last());
    }
    lemma_addresses_stay(addresses, results);
    law_both_ways_find_the_same(addresses, results);
}

proof fn lemma_addresses_stay(addresses: Seq<Seq<char>>, results: Seq<Map<Seq<char>, Market>>)
    ensures
        after_tokens(addresses, results).addresses == addresses,
        !after_tokens(addresses, results).resting,
    decreases results.len(),
{
    if results.len() > 0 {
        lemma_addresses_stay(addresses, results.drop_last());
    }
}

/// Each exchange is asked once, in a fixed order and with a pause after each. Where two of
/// them know a pool, the market of the later one stays.
pub proof fn law_a_token_takes_every_exchange(
    orca: Map<Seq<char>, Market>,
    raydium: Map<Seq<char>, Market>,
    meteora: Map<Seq<char>, Market>,
)
    ensures
        ({
            let s0 = TokenState::start();
            let s1 = s0.answered(orca);
            let s2 = s1.rested().answered(raydium);
            let s3 = s2.rested().answered(meteora);
            &&& s0.step() == TokenStep::Fetch(Exchange::Orca)
            &&& s1.step() == (TokenStep::Pause { millis: 500 })
            &&& s1.rested().step() == TokenStep::Fetch(Exchange::Raydium)
            &&& s2.step() == (TokenStep::Pause { millis: 500 })
            &&& s2.rested().step() == TokenStep::Fetch(Exchange::Meteora)
            &&& s3.step() == (TokenStep::Pause { millis: 500 })
            &&& s3.rested().step() == TokenStep::Done
            &&& s3.rested().markets == orca.union_prefer_right(raydium).union_prefer_right(
                meteora,
            )
        }),
{
    let empty = Map::<Seq<char>, Market>::empty();
    assert(empty.union_prefer_right(orca) =~= orca);
}

/// Of the markets that were found under one id, the last one stays; ids that were not found
/// keep what they had.
pub proof fn law_last_found_stays(
    before: Map<Seq<char>, Market>,
    found: Seq<(String, Market)>,
    id: Seq<char>,
)
    ensures
        (forall|i: int| 0 <= i < found.len() ==> (#[trigger] found[i]).0@ != id) ==> {
            &&& with_found(before, found).contains_key(id) <==> before.contains_key(id)
            &&& before.contains_key(id) ==> with_found(before, found)[id] == before[id]
        },
        forall|at: int|
            0 <= at < found.len() && (#[trigger] found[at]).0@ == id && (forall|i: int|
                at < i < found.len() ==> (#[trigger] found[i]).0@ != id) ==> {
                &&& with_found(before, found).contains_key(id)
                &&& with_found(before, found)[id] == found[at].1
            },
    decreases found.len(),
{
    if found.len() > 0 {
        let rest = found.drop_last();
        law_last_found_stays(before, rest, id);
        let last = found.len() - 1;
        if found[last].0@ != id {
            assert((forall|i: int| 0 <= i < found.len() ==> (#[trigger] found[i]).0@ != id) ==> (
            forall|i: int| 0 <= i < rest.len() ==> (#[trigger] rest[i]).0@ != id)) by {
                assert(forall|i: int| 0 <= i < rest.len() ==> rest[i] == found[i]);
            }
            assert forall|at: int|
                0 <= at < found.len() && (#[trigger] found[at]).0@ == id && (forall|i: int|
                    at < i < found.len() ==> (#[trigger] found[i]).0@ != id) implies {
                &&& with_found(before, found).contains_key(id)
                &&& with_found(before, found)[id] == found[at].1
            } by {
                assert(rest[at] == found[at]);
                assert forall|i: int| at < i < rest.len() implies (#[trigger] rest[i]).0@
                    != id by {
                    assert(rest[i] == found[i]);
                }
            }
        }
    }
}

proof fn lemma_found_ids(before: Map<Seq<char>, Market>, found: Seq<(String, Market)>, id: Seq<char>)
    ensures
        with_found(before, found).contains_key(id) <==> before.contains_key(id) || (exists|i: int|
            0 <= i < found.len() && (#[trigger] found[i]).0@ == id),
    decreases found.len(),
{
    if found.len() > 0 {
        let rest = found.drop_last();
        lemma_found_ids(before, rest, id);
        if exists|i: int| 0 <= i < rest.len() && (#[trigger] rest[i]).0@ == id {
            let i = choose|i: int| 0 <= i < rest.len() && (#[trigger] rest[i]).0@ == id;
            assert(found[i].0@ == id);
        }
        if exists|i: int| 0 <= i < found.len() && (#[trigger] found[i]).0@ == id {
            let i = choose|i: int| 0 <= i < found.len() && (#[trigger] found[i]).0@ == id;
            if i < rest.len() {
                assert(rest[i].0@ == id);
            } else {
                assert(found.last().0@ == id);
            }
        }
        assert(found[found.len() - 1] == found.last());
    }
}

/// The two answers of an exchange count alike, also where one of them is empty: a pool is
/// known exactly when it stands in one of them. Its market is the last one in the second
/// answer, or the last one in the first where the second does not have the pool.
pub proof fn law_both_answers_count(
    tokena: Seq<(String, Market)>,
    tokenb: Seq<(String, Market)>,
    id: Seq<char>,
)
    ensures
        exchange_markets(tokena, tokenb).contains_key(id) <==> (exists|i: int|
            0 <= i < tokena.len() && (#[trigger] tokena[i]).0@ == id) || (exists|j: int|
            0 <= j < tokenb.len() && (#[trigger] tokenb[j]).0@ == id),
        forall|j: int|
            0 <= j < tokenb.len() && (#[trigger] tokenb[j]).0@ == id && (forall|k: int|
                j < k < tokenb.len() ==> (#[trigger] tokenb[k]).0@ != id) ==> exchange_markets(
                tokena,
                tokenb,
            )[id] == tokenb[j].1,
        forall|i: int|
            0 <= i < tokena.len() && (#[trigger] tokena[i]).0@ == id && (forall|k: int|
                i < k < tokena.len() ==> (#[trigger] tokena[k]).0@ != id) && (forall|k: int|
                0 <= k < tokenb.len() ==> (#[trigger] tokenb[k]).0@ != id) ==> exchange_markets(
                tokena,
                tokenb,
            )[id] == tokena[i].1,
{
    let empty = Map::<Seq<char>, Market>::empty();
    let first = with_found(empty, tokena);
    lemma_found_ids(empty, tokena, id);
    lemma_found_ids(first, tokenb, id);
    law_last_found_stays(empty, tokena, id);
    law_last_found_stays(first, tokenb, id);
}

/// Some token from position `from` on gave a market under an id.
pub open spec fn given_from(
    results: Seq<Map<Seq<char>, Market>>,
    from: int,
    id: Seq<char>,
) -> bool {
    exists|i: int| from <= i < results.len() && (#[trigger] results[i]).contains_key(id)
}

/// The markets of some tokens together are those that any of them gave, under each id the one
/// of the last token that gave one.
pub proof fn law_the_last_token_prevails(
    results: Seq<Map<Seq<char>, Market>>,
    at: int,
    id: Seq<char>,
)
    ensures
        combined(results).contains_key(id) <==> given_from(results, 0, id),
        0 <= at < results.len() && results[at].contains_key(id) && !given_from(results, at + 1, id)
            ==> combined(results)[id] == results[at][id],
    decreases results.len(),
{
    if results.len() > 0 {
        let rest = results.drop_last();
        let last = results.len() - 1;
        law_the_last_token_prevails(rest, at, id);
        if results[last].contains_key(id) {
            assert(given_from(results, 0, id));
            if at < last {
                assert(given_from(results, at + 1, id));
            }
        } else {
            if given_from(results, 0, id) {
                let i = choose|i: int|
                    0 <= i < results.len() && (#[trigger] results[i]).contains_key(id);
                assert(rest[i].contains_key(id));
            }
            if given_from(rest, 0, id) {
                let i = choose|i: int| 0 <= i < rest.len() && (#[trigger] rest[i]).contains_key(id);
                assert(results[i].contains_key(id));
            }
            if 0 <= at && given_from(rest, at + 1, id) {
                let i = choose|i: int|
                    at + 1 <= i < rest.len() && (#[trigger] rest[i]).contains_key(id);
                assert(results[i].contains_key(id));
            }
        }
    }
}

/// For one token, whatever was found so far: the exchanges come in the order Orca, Raydium,
/// Meteora, a pause of half a second follows each answer, and an answer adds its markets to
/// those of the exchanges before, taking their place under an id that both know.
pub proof fn law_an_answer_is_added(
    state: TokenState,
    found: Map<Seq<char>, Market>,
    id: Seq<char>,
)
    ensures
        state.resting ==> state.step() == (TokenStep::Pause { millis: 500 }),
        !state.resting ==> state.step() == (if state.asked == 0 {
            TokenStep::Fetch(Exchange::Orca)
        } else if state.asked == 1 {
            TokenStep::Fetch(Exchange::Raydium)
        } else if state.asked == 2 {
            TokenStep::Fetch(Exchange::Meteora)
        } else {
            TokenStep::Done
        }),
        state.answered(found).asked == state.asked + 1,
        state.answered(found).resting,
        state.answered(found).markets.contains_key(id) <==> state.markets.contains_key(id)
            || found.contains_key(id),
        found.contains_key(id) ==> state.answered(found).markets[id] == found[id],
        state.markets.contains_key(id) && !found.contains_key(id) ==> state.answered(
            found,
        ).markets[id] == state.markets[id],
        state.rested().asked == state.asked,
        !state.rested().resting,
        state.rested().markets == state.markets,
{
}

/// For a list of tokens, whatever was found so far: the token in turn is the next one of the
/// list unless there is a pause, and its markets are added to those of the tokens before,
/// taking their place under an id that both know. The list itself stays.
pub proof fn law_a_token_is_added(
    state: DiscoveryState,
    token_markets: Map<Seq<char>, Market>,
    id: Seq<char>,
)
    ensures
        state.discovers() <==> !state.resting && state.found < state.addresses.len(),
        state.discovered(token_markets).addresses == state.addresses,
        state.discovered(token_markets).found == state.found + 1,
        state.discovered(token_markets).resting <==> state.found + 1 < state.addresses.len(),
        state.discovered(token_markets).markets.contains_key(id) <==> state.markets.contains_key(id)
            || token_markets.contains_key(id),
        token_markets.contains_key(id) ==> state.discovered(token_markets).markets[id]
            == token_markets[id],
        state.markets.contains_key(id) && !token_markets.contains_key(id) ==> state.discovered(
            token_markets,
        ).markets[id] == state.markets[id],
        state.rested().addresses == state.addresses,
        state.rested().found == state.found,
        !state.rested().resting,
        state.rested().markets == state.markets,
{
}

/// Every token but the first has its turn, in the order of the list, and nothing was found
/// before the first turn.
pub proof fn law_all_tokens_but_the_first_have_a_turn(tokens: Seq<TokenInArb>)
    requires
        tokens.len() > 0,
    ensures
        tokens_to_process(tokens).len() == tokens.len() - 1,
        forall|i: int|
            0 < i < tokens.len() ==> tokens_to_process(tokens)[i - 1] == (
            #[trigger] tokens[i]).address@,
        ({
            let start = DiscoveryState::start(tokens_to_process(tokens));
            &&& start.addresses == tokens_to_process(tokens)
            &&& start.found == 0
            &&& !start.resting
            &&& start.markets == Map::<Seq<char>, Market>::empty()
        }),
{
    assert forall|i: int| 0 < i < tokens.len() implies tokens_to_process(tokens)[i - 1] == (
    #[trigger] tokens[i]).address@ by {
        assert(tokens.skip(1)[i - 1] == tokens[i]);
    }
}

} // verus!

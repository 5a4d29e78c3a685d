//! Reading the accounts of many pools, one batch of addresses at a time.

use crate::keys::Pubkey;
use crate::layout::{
    unpack_from_slice, unpacked, ProgramError, SwapLayout, TokenSwapLayout, LAYOUT_LEN,
};
use crate::orca::{layouts, RPC_BATCH_SIZE};
use vstd::prelude::*;

verus! {

/// What became of one account of a reply.
#[derive(Clone, Copy, Debug, PartialEq, Eq, Structural)]
pub enum AccountOutcome {
    /// Its pool was read.
    Unpacked,
    /// Its data holds no pool.
    Unreadable(ProgramError),
    /// There is no such account.
    Missing,
}

/// The accounts of a reply, as sequences of bytes.
pub open spec fn replied(accounts: Seq<Option<Vec<u8>>>) -> Seq<Option<Seq<u8>>> {
    accounts.map_values(
        |account: Option<Vec<u8>>|
            match account {
                Some(data) => Some(data@),
                None => None,
            },
    )
}

/// No account has more data than the layout.
pub open spec fn none_too_long(accounts: Seq<Option<Seq<u8>>>) -> bool {
    forall|i: int|
        0 <= i < accounts.len() ==> match #[trigger] accounts[i] {
            Some(data) => data.len() <= LAYOUT_LEN,
            None => true,
        }
}

/// What becomes of one account.
pub open spec fn outcome_of(account: Option<Seq<u8>>) -> AccountOutcome {
    match account {
        Some(data) => match unpacked(data) {
            Ok(_) => AccountOutcome::Unpacked,
            Err(error) => AccountOutcome::Unreadable(error),
        },
        None => AccountOutcome::Missing,
    }
}

/// The pools that some accounts hold, in their order.
pub open spec fn pools_in(accounts: Seq<Option<Seq<u8>>>) -> Seq<SwapLayout>
    decreases accounts.len(),
{
    if accounts.len() == 0 {
        Seq::empty()
    } else {
        let rest = pools_in(accounts.drop_last());
        match accounts.last() {
            Some(data) => match unpacked(data) {
                Ok(pool) => rest.push(pool),
                Err(_) => rest,
            },
            None => rest,
        }
    }
}

/// How many batches some number of addresses takes.
pub open spec fn batch_count(len: nat) -> nat {
    (len + RPC_BATCH_SIZE - 1) as nat / RPC_BATCH_SIZE as nat
}

/// Where the batch with this index ends, in a list of `len` addresses.
pub open spec fn batch_end(len: nat, index: nat) -> nat {
    let end = (index + 1) * RPC_BATCH_SIZE as nat;
    if end <= len {
        end
    } else {
        len
    }
}

/// The batch with this index.
pub open spec fn batch<T>(keys: Seq<T>, index: nat) -> Seq<T> {
    keys.subrange(index * RPC_BATCH_SIZE as int, batch_end(keys.len(), index) as int)
}

/// The first batches one after the other.
pub open spec fn first_batches<T>(keys: Seq<T>, count: nat) -> Seq<T>
    decreases count,
{
    if count == 0 {
        Seq::empty()
    } else {
        first_batches(keys, (count - 1) as nat) + batch(keys, (count - 1) as nat)
    }
}

/// How far the reading has come.
pub ghost struct FetchState {
    pub keys: Seq<Pubkey>,
    pub done: nat,
    pub pools: Seq<SwapLayout>,
}

impl FetchState {
    /// The start.
    pub open spec fn start(keys: Seq<Pubkey>) -> Self {
        FetchState { keys, done: 0, pools: Seq::empty() }
    }

    /// After the accounts of a batch came.
    pub open spec fn absorbed(self, accounts: Seq<Option<Seq<u8>>>) -> Self {
        FetchState { done: self.done + 1, pools: self.pools + pools_in(accounts), ..self }
    }

    /// After a batch was asked for. Where that failed there is only the number of the batch,
    /// counting from one, and the cause.
    pub open spec fn answered<E>(self, reply: Result<Seq<Option<Seq<u8>>>, E>) -> Result<
        Self,
        (nat, E),
    > {
        match reply {
            Ok(accounts) => Ok(self.absorbed(accounts)),
            Err(cause) => Err((self.done + 1, cause)),
        }
    }
}

/// A batch could not be read, which ends the reading.
#[derive(Debug)]
pub struct BatchFailure<E> {
    /// The number of the batch, counting from one.
    pub number: usize,
    pub cause: E,
}

/// What came of asking for a batch, with the accounts as sequences of bytes.
pub open spec fn reply_of<E>(reply: Result<Vec<Option<Vec<u8>>>, E>) -> Result<
    Seq<Option<Seq<u8>>>,
    E,
> {
    match reply {
        Ok(accounts) => Ok(replied(accounts@)),
        Err(cause) => Err(cause),
    }
}

/// The reading of the accounts behind a list of addresses.
pub struct PoolFetch {
    keys: Vec<Pubkey>,
    done: usize,
    pools: Vec<TokenSwapLayout>,
}

impl View for PoolFetch {
    type V = FetchState;

    closed spec fn view(&self) -> FetchState {
        FetchState { keys: self.keys@, done: self.done as nat, pools: layouts(self.pools@) }
    }
}

impl PoolFetch {
    /// No more batches were read than there are.
    pub open spec fn well_formed(self) -> bool {
        self@.done <= batch_count(self@.keys.len())
    }

    /// Starts with the first batch.
    pub fn new(keys: Vec<Pubkey>) -> (fetch: Self)
        ensures
            fetch.well_formed(),
            fetch@ == FetchState::start(keys@),
    {
        let fetch = PoolFetch { keys, done: 0, pools: Vec::new() };
        assert(fetch@.pools =~= Seq::empty());
        fetch
    }

    /// How many batches there are.
    pub fn total_batches(&self) -> (n: usize)
        ensures
            n == batch_count(self@.keys.len()),
    {
        let len: usize = self.keys.len();
        if len % RPC_BATCH_SIZE == 0 {
            len / RPC_BATCH_SIZE
        } else {
            len / RPC_BATCH_SIZE + 1
        }
    }

    /// How many batches were read.
    pub fn batches_done(&self) -> (n: usize)
        ensures
            n == self@.done,
    {
        self.done
    }

    /// The addresses to ask for next.
    pub fn next_batch(&self) -> (keys: Option<Vec<Pubkey>>)
        requires
            self.well_formed(),
        ensures
            keys is Some <==> self@.done < batch_count(self@.keys.len()),
            keys matches Some(list) ==> list@ == batch(self@.keys, self@.done),
    {
        let len: usize = self.keys.len();
        if self.done >= self.total_batches() {
            return None;
        }
        let start: usize = self.done * RPC_BATCH_SIZE;
        let end: usize = if len - start >= RPC_BATCH_SIZE {
            start + RPC_BATCH_SIZE
        } else {
            len
        };
        let mut list: Vec<Pubkey> = Vec::new();
        let mut i: usize = start;
        while i < end
            invariant
                start <= i <= end <= self.keys@.len(),
                list@ == self.keys@.subrange(start as int, i as int),
            decreases end - i,
        {
            list.push(self.keys[i]);
            i = i + 1;
        }
        Some(list)
    }

    /// Takes the reply to a batch: keeps the pools that its accounts hold and passes over the
    /// rest, saying what became of each account.
    pub fn absorb(&mut self, accounts: &Vec<Option<Vec<u8>>>) -> (outcomes: Vec<AccountOutcome>)
        requires
            old(self).well_formed(),
            old(self)@.done < batch_count(old(self)@.keys.len()),
            none_too_long(replied(accounts@)),
        ensures
            final(self).well_formed(),
            final(self)@ == old(self)@.absorbed(replied(accounts@)),
            outcomes@ == replied(accounts@).map_values(
                |account: Option<Seq<u8>>| outcome_of(account),
            ),
            final(self)@.keys == old(self)@.keys,
            final(self)@.done == old(self)@.done + 1,
            final(self)@.pools.len() == old(self)@.pools.len() + outcomes@.filter(
                |outcome: AccountOutcome| outcome == AccountOutcome::Unpacked,
            ).len(),
    {
        let ghost all = replied(accounts@);
        let ghost before = *self;
        let mut outcomes: Vec<AccountOutcome> = Vec::new();
        let len: usize = accounts.len();
        let mut i: usize = 0;
        proof {
            assert(all.take(0) =~= Seq::empty());
            assert(layouts(self.pools@) =~= layouts(before.pools@) + pools_in(all.take(0)));
        }
        while i < len
            invariant
                i <= len,
                len == accounts@.len(),
                all == replied(accounts@),
                none_too_long(all),
                self.keys@ == before.keys@,
                self.done == before.done,
                layouts(self.pools@) == layouts(before.pools@) + pools_in(all.take(i as int)),
                outcomes@.len() == i,
                forall|j: int| 0 <= j < i ==> #[trigger] outcomes@[j] == outcome_of(all[j]),
            decreases len - i,
        {
            proof {
                let next = all.take(i + 1);
                assert(next.drop_last() =~= all.take(i as int));
                assert(next.last() == all[i as int]);
            }
            let ghost kept = self.pools@;
            match &accounts[i] {
                Some(data) => {
                    assert(all[i as int] == Some(data@));
                    match unpack_from_slice(data.as_slice()) {
                        Ok(pool) => {
                            self.pools.push(pool);
                            assert(layouts(self.pools@) =~= layouts(kept).push(pool@));
                            outcomes.push(AccountOutcome::Unpacked);
                        },
                        Err(error) => {
                            outcomes.push(AccountOutcome::Unreadable(error));
                        },
                    }
                },
                None => {
                    assert(all[i as int] is None);
                    outcomes.push(AccountOutcome::Missing);
                },
            }
            i = i + 1;
        }
        assert(self.done < self.keys.len());
        self.done = self.done + 1;
        proof {
            assert(all.take(len as int) =~= all);
            assert(outcomes@ =~= all.map_values(
                |account: Option<Seq<u8>>| outcome_of(account),
            ));
            law_outcomes_count_the_pools(all);
        }
        outcomes
    }

    /// Goes on after a batch was asked for, saying what became of each account. Where that
    /// failed the reading ends: nothing is left to ask for the next batch, nor any pools.
    pub fn on_reply<E>(self, reply: Result<Vec<Option<Vec<u8>>>, E>) -> (r: Result<
        (PoolFetch, Vec<AccountOutcome>),
        BatchFailure<E>,
    >)
        requires
            self.well_formed(),
            self@.done < batch_count(self@.keys.len()),
            reply matches Ok(accounts) ==> none_too_long(replied(accounts@)),
        ensures
            match self@.answered(reply_of(reply)) {
                Ok(state) => r matches Ok(next) && next.0.well_formed() && next.0@ == state
                    && next.1@ == replied(reply->Ok_0@).map_values(
                    |account: Option<Seq<u8>>| outcome_of(account),
                ),
                Err((number, cause)) => r matches Err(failure) && failure.number == number
                    && failure.cause == cause,
            },
            reply matches Ok(accounts) ==> (r matches Ok(next) && next.0@ == self@.absorbed(
                replied(accounts@),
            )),
            reply matches Err(cause) ==> (r matches Err(failure) && failure.number == self@.done + 1
                && failure.cause == cause),
    {
        let mut fetch = self;
        match reply {
            Ok(accounts) => {
                let outcomes = fetch.absorb(&accounts);
                Ok((fetch, outcomes))
            },
            Err(cause) => {
                assert(fetch.done < fetch.keys.len());
                Err(BatchFailure { number: fetch.done + 1, cause })
            },
        }
    }

    /// The pools that were read.
    pub fn into_pools(self) -> (pools: Vec<TokenSwapLayout>)
        ensures
            layouts(pools@) == self@.pools,
    {
        self.pools
    }
}

proof fn lemma_first_batches<T>(keys: Seq<T>, count: nat)
    requires
        count <= batch_count(keys.len()),
    ensures
        count > 0 ==> first_batches(keys, count) == keys.take(
            batch_end(keys.len(), (count - 1) as nat) as int,
        ),
    decreases count,
{
    if count > 1 {
        lemma_first_batches(keys, (count - 1) as nat);
        assert(first_batches(keys, count) =~= keys.take(
            batch_end(keys.len(), (count - 1) as nat) as int,
        ));
    } else if count == 1 {
        assert(first_batches(keys, 0) =~= Seq::<T>::empty());
        assert(first_batches(keys, count) =~= keys.take(batch_end(keys.len(), 0) as int));
    }
}

/// All batches together ask for every address exactly once, in the order of the list, and no
/// batch is empty or larger than a request may be.
pub proof fn law_batches_cover_the_list<T>(keys: Seq<T>)
    ensures
        first_batches(keys, batch_count(keys.len())) == keys,
        forall|index: nat|
            index < batch_count(keys.len()) ==> 0 < (#[trigger] batch(keys, index)).len()
                <= RPC_BATCH_SIZE,
{
    let count = batch_count(keys.len());
    lemma_first_batches(keys, count);
    if count > 0 {
        assert(keys.take(keys.len() as int) =~= keys);
    } else {
        assert(first_batches(keys, 0) =~= keys);
    }
}

/// How the accounts are spread over replies makes no difference to the pools that are read.
pub proof fn law_replies_may_be_split(a: Seq<Option<Seq<u8>>>, b: Seq<Option<Seq<u8>>>)
    ensures
        pools_in(a + b) == pools_in(a) + pools_in(b),
    decreases b.len(),
{
    if b.len() == 0 {
        assert(a + b =~= a);
    } else {
        law_replies_may_be_split(a, b.drop_last());
        assert((a + b).drop_last() =~= a + b.drop_last());
        assert(pools_in(a + b) =~= pools_in(a) + pools_in(b));
    }
}

/// The pools that are read from the first batches, where `account` is the data behind an
/// address.
pub open spec fn pools_of_batches<T>(
    keys: Seq<T>,
    account: spec_fn(T) -> Option<Seq<u8>>,
    count: nat,
) -> Seq<SwapLayout>
    decreases count,
{
    if count == 0 {
        Seq::empty()
    } else {
        pools_of_batches(keys, account, (count - 1) as nat) + pools_in(
            batch(keys, (count - 1) as nat).map_values(account),
        )
    }
}

proof fn lemma_pools_of_batches<T>(
    keys: Seq<T>,
    account: spec_fn(T) -> Option<Seq<u8>>,
    count: nat,
)
    ensures
        pools_of_batches(keys, account, count) == pools_in(
            first_batches(keys, count).map_values(account),
        ),
    decreases count,
{
    if count > 0 {
        let before = (count - 1) as nat;
        let a = first_batches(keys, before).map_values(account);
        let b = batch(keys, before).map_values(account);
        lemma_pools_of_batches(keys, account, before);
        law_replies_may_be_split(a, b);
        assert(first_batches(keys, count).map_values(account) =~= a + b);
    }
}

/// Reading all batches gives the pools of all addresses, in the order of the list, as one
/// request for the whole list would.
pub proof fn law_batching_makes_no_difference<T>(
    keys: Seq<T>,
    account: spec_fn(T) -> Option<Seq<u8>>,
)
    ensures
        pools_of_batches(keys, account, batch_count(keys.len())) == pools_in(
            keys.map_values(account),
        ),
{
    law_batches_cover_the_list(keys);
    lemma_pools_of_batches(keys, account, batch_count(keys.len()));
}

/// Where the reading stands after some batches were asked for, from the start.
pub open spec fn after_replies<E>(
    keys: Seq<Pubkey>,
    replies: Seq<Result<Seq<Option<Seq<u8>>>, E>>,
) -> Result<FetchState, (nat, E)>
    decreases replies.len(),
{
    if replies.len() == 0 {
        Ok(FetchState::start(keys))
    } else {
        match after_replies(keys, replies.drop_last()) {
            Ok(state) => state.answered(replies.last()),
            Err(failure) => Err(failure),
        }
    }
}

/// The accounts of some replies one after the other.
pub open spec fn accounts_in<E>(replies: Seq<Result<Seq<Option<Seq<u8>>>, E>>) -> Seq<
    Option<Seq<u8>>,
>
    decreases replies.len(),
{
    if replies.len() == 0 {
        Seq::empty()
    } else {
        match replies.last() {
            Ok(accounts) => accounts_in(replies.drop_last()) + accounts,
            Err(_) => accounts_in(replies.drop_last()),
        }
    }
}

/// The reading gives pools exactly when no batch failed, and then those of all replies. Else
/// the outcome is the number and the cause of the first batch that failed, whatever was read
/// before.
pub proof fn law_a_failed_batch_ends_the_reading<E>(
    keys: Seq<Pubkey>,
    replies: Seq<Result<Seq<Option<Seq<u8>>>, E>>,
)
    ensures
        match after_replies(keys, replies) {
            Ok(state) => {
                &&& forall|i: int| 0 <= i < replies.len() ==> #[trigger] replies[i] is Ok
                &&& state.keys == keys
                &&& state.done == replies.len()
                &&& state.pools == pools_in(accounts_in(replies))
            },
            Err((number, cause)) => {
                &&& 1 <= number <= replies.len()
                &&& replies[number - 1] == Err::<Seq<Option<Seq<u8>>>, E>(cause)
                &&& forall|i: int| 0 <= i < number - 1 ==> #[trigger] replies[i] is Ok
            },
        },
    decreases replies.len(),
{
    if replies.len() > 0 {
        let rest = replies.drop_last();
        law_a_failed_batch_ends_the_reading(keys, rest);
        assert(forall|i: int| 0 <= i < rest.len() ==> rest[i] == #[trigger] replies[i]);
        if let Ok(accounts) = replies.last() {
            law_replies_may_be_split(accounts_in(rest), accounts);
        }
    }
}

/// The account exists and has the data of a whole pool.
pub open spec fn is_whole(account: Option<Vec<u8>>) -> bool {
    account matches Some(data) && data@.len() == 324
}

/// Every account with whole data gives exactly one pool, the one that its data holds, whatever
/// the data is; no other account gives any; and the pools keep the order of their accounts.
pub proof fn law_every_whole_account_gives_its_pool(accounts: Seq<Option<Vec<u8>>>)
    requires
        forall|i: int|
            0 <= i < accounts.len() ==> match #[trigger] accounts[i] {
                Some(data) => data@.len() <= 324,
                None => true,
            },
    ensures
        none_too_long(replied(accounts)),
        pools_in(replied(accounts)) == accounts.filter(
            |account: Option<Vec<u8>>| is_whole(account),
        ).map_values(|account: Option<Vec<u8>>| unpacked(account->Some_0@)->Ok_0),
    decreases accounts.len(),
{
    reveal(Seq::filter);
    let pool = |account: Option<Vec<u8>>| unpacked(account->Some_0@)->Ok_0;
    let kept = accounts.filter(|account: Option<Vec<u8>>| is_whole(account)).map_values(pool);
    if accounts.len() == 0 {
        assert(pools_in(replied(accounts)) =~= kept);
    } else {
        let rest = accounts.drop_last();
        assert(forall|i: int| 0 <= i < rest.len() ==> rest[i] == #[trigger] accounts[i]);
        law_every_whole_account_gives_its_pool(rest);
        assert(replied(accounts).drop_last() =~= replied(rest));
        assert(accounts[accounts.len() - 1] == accounts.last());
        let before = rest.filter(|account: Option<Vec<u8>>| is_whole(account));
        if is_whole(accounts.last()) {
            assert(before.push(accounts.last()).map_values(pool) =~= before.map_values(pool).push(
                pool(accounts.last()),
            ));
        }
        assert(pools_in(replied(accounts)) =~= kept);
    }
}

/// What is said of each account of a reply: it is missing where there is none, its pool was
/// read where its data is whole, and it is unreadable where its data is too short.
pub proof fn law_every_account_has_its_outcome(accounts: Seq<Option<Vec<u8>>>, i: int)
    requires
        0 <= i < accounts.len(),
        accounts[i] matches Some(data) ==> data@.len() <= 324,
    ensures
        replied(accounts).len() == accounts.len(),
        outcome_of(replied(accounts)[i]) == (match accounts[i] {
            None => AccountOutcome::Missing,
            Some(data) => if data@.len() == 324 {
                AccountOutcome::Unpacked
            } else {
                AccountOutcome::Unreadable(ProgramError::InvalidAccountData)
            },
        }),
{
}

/// There are as many pools as accounts that are said to have given one.
pub proof fn law_outcomes_count_the_pools(accounts: Seq<Option<Seq<u8>>>)
    ensures
        pools_in(accounts).len() == accounts.map_values(
            |account: Option<Seq<u8>>| outcome_of(account),
        ).filter(|outcome: AccountOutcome| outcome == AccountOutcome::Unpacked).len(),
    decreases accounts.len(),
{
    reveal(Seq::filter);
    if accounts.len() > 0 {
        let rest = accounts.drop_last();
        law_outcomes_count_the_pools(rest);
        assert(accounts.map_values(
            |account: Option<Seq<u8>>| outcome_of(account),
        ).drop_last() =~= rest.map_values(|account: Option<Seq<u8>>| outcome_of(account)));
    }
}

/// A reply adds the pools of its accounts after those read before and counts one batch, or
/// ends the reading with the number of its batch; it changes nothing else.
pub proof fn law_a_reply_counts_one_batch<E>(
    state: FetchState,
    reply: Result<Seq<Option<Seq<u8>>>, E>,
)
    ensures
        match reply {
            Ok(accounts) => {
                &&& state.answered(reply) == Ok::<FetchState, (nat, E)>(state.absorbed(accounts))
                &&& state.absorbed(accounts).keys == state.keys
                &&& state.absorbed(accounts).done == state.done + 1
                &&& state.absorbed(accounts).pools == state.pools + pools_in(accounts)
            },
            Err(cause) => state.answered(reply) == Err::<FetchState, (nat, E)>(
                ((state.done + 1) as nat, cause),
            ),
        },
{
}

/// Each batch is the run of a hundred addresses that follows the batches before it; only the
/// last one may be shorter, and there is none more than needed.
pub proof fn law_batches_are_runs_of_a_hundred<T>(keys: Seq<T>, index: nat, j: int)
    requires
        index < batch_count(keys.len()),
    ensures
        batch_count(keys.len()) * 100 >= keys.len(),
        (batch_count(keys.len()) - 1) * 100 < keys.len(),
        index + 1 < batch_count(keys.len()) ==> batch(keys, index).len() == 100,
        index + 1 == batch_count(keys.len()) ==> batch(keys, index).len() == keys.len() - index
            * 100,
        0 <= j < batch(keys, index).len() ==> batch(keys, index)[j] == keys[index * 100 + j],
{
}

} // verus!

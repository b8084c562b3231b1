//! Pool shares as multi-token balances: each pool's shares are a token
//! whose id is the pool id in decimal.
use vstd::prelude::*;
use vstd::string::StrSliceExecFns;
use crate::naming::{decimal, decimal_of};
use crate::registry::{CallContext, Contract, RegistryError, ONE_YOCTO};

verus! {

/// A transfer whose receiver is to be told (`mt_on_transfer`), then
/// `mt_resolve_transfer`.
pub struct MtTransferCall {
    pub receiver_id: String,
    pub sender_id: String,
    pub previous_owner_ids: Vec<String>,
    pub token_ids: Vec<String>,
    pub amounts: Vec<u128>,
    pub msg: String,
}

/// The smallest of three numbers.
pub open spec fn min3(a: int, b: int, c: int) -> int {
    if a <= b && a <= c {
        a
    } else if b <= c {
        b
    } else {
        c
    }
}

/// A pool-share token.
pub struct Token {
    pub token_id: String,
    pub owner_id: Option<String>,
}

/// The value of the decimal digit `c`, if it is one.
pub open spec fn digit_value(c: char) -> Option<int> {
    if '0' <= c <= '9' {
        Some(c as int - '0' as int)
    } else {
        None
    }
}

/// The number that the digits `s` spell, or `None` where one is not a digit.
pub open spec fn digits_value(s: Seq<char>) -> Option<int>
    decreases s.len(),
{
    if s.len() == 0 {
        Some(0)
    } else {
        match (digits_value(s.drop_last()), digit_value(s.last())) {
            (Some(v), Some(d)) => Some(v * 10 + d),
            _ => None,
        }
    }
}

/// What `u32`'s `from_str` makes of `s`: an optional `+`, then at least one
/// digit, with a value that fits.
pub open spec fn parsed_u32(s: Seq<char>) -> Option<u32> {
    let t = if s.len() > 0 && s[0] == '+' {
        s.drop_first()
    } else {
        s
    };
    if t.len() == 0 {
        None
    } else {
        match digits_value(t) {
            Some(v) => if v <= u32::MAX {
                Some(v as u32)
            } else {
                None
            },
            None => None,
        }
    }
}

proof fn lemma_digits_nonneg(s: Seq<char>)
    ensures
        digits_value(s) matches Some(v) ==> v >= 0,
    decreases s.len(),
{
    if s.len() > 0 {
        lemma_digits_nonneg(s.drop_last());
        if let (Some(v), Some(d)) = (digits_value(s.drop_last()), digit_value(s.last())) {
            assert(v * 10 + d >= 0) by (nonlinear_arith)
                requires
                    v >= 0,
                    d >= 0,
            ;
        }
    }
}

/// The decimal value of `s`, as `u32`'s `from_str` reads it.
pub fn parse_u32(s: &String) -> (r: Option<u32>)
    ensures
        r == parsed_u32(s@),
{
    let text = s.as_str();
    let n = text.unicode_len();
    let mut start: usize = 0;
    if n > 0 && text.get_char(0) == '+' {
        start = 1;
    }
    let ghost t = if s@.len() > 0 && s@[0] == '+' {
        s@.drop_first()
    } else {
        s@
    };
    assert(t =~= s@.subrange(start as int, n as int));
    if start >= n {
        return None;
    }
    let mut value: u64 = 0;
    let mut i: usize = start;
    while i < n
        invariant
            start < n,
            start <= i <= n,
            n == s@.len(),
            text@ == s@,
            t =~= s@.subrange(start as int, n as int),
            t == (if s@.len() > 0 && s@[0] == '+' { s@.drop_first() } else { s@ }),
            value <= u32::MAX,
            digits_value(s@.subrange(start as int, i as int)) == Some(value as int),
        decreases n - i,
    {
        let c = text.get_char(i);
        let ghost prefix = s@.subrange(start as int, i + 1);
        proof {
            assert(prefix.drop_last() =~= s@.subrange(start as int, i as int));
            assert(prefix.last() == c);
            assert(t.subrange(0, i + 1 - start) =~= prefix);
            assert(t[i - start] == c);
        }
        if c < '0' || c > '9' {
            proof {
                lemma_no_digits_after_bad(t, (i - start) as int);
            }
            return None;
        }
        let d = (c as u32 - '0' as u32) as u64;
        assert(digit_value(c) == Some(d as int));
        value = value * 10 + d;
        assert(digits_value(prefix) == Some(value as int));
        if value > 0xffff_ffffu64 {
            proof {
                lemma_digits_grow(t, (i + 1 - start) as int);
            }
            return None;
        }
        i = i + 1;
    }
    assert(s@.subrange(start as int, n as int) =~= t);
    Some(value as u32)
}

proof fn lemma_no_digits_after_bad(s: Seq<char>, i: int)
    requires
        0 <= i < s.len(),
        digit_value(s[i]) is None,
    ensures
        digits_value(s) is None,
    decreases s.len(),
{
    if i < s.len() - 1 {
        assert(s.drop_last()[i] == s[i]);
        lemma_no_digits_after_bad(s.drop_last(), i);
    }
}

proof fn lemma_digits_grow(s: Seq<char>, k: int)
    requires
        0 < k <= s.len(),
        digits_value(s.subrange(0, k)) matches Some(v) && v > u32::MAX,
    ensures
        !(digits_value(s) matches Some(w) && w <= u32::MAX),
    decreases s.len() - k,
{
    if k < s.len() {
        let p = s.subrange(0, k + 1);
        assert(p.drop_last() =~= s.subrange(0, k));
        lemma_digits_nonneg(s.subrange(0, k));
        if let Some(d) = digit_value(p.last()) {
            let v = digits_value(s.subrange(0, k))->Some_0;
            assert(v * 10 + d > u32::MAX) by (nonlinear_arith)
                requires
                    v > u32::MAX,
                    d >= 0,
            ;
            lemma_digits_grow(s, k + 1);
        } else {
            lemma_no_digits_after_bad(s, k);
        }
    } else {
        assert(s.subrange(0, k) =~= s);
    }
}

impl Contract {
    /// The pool whose share token is `t`, if it exists.
    pub open spec fn token_pool(&self, t: Seq<char>) -> Option<int> {
        match parsed_u32(t) {
            Some(v) => if (v as int) < self.pools@.len() {
                Some(v as int)
            } else {
                None
            },
            None => None,
        }
    }

    /// The pool id that share token `token_id` names.
    pub fn get_pool_id_from_token_id(&self, token_id: &String) -> (r: Option<u32>)
        ensures
            r == parsed_u32(token_id@),
    {
        parse_u32(token_id)
    }

    /// The share token of pool `pool_id`.
    pub fn get_pool_share_token_id(&self, pool_id: u32) -> (r: String)
        ensures
            r@ == decimal_of(pool_id as nat),
    {
        decimal(pool_id)
    }

    fn pool_of_token(&self, token_id: &String) -> (r: Result<usize, RegistryError>)
        ensures
            match self.token_pool(token_id@) {
                Some(p) => r == Ok::<usize, RegistryError>(p as usize),
                None => r == Err::<usize, RegistryError>(RegistryError::NotFound),
            },
    {
        match parse_u32(token_id) {
            Some(v) => if (v as usize) < self.pools.len() {
                Ok(v as usize)
            } else {
                Err(RegistryError::NotFound)
            },
            None => Err(RegistryError::NotFound),
        }
    }

    /// The shares of token `token_id` that `account_id` holds.
    pub fn mt_balance_of(&self, account_id: &String, token_id: &String) -> (r: Result<u128, RegistryError>)
        requires
            self.wf(),
        ensures
            match self.token_pool(token_id@) {
                Some(p) => r == Ok::<u128, RegistryError>(self.pools@[p].shares_of(account_id@) as u128),
                None => r == Err::<u128, RegistryError>(RegistryError::NotFound),
            },
    {
        let p = match self.pool_of_token(token_id) {
            Ok(p) => p,
            Err(e) => {
                return Err(e);
            },
        };
        proof {
            assert(self.pools@[p as int].wf());
        }
        Ok(self.pools[p].shares.get(account_id))
    }

    /// The shares of each of `token_ids` that `account_id` holds.
    pub fn mt_batch_balance_of(&self, account_id: &String, token_ids: &Vec<String>) -> (r: Result<Vec<u128>, RegistryError>)
        requires
            self.wf(),
        ensures
            (forall|i: int| 0 <= i < token_ids@.len() ==> #[trigger] self.token_pool(token_ids@[i]@) is Some) <==> r is Ok,
            r is Err ==> r == Err::<Vec<u128>, RegistryError>(RegistryError::NotFound),
            r matches Ok(v) ==> v@.len() == token_ids@.len() && forall|i: int| 0 <= i < v@.len() ==>
                #[trigger] v@[i] == self.pools@[self.token_pool(token_ids@[i]@)->Some_0].shares_of(account_id@) as u128,
    {
        let mut out: Vec<u128> = Vec::new();
        let mut i: usize = 0;
        while i < token_ids.len()
            invariant
                self.wf(),
                i <= token_ids@.len(),
                out@.len() == i,
                forall|j: int| 0 <= j < i ==> #[trigger] self.token_pool(token_ids@[j]@) is Some,
                forall|j: int| 0 <= j < i ==> #[trigger] out@[j] == self.pools@[self.token_pool(token_ids@[j]@)->Some_0].shares_of(account_id@) as u128,
            decreases token_ids@.len() - i,
        {
            match self.mt_balance_of(account_id, &token_ids[i]) {
                Ok(b) => out.push(b),
                Err(e) => {
                    return Err(e);
                },
            }
            i = i + 1;
        }
        Ok(out)
    }

    /// The total supply of share token `token_id`, if its pool exists.
    pub fn mt_supply(&self, token_id: &String) -> (r: Option<u128>)
        ensures
            match self.token_pool(token_id@) {
                Some(p) => r == Some(self.pools@[p].shares_total_supply),
                None => r is None,
            },
    {
        match self.pool_of_token(token_id) {
            Ok(p) => Some(self.pools[p].shares_total_supply),
            Err(_) => None,
        }
    }

    /// The total supply of each of `token_ids`.
    pub fn mt_batch_supply(&self, token_ids: &Vec<String>) -> (r: Vec<Option<u128>>)
        ensures
            r@.len() == token_ids@.len(),
            forall|i: int| 0 <= i < r@.len() ==> #[trigger] r@[i] == match self.token_pool(token_ids@[i]@) {
                Some(p) => Some(self.pools@[p].shares_total_supply),
                None => None,
            },
    {
        let mut out: Vec<Option<u128>> = Vec::new();
        let mut i: usize = 0;
        while i < token_ids.len()
            invariant
                i <= token_ids@.len(),
                out@.len() == i,
                forall|j: int| 0 <= j < i ==> #[trigger] out@[j] == match self.token_pool(token_ids@[j]@) {
                    Some(p) => Some(self.pools@[p].shares_total_supply),
                    None => None,
                },
            decreases token_ids@.len() - i,
        {
            out.push(self.mt_supply(&token_ids[i]));
            i = i + 1;
        }
        out
    }

    /// Each of `token_ids` that names an existing pool, as a token.
    pub fn mt_token(&self, token_ids: Vec<String>) -> (r: Vec<Option<Token>>)
        ensures
            r@.len() == token_ids@.len(),
            forall|i: int| 0 <= i < r@.len() ==> (self.token_pool(token_ids@[i]@) is Some <==> #[trigger] r@[i] is Some),
            forall|i: int| 0 <= i < r@.len() ==> (#[trigger] r@[i] matches Some(t) ==> t.token_id@ == token_ids@[i]@ && t.owner_id is None),
    {
        let mut out: Vec<Option<Token>> = Vec::new();
        let mut i: usize = 0;
        while i < token_ids.len()
            invariant
                i <= token_ids@.len(),
                out@.len() == i,
                forall|j: int| 0 <= j < i ==> (self.token_pool(token_ids@[j]@) is Some <==> #[trigger] out@[j] is Some),
                forall|j: int| 0 <= j < i ==> (#[trigger] out@[j] matches Some(t) ==> t.token_id@ == token_ids@[j]@ && t.owner_id is None),
            decreases token_ids@.len() - i,
        {
            match self.pool_of_token(&token_ids[i]) {
                Ok(_) => out.push(Some(Token { token_id: token_ids[i].clone(), owner_id: None })),
                Err(_) => out.push(None),
            }
            i = i + 1;
        }
        out
    }

    /// The share tokens of up to `limit` (50 by default) pools, from pool
    /// `from_index` (0 by default) on.
    pub fn mt_tokens(&self, from_index: Option<u128>, limit: Option<u32>) -> (r: Vec<Token>)
        requires
            self.wf(),
        ensures
            ({
                let from = match from_index { Some(f) => f as int, None => 0 };
                let lim = match limit { Some(l) => l as int, None => 50 };
                let n = self.pools@.len() as int;
                &&& r@.len() == if from >= n { 0 } else if n - from < lim { n - from } else { lim }
                &&& forall|j: int| 0 <= j < r@.len() ==> (#[trigger] r@[j]).token_id@ == decimal_of((from + j) as nat)
                    && r@[j].owner_id is None
            }),
    {
        let from: u128 = match from_index {
            Some(f) => f,
            None => 0,
        };
        let lim: u32 = match limit {
            Some(l) => l,
            None => 50,
        };
        let mut tokens: Vec<Token> = Vec::new();
        if from >= self.pools.len() as u128 {
            return tokens;
        }
        let mut pool_id: usize = from as usize;
        while pool_id < self.pools.len() && (tokens.len() as u32) < lim
            invariant
                from <= pool_id <= self.pools@.len(),
                self.pools@.len() <= u32::MAX,
                tokens@.len() == pool_id - from,
                tokens@.len() <= lim,
                forall|j: int| 0 <= j < tokens@.len() ==> (#[trigger] tokens@[j]).token_id@ == decimal_of((from + j) as nat)
                    && tokens@[j].owner_id is None,
            decreases self.pools@.len() - pool_id,
        {
            tokens.push(Token { token_id: decimal(pool_id as u32), owner_id: None });
            pool_id = pool_id + 1;
        }
        tokens
    }

    /// The pools below `n`, from `from` on, in which `a` holds shares.
    pub open spec fn owned_pools(&self, a: Seq<char>, from: int, n: int) -> Seq<int>
        decreases n,
    {
        if n <= 0 {
            Seq::empty()
        } else if n - 1 >= from && self.pools@[n - 1].shares_of(a) > 0 {
            self.owned_pools(a, from, n - 1).push(n - 1)
        } else {
            self.owned_pools(a, from, n - 1)
        }
    }

    proof fn lemma_owned_prefix(&self, a: Seq<char>, from: int, n: int, m: int)
        requires
            0 <= n <= m,
        ensures
            self.owned_pools(a, from, n).len() <= self.owned_pools(a, from, m).len(),
            self.owned_pools(a, from, m).subrange(0, self.owned_pools(a, from, n).len() as int)
                == self.owned_pools(a, from, n),
        decreases m - n,
    {
        if n < m {
            self.lemma_owned_prefix(a, from, n, m - 1);
            let small = self.owned_pools(a, from, n);
            let mid = self.owned_pools(a, from, m - 1);
            let big = self.owned_pools(a, from, m);
            assert(big.subrange(0, small.len() as int) =~= mid.subrange(0, small.len() as int));
        } else {
            assert(self.owned_pools(a, from, m).subrange(0, self.owned_pools(a, from, n).len() as int)
                =~= self.owned_pools(a, from, n));
        }
    }

    /// The share tokens of up to `limit` (50 by default) pools in which
    /// `account_id` holds shares, skipping pools below `from_index`.
    pub fn mt_tokens_for_owner(&self, account_id: &String, from_index: Option<u128>, limit: Option<u32>) -> (r: Vec<Token>)
        requires
            self.wf(),
        ensures
            ({
                let from = match from_index { Some(f) => f as int, None => 0 };
                let lim = match limit { Some(l) => l as int, None => 50 };
                let owned = self.owned_pools(account_id@, from, self.pools@.len() as int);
                &&& r@.len() == if owned.len() < lim { owned.len() as int } else { lim }
                &&& forall|j: int| 0 <= j < r@.len() ==> (#[trigger] r@[j]).token_id@ == decimal_of(owned[j] as nat)
                    && r@[j].owner_id is None
            }),
    {
        let from: u128 = match from_index {
            Some(f) => f,
            None => 0,
        };
        let lim: u32 = match limit {
            Some(l) => l,
            None => 50,
        };
        let ghost n = self.pools@.len() as int;
        let mut tokens: Vec<Token> = Vec::new();
        let mut pool_id: usize = 0;
        while pool_id < self.pools.len() && (tokens.len() as u32) < lim
            invariant
                self.wf(),
                pool_id <= self.pools@.len(),
                tokens@.len() <= lim,
                tokens@.len() == self.owned_pools(account_id@, from as int, pool_id as int).len(),
                forall|j: int| 0 <= j < tokens@.len() ==> (#[trigger] tokens@[j]).token_id@
                    == decimal_of(self.owned_pools(account_id@, from as int, pool_id as int)[j] as nat)
                    && tokens@[j].owner_id is None,
            decreases self.pools@.len() - pool_id,
        {
            proof {
                assert(self.pools@[pool_id as int].wf());
            }
            let ghost before = self.owned_pools(account_id@, from as int, pool_id as int);
            if pool_id as u128 >= from && self.pools[pool_id].shares.get(account_id) > 0 {
                tokens.push(Token { token_id: decimal(pool_id as u32), owner_id: None });
                proof {
                    assert(self.owned_pools(account_id@, from as int, pool_id + 1) == before.push(pool_id as int));
                }
            }
            pool_id = pool_id + 1;
        }
        proof {
            let owned = self.owned_pools(account_id@, from as int, n);
            self.lemma_owned_prefix(account_id@, from as int, pool_id as int, n);
            let part = self.owned_pools(account_id@, from as int, pool_id as int);
            assert forall|j: int| 0 <= j < tokens@.len() implies owned[j] == part[j] by {
                assert(owned.subrange(0, part.len() as int)[j] == owned[j]);
            }
            if pool_id < n {
                assert(tokens@.len() == lim);
            } else {
                assert(part == owned);
            }
        }
        tokens
    }

    /// Moves `amount` of share token `token_id` from `sender_id` to `receiver_id`.
    pub fn internal_mt_transfer(&mut self, sender_id: &String, receiver_id: &String, token_id: &String, amount: u128) -> (r:
        Result<(), RegistryError>)
        requires
            old(self).wf(),
        ensures
            final(self).wf(),
            amount == 0 ==> r == Err::<(), RegistryError>(RegistryError::InvalidArgument) && *final(self) == *old(self),
            amount > 0 ==> match old(self).token_pool(token_id@) {
                None => r == Err::<(), RegistryError>(RegistryError::NotFound) && *final(self) == *old(self),
                Some(p) => if old(self).pools@[p].shares_of(sender_id@) < amount {
                    r == Err::<(), RegistryError>(RegistryError::InsufficientBalance) && *final(self) == *old(self)
                } else {
                    &&& r is Ok
                    &&& final(self).moved(old(self), p, sender_id@, receiver_id@, amount as int)
                },
            },
    {
        if amount == 0 {
            return Err(RegistryError::InvalidArgument);
        }
        let p = match self.pool_of_token(token_id) {
            Ok(p) => p,
            Err(e) => {
                return Err(e);
            },
        };
        proof {
            assert(self.pools@[p as int].wf());
        }
        if self.pools[p].shares.get(sender_id) < amount {
            return Err(RegistryError::InsufficientBalance);
        }
        self.move_pool_shares(p, sender_id, receiver_id, amount);
        Ok(())
    }

    /// `self` is `o` with `amount` of pool `p`'s shares moved from `from`
    /// to `to`.
    pub open spec fn moved(&self, o: &Contract, p: int, from: Seq<char>, to: Seq<char>, amount: int) -> bool {
        &&& self.pools@.len() == o.pools@.len()
        &&& forall|q: int| 0 <= q < o.pools@.len() && q != p ==> #[trigger] self.pools@[q] == o.pools@[q]
        &&& from != to ==> self.pools@[p].shares_of(from) == o.pools@[p].shares_of(from) - amount
        &&& from != to ==> self.pools@[p].shares_of(to) == o.pools@[p].shares_of(to) + amount
        &&& from == to ==> self.pools@[p].shares_of(from) == o.pools@[p].shares_of(from)
        &&& forall|k: Seq<char>| k != from && k != to ==> #[trigger] self.pools@[p].shares_of(k) == o.pools@[p].shares_of(k)
        &&& self.pools@[p].shares_total_supply == o.pools@[p].shares_total_supply
        &&& self.pools@[p].same_terms(&o.pools@[p])
        &&& self.workers == o.workers
        &&& self.same_settings(o)
    }

    fn move_pool_shares(&mut self, p: usize, from: &String, to: &String, amount: u128)
        requires
            old(self).wf(),
            p < old(self).pools@.len(),
            old(self).pools@[p as int].shares_of(from@) >= amount,
        ensures
            final(self).wf(),
            final(self).moved(old(self), p as int, from@, to@, amount as int),
    {
        let ghost old_self = *self;
        let mut pool = self.pools.remove(p);
        proof {
            assert(old_self.pools@[p as int].wf());
        }
        pool.transfer_shares(from, to, amount);
        self.pools.insert(p, pool);
        proof {
            assert(self.pools@ =~= old_self.pools@.update(p as int, pool));
            old_self.lemma_replace_pool(self, p as int);
        }
    }

    /// What the first `n` entries of a batch send from pool `q`.
    pub open spec fn sent_from_pool(&self, token_ids: Seq<String>, amounts: Seq<u128>, q: int, n: int) -> int
        decreases n,
    {
        if n <= 0 {
            0
        } else {
            self.sent_from_pool(token_ids, amounts, q, n - 1) + if self.token_pool(token_ids[n - 1]@) == Some(q) {
                amounts[n - 1] as int
            } else {
                0
            }
        }
    }

    /// The refusal, if any, of a batch's `i`-th entry, after those before it.
    pub open spec fn batch_step_error(&self, sender: Seq<char>, token_ids: Seq<String>, amounts: Seq<u128>, i: int) -> Option<RegistryError> {
        if amounts[i] == 0 {
            Some(RegistryError::InvalidArgument)
        } else {
            match self.token_pool(token_ids[i]@) {
                None => Some(RegistryError::NotFound),
                Some(q) => if self.sent_from_pool(token_ids, amounts, q, i + 1) > self.pools@[q].shares_of(sender) {
                    Some(RegistryError::InsufficientBalance)
                } else {
                    None
                },
            }
        }
    }

    /// The refusal of the first of the first `n` entries that is refused.
    pub open spec fn batch_error(&self, sender: Seq<char>, token_ids: Seq<String>, amounts: Seq<u128>, n: int) -> Option<RegistryError>
        decreases n,
    {
        if n <= 0 {
            None
        } else {
            match self.batch_error(sender, token_ids, amounts, n - 1) {
                Some(e) => Some(e),
                None => self.batch_step_error(sender, token_ids, amounts, n - 1),
            }
        }
    }

    proof fn lemma_batch_error_prefix(&self, sender: Seq<char>, token_ids: Seq<String>, amounts: Seq<u128>, i: int, n: int)
        requires
            0 <= i < n,
            self.batch_error(sender, token_ids, amounts, n) is None,
        ensures
            self.batch_step_error(sender, token_ids, amounts, i) is None,
        decreases n,
    {
        if i < n - 1 {
            self.lemma_batch_error_prefix(sender, token_ids, amounts, i, n - 1);
        }
    }

    proof fn lemma_batch_error_sticky(&self, sender: Seq<char>, token_ids: Seq<String>, amounts: Seq<u128>, k: int, n: int)
        requires
            0 <= k <= n,
            self.batch_error(sender, token_ids, amounts, k) is Some,
        ensures
            self.batch_error(sender, token_ids, amounts, n) == self.batch_error(sender, token_ids, amounts, k),
        decreases n - k,
    {
        if k < n {
            self.lemma_batch_error_sticky(sender, token_ids, amounts, k, n - 1);
        }
    }

    /// `self` is `o` after the first `n` entries of a batch moved their
    /// shares from `sender` to `receiver`.
    pub open spec fn batch_moved(&self, o: &Contract, sender: Seq<char>, receiver: Seq<char>, token_ids: Seq<String>, amounts: Seq<u128>, n: int) -> bool {
        &&& self.pools@.len() == o.pools@.len()
        &&& self.workers == o.workers
        &&& self.same_settings(o)
        &&& forall|q: int| 0 <= q < o.pools@.len() ==> {
            &&& (#[trigger] self.pools@[q]).shares_total_supply == o.pools@[q].shares_total_supply
            &&& self.pools@[q].same_terms(&o.pools@[q])
            &&& self.pools@[q].shares_of(sender) == o.pools@[q].shares_of(sender) - o.sent_from_pool(token_ids, amounts, q, n)
            &&& self.pools@[q].shares_of(receiver) == o.pools@[q].shares_of(receiver) + o.sent_from_pool(token_ids, amounts, q, n)
            &&& forall|k: Seq<char>| k != sender && k != receiver ==> #[trigger] self.pools@[q].shares_of(k) == o.pools@[q].shares_of(k)
        }
    }

    /// The refusal, if any, of a batch transfer.
    pub open spec fn batch_transfer_error(&self, ctx: &CallContext, receiver_id: Seq<char>, token_ids: Seq<String>, amounts: Seq<u128>, with_approvals: bool) -> Option<RegistryError> {
        if with_approvals {
            Some(RegistryError::InvalidArgument)
        } else if ctx.attached_deposit != ONE_YOCTO {
            Some(RegistryError::Unauthorized)
        } else if ctx.predecessor_account_id@ == receiver_id {
            Some(RegistryError::InvalidArgument)
        } else if token_ids.len() != amounts.len() || token_ids.len() == 0 {
            Some(RegistryError::InvalidArgument)
        } else {
            self.batch_error(ctx.predecessor_account_id@, token_ids, amounts, token_ids.len() as int)
        }
    }

    fn sent_so_far(&self, token_ids: &Vec<String>, amounts: &Vec<u128>, q: usize, n: usize) -> (r: Option<u128>)
        requires
            n <= token_ids@.len(),
            n <= amounts@.len(),
        ensures
            match r {
                Some(v) => v == self.sent_from_pool(token_ids@, amounts@, q as int, n as int),
                None => self.sent_from_pool(token_ids@, amounts@, q as int, n as int) > u128::MAX,
            },
    {
        let mut acc: u128 = 0;
        let mut j: usize = 0;
        while j < n
            invariant
                j <= n,
                n <= token_ids@.len(),
                n <= amounts@.len(),
                acc == self.sent_from_pool(token_ids@, amounts@, q as int, j as int),
            decreases n - j,
        {
            let same = match self.pool_of_token(&token_ids[j]) {
                Ok(p) => p == q,
                Err(_) => false,
            };
            if same {
                acc = match acc.checked_add(amounts[j]) {
                    Some(v) => v,
                    None => {
                        proof {
                            self.lemma_sent_grows(token_ids@, amounts@, q as int, j + 1, n as int);
                        }
                        return None;
                    },
                };
            }
            j = j + 1;
        }
        Some(acc)
    }

    proof fn lemma_sent_grows(&self, token_ids: Seq<String>, amounts: Seq<u128>, q: int, n: int, m: int)
        requires
            0 <= n <= m,
        ensures
            self.sent_from_pool(token_ids, amounts, q, n) <= self.sent_from_pool(token_ids, amounts, q, m),
        decreases m - n,
    {
        if n < m {
            self.lemma_sent_grows(token_ids, amounts, q, n, m - 1);
        }
    }

    /// Moves each `amounts[i]` of share token `token_ids[i]` from the caller
    /// to `receiver_id`, all or nothing. Approvals are not supported.
    #[verifier::loop_isolation(false)]
    pub fn mt_batch_transfer(&mut self, ctx: &CallContext, receiver_id: &String, token_ids: &Vec<String>, amounts: &Vec<u128>, with_approvals: bool) -> (r:
        Result<(), RegistryError>)
        requires
            old(self).wf(),
        ensures
            final(self).wf(),
            match old(self).batch_transfer_error(ctx, receiver_id@, token_ids@, amounts@, with_approvals) {
                Some(e) => r == Err::<(), RegistryError>(e) && *final(self) == *old(self),
                None => r is Ok && final(self).batch_moved(old(self), ctx.predecessor_account_id@, receiver_id@, token_ids@, amounts@, token_ids@.len() as int),
            },
    {
        if with_approvals {
            return Err(RegistryError::InvalidArgument);
        }
        if ctx.attached_deposit != ONE_YOCTO {
            return Err(RegistryError::Unauthorized);
        }
        let sender_id = &ctx.predecessor_account_id;
        if *sender_id == *receiver_id {
            return Err(RegistryError::InvalidArgument);
        }
        if token_ids.len() != amounts.len() || token_ids.len() == 0 {
            return Err(RegistryError::InvalidArgument);
        }
        let n = token_ids.len();
        let mut i: usize = 0;
        while i < n
            invariant
                self.wf(),
                i <= n,
                n == token_ids@.len(),
                n == amounts@.len(),
                self.batch_error(sender_id@, token_ids@, amounts@, i as int) is None,
            decreases n - i,
        {
            if amounts[i] == 0 {
                proof {
                    self.lemma_batch_error_sticky(sender_id@, token_ids@, amounts@, i + 1, n as int);
                }
                return Err(RegistryError::InvalidArgument);
            }
            let q = match self.pool_of_token(&token_ids[i]) {
                Ok(q) => q,
                Err(e) => {
                    proof {
                        self.lemma_batch_error_sticky(sender_id@, token_ids@, amounts@, i + 1, n as int);
                    }
                    return Err(e);
                },
            };
            proof {
                assert(self.pools@[q as int].wf());
            }
            let balance = self.pools[q].shares.get(sender_id);
            match self.sent_so_far(token_ids, amounts, q, i + 1) {
                Some(total) => {
                    if total > balance {
                        proof {
                            self.lemma_batch_error_sticky(sender_id@, token_ids@, amounts@, i + 1, n as int);
                        }
                        return Err(RegistryError::InsufficientBalance);
                    }
                },
                None => {
                    proof {
                        self.lemma_batch_error_sticky(sender_id@, token_ids@, amounts@, i + 1, n as int);
                    }
                    return Err(RegistryError::InsufficientBalance);
                },
            }
            i = i + 1;
        }
        let ghost start = *self;
        let mut i: usize = 0;
        while i < n
            invariant
                self.wf(),
                start.wf(),
                i <= n,
                n == token_ids@.len(),
                n == amounts@.len(),
                sender_id@ != receiver_id@,
                start.batch_error(sender_id@, token_ids@, amounts@, n as int) is None,
                self.batch_moved(&start, sender_id@, receiver_id@, token_ids@, amounts@, i as int),
            decreases n - i,
        {
            proof {
                start.lemma_batch_error_prefix(sender_id@, token_ids@, amounts@, i as int, n as int);
            }
            let q = match self.pool_of_token(&token_ids[i]) {
                Ok(q) => q,
                Err(_) => {
                    proof {
                        assert(false);
                    }
                    return Err(RegistryError::NotFound);
                },
            };
            let ghost before = *self;
            proof {
                assert(self.pools@[q as int].shares_of(sender_id@) == start.pools@[q as int].shares_of(sender_id@)
                    - start.sent_from_pool(token_ids@, amounts@, q as int, i as int));
            }
            self.move_pool_shares(q, sender_id, receiver_id, amounts[i]);
            proof {
                assert forall|p: int| 0 <= p < start.pools@.len() implies {
                    &&& (#[trigger] self.pools@[p]).shares_total_supply == start.pools@[p].shares_total_supply
                    &&& self.pools@[p].same_terms(&start.pools@[p])
                    &&& self.pools@[p].shares_of(sender_id@) == start.pools@[p].shares_of(sender_id@) - start.sent_from_pool(token_ids@, amounts@, p, i + 1)
                    &&& self.pools@[p].shares_of(receiver_id@) == start.pools@[p].shares_of(receiver_id@) + start.sent_from_pool(token_ids@, amounts@, p, i + 1)
                    &&& forall|k: Seq<char>| k != sender_id@ && k != receiver_id@ ==> #[trigger] self.pools@[p].shares_of(k) == start.pools@[p].shares_of(k)
                } by {
                    assert(before.pools@[p].shares_total_supply == start.pools@[p].shares_total_supply);
                    if p != q {
                        assert(self.pools@[p] == before.pools@[p]);
                    }
                    assert forall|k: Seq<char>| k != sender_id@ && k != receiver_id@ implies #[trigger] self.pools@[p].shares_of(k) == start.pools@[p].shares_of(k) by {
                        assert(before.pools@[p].shares_of(k) == start.pools@[p].shares_of(k));
                    }
                }
            }
            i = i + 1;
        }
        Ok(())
    }

    /// Moves `amount` of share token `token_id` from the caller to `receiver_id`.
    pub fn mt_transfer(&mut self, ctx: &CallContext, receiver_id: &String, token_id: String, amount: u128, with_approval: bool) -> (r:
        Result<(), RegistryError>)
        requires
            old(self).wf(),
        ensures
            final(self).wf(),
            match old(self).batch_transfer_error(ctx, receiver_id@, seq![token_id], seq![amount], with_approval) {
                Some(e) => r == Err::<(), RegistryError>(e) && *final(self) == *old(self),
                None => r is Ok && final(self).batch_moved(old(self), ctx.predecessor_account_id@, receiver_id@, seq![token_id], seq![amount], 1),
            },
    {
        let token_ids = vec![token_id];
        let amounts = vec![amount];
        proof {
            assert(token_ids@ =~= seq![token_id]);
            assert(amounts@ =~= seq![amount]);
        }
        self.mt_batch_transfer(ctx, receiver_id, &token_ids, &amounts, with_approval)
    }

    /// Transfers as `mt_batch_transfer` does, then asks that `receiver_id`
    /// be told, with `msg`; what it hands back is refunded by
    /// `mt_resolve_transfer`.
    pub fn mt_batch_transfer_call(&mut self, ctx: &CallContext, receiver_id: &String, token_ids: Vec<String>, amounts: Vec<u128>, with_approvals: bool, msg: String) -> (r:
        Result<MtTransferCall, RegistryError>)
        requires
            old(self).wf(),
        ensures
            final(self).wf(),
            match old(self).batch_transfer_error(ctx, receiver_id@, token_ids@, amounts@, with_approvals) {
                Some(e) => r == Err::<MtTransferCall, RegistryError>(e) && *final(self) == *old(self),
                None => r matches Ok(call) && {
                    &&& final(self).batch_moved(old(self), ctx.predecessor_account_id@, receiver_id@, token_ids@, amounts@, token_ids@.len() as int)
                    &&& call.receiver_id@ == receiver_id@
                    &&& call.sender_id@ == ctx.predecessor_account_id@
                    &&& call.token_ids@ == token_ids@
                    &&& call.amounts@ == amounts@
                    &&& call.msg@ == msg@
                    &&& call.previous_owner_ids@.len() == token_ids@.len()
                    &&& forall|i: int| 0 <= i < token_ids@.len() ==> (#[trigger] call.previous_owner_ids@[i])@ == ctx.predecessor_account_id@
                },
            },
    {
        match self.mt_batch_transfer(ctx, receiver_id, &token_ids, &amounts, with_approvals) {
            Ok(()) => {},
            Err(e) => {
                return Err(e);
            },
        }
        let mut previous_owner_ids: Vec<String> = Vec::new();
        let mut i: usize = 0;
        while i < token_ids.len()
            invariant
                i <= token_ids@.len(),
                previous_owner_ids@.len() == i,
                forall|j: int| 0 <= j < i ==> (#[trigger] previous_owner_ids@[j])@ == ctx.predecessor_account_id@,
            decreases token_ids@.len() - i,
        {
            previous_owner_ids.push(ctx.predecessor_account_id.clone());
            i = i + 1;
        }
        Ok(MtTransferCall {
            receiver_id: receiver_id.clone(),
            sender_id: ctx.predecessor_account_id.clone(),
            previous_owner_ids,
            token_ids,
            amounts,
            msg,
        })
    }

    /// Moves `amount` of share token `token_id` from the caller to
    /// `receiver_id` and asks that the receiver be told.
    pub fn mt_transfer_call(&mut self, ctx: &CallContext, receiver_id: &String, token_id: String, amount: u128, with_approval: bool, msg: String) -> (r:
        Result<MtTransferCall, RegistryError>)
        requires
            old(self).wf(),
        ensures
            final(self).wf(),
            match old(self).batch_transfer_error(ctx, receiver_id@, seq![token_id], seq![amount], with_approval) {
                Some(e) => r == Err::<MtTransferCall, RegistryError>(e) && *final(self) == *old(self),
                None => r matches Ok(call) && {
                    &&& final(self).batch_moved(old(self), ctx.predecessor_account_id@, receiver_id@, seq![token_id], seq![amount], 1)
                    &&& call.receiver_id@ == receiver_id@
                    &&& call.token_ids@ == seq![token_id]
                    &&& call.amounts@ == seq![amount]
                },
            },
    {
        let token_ids = vec![token_id];
        let amounts = vec![amount];
        proof {
            assert(token_ids@ =~= seq![token_id]);
            assert(amounts@ =~= seq![amount]);
        }
        self.mt_batch_transfer_call(ctx, receiver_id, token_ids, amounts, with_approval, msg)
    }

    /// The refunds that the receiver asked for: its answer where it gave one
    /// per token, all of each amount otherwise.
    pub open spec fn asked_refunds(amounts: Seq<u128>, answer: Option<Vec<u128>>) -> Seq<u128> {
        match answer {
            Some(v) => if v@.len() == amounts.len() {
                v@
            } else {
                amounts
            },
            None => amounts,
        }
    }

    /// The refunds made for the first `n` entries: each the least of what
    /// was asked, what was sent, and what the receiver still holds of that
    /// pool's shares.
    pub open spec fn resolve_refunds(&self, receiver: Seq<char>, token_ids: Seq<String>, amounts: Seq<u128>, asked: Seq<u128>, n: int) -> Seq<u128>
        decreases n,
    {
        if n <= 0 {
            Seq::empty()
        } else {
            let prev = self.resolve_refunds(receiver, token_ids, amounts, asked, n - 1);
            let q = self.token_pool(token_ids[n - 1]@)->Some_0;
            let held = self.pools@[q].shares_of(receiver) - self.sent_from_pool(token_ids, prev, q, n - 1);
            prev.push(min3(asked[n - 1] as int, amounts[n - 1] as int, held) as u128)
        }
    }

    proof fn lemma_refunds_len(&self, receiver: Seq<char>, token_ids: Seq<String>, amounts: Seq<u128>, asked: Seq<u128>, n: int)
        requires
            n >= 0,
        ensures
            self.resolve_refunds(receiver, token_ids, amounts, asked, n).len() == n,
        decreases n,
    {
        if n > 0 {
            self.lemma_refunds_len(receiver, token_ids, amounts, asked, n - 1);
        }
    }

    proof fn lemma_sent_prefix(&self, token_ids: Seq<String>, a: Seq<u128>, b: Seq<u128>, q: int, n: int)
        requires
            0 <= n <= a.len(),
            n <= b.len(),
            a.subrange(0, n) == b.subrange(0, n),
        ensures
            self.sent_from_pool(token_ids, a, q, n) == self.sent_from_pool(token_ids, b, q, n),
        decreases n,
    {
        if n > 0 {
            assert(a.subrange(0, n - 1) =~= a.subrange(0, n).subrange(0, n - 1));
            assert(b.subrange(0, n - 1) =~= b.subrange(0, n).subrange(0, n - 1));
            assert(a[n - 1] == a.subrange(0, n)[n - 1]);
            assert(b[n - 1] == b.subrange(0, n)[n - 1]);
            self.lemma_sent_prefix(token_ids, a, b, q, n - 1);
        }
    }

    /// The refusal, if any, of resolving a transfer.
    pub open spec fn resolve_error(&self, previous_owner_ids: Seq<String>, receiver: Seq<char>, token_ids: Seq<String>, amounts: Seq<u128>, with_approvals: bool) -> Option<RegistryError> {
        if with_approvals || token_ids.len() == 0 || previous_owner_ids.len() != token_ids.len()
            || amounts.len() != token_ids.len() {
            Some(RegistryError::InvalidArgument)
        } else if exists|i: int| 0 <= i < previous_owner_ids.len() && (#[trigger] previous_owner_ids[i])@ != previous_owner_ids[0]@ {
            Some(RegistryError::InvalidArgument)
        } else if previous_owner_ids[0]@ == receiver {
            Some(RegistryError::InvalidArgument)
        } else if exists|i: int| 0 <= i < token_ids.len() && #[trigger] self.token_pool(token_ids[i]@) is None {
            Some(RegistryError::NotFound)
        } else {
            None
        }
    }

    /// Settles a transfer once its receiver has answered: hands back to the
    /// sender, token by token, the refund asked for, never more than was sent
    /// nor than the receiver still holds; returns what the receiver kept.
    #[verifier::loop_isolation(false)]
    pub fn mt_resolve_transfer(&mut self, previous_owner_ids: &Vec<String>, receiver_id: &String, token_ids: &Vec<String>, amounts: Vec<u128>, with_approvals: bool, receiver_answer: Option<Vec<u128>>) -> (r:
        Result<Vec<u128>, RegistryError>)
        requires
            old(self).wf(),
        ensures
            final(self).wf(),
            match old(self).resolve_error(previous_owner_ids@, receiver_id@, token_ids@, amounts@, with_approvals) {
                Some(e) => r == Err::<Vec<u128>, RegistryError>(e) && *final(self) == *old(self),
                None => r matches Ok(used) && {
                    let n = token_ids@.len() as int;
                    let refunds = old(self).resolve_refunds(receiver_id@, token_ids@, amounts@, Self::asked_refunds(amounts@, receiver_answer), n);
                    &&& used@.len() == n
                    &&& forall|i: int| 0 <= i < n ==> #[trigger] used@[i] == amounts@[i] - refunds[i]
                    &&& final(self).batch_moved(old(self), receiver_id@, previous_owner_ids@[0]@, token_ids@, refunds, n)
                },
            },
    {
        if with_approvals || token_ids.len() == 0 || previous_owner_ids.len() != token_ids.len()
            || amounts.len() != token_ids.len() {
            return Err(RegistryError::InvalidArgument);
        }
        let n = token_ids.len();
        let sender_id = &previous_owner_ids[0];
        let mut i: usize = 0;
        while i < n
            invariant
                i <= n,
                n == previous_owner_ids@.len(),
                forall|j: int| 0 <= j < i ==> (#[trigger] previous_owner_ids@[j])@ == sender_id@,
            decreases n - i,
        {
            if previous_owner_ids[i] != *sender_id {
                proof {
                    assert((previous_owner_ids@[i as int])@ != previous_owner_ids@[0]@);
                }
                return Err(RegistryError::InvalidArgument);
            }
            i = i + 1;
        }
        if *sender_id == *receiver_id {
            return Err(RegistryError::InvalidArgument);
        }
        let mut i: usize = 0;
        while i < n
            invariant
                i <= n,
                n == token_ids@.len(),
                forall|j: int| 0 <= j < i ==> #[trigger] self.token_pool(token_ids@[j]@) is Some,
            decreases n - i,
        {
            if self.pool_of_token(&token_ids[i]).is_err() {
                proof {
                    assert(self.token_pool(token_ids@[i as int]@) is None);
                }
                return Err(RegistryError::NotFound);
            }
            i = i + 1;
        }
        let asked = match receiver_answer {
            Some(v) => if v.len() == amounts.len() {
                v
            } else {
                amounts.clone()
            },
            None => amounts.clone(),
        };
        proof {
            assert(asked@ =~= Self::asked_refunds(amounts@, receiver_answer));
        }
        let ghost start = *self;
        let mut used: Vec<u128> = Vec::new();
        let mut i: usize = 0;
        while i < n
            invariant
                self.wf(),
                start.wf(),
                i <= n,
                n == token_ids@.len(),
                n == amounts@.len(),
                n == asked@.len(),
                sender_id@ != receiver_id@,
                forall|j: int| 0 <= j < n ==> #[trigger] start.token_pool(token_ids@[j]@) is Some,
                start.pools@.len() == self.pools@.len(),
                used@.len() == i,
                forall|j: int| 0 <= j < i ==> #[trigger] used@[j] == amounts@[j] - start.resolve_refunds(receiver_id@, token_ids@, amounts@, asked@, i as int)[j],
                self.batch_moved(&start, receiver_id@, sender_id@, token_ids@, start.resolve_refunds(receiver_id@, token_ids@, amounts@, asked@, i as int), i as int),
            decreases n - i,
        {
            let ghost prev = start.resolve_refunds(receiver_id@, token_ids@, amounts@, asked@, i as int);
            let ghost next = start.resolve_refunds(receiver_id@, token_ids@, amounts@, asked@, i + 1);
            proof {
                start.lemma_refunds_len(receiver_id@, token_ids@, amounts@, asked@, i as int);
                assert(next == prev.push(next[i as int]));
            }
            let q = match self.pool_of_token(&token_ids[i]) {
                Ok(q) => q,
                Err(_) => {
                    proof {
                        assert(start.token_pool(token_ids@[i as int]@) is Some);
                    }
                    return Err(RegistryError::NotFound);
                },
            };
            proof {
                assert(self.pools@[q as int].wf());
            }
            let held = self.pools[q].shares.get(receiver_id);
            let mut refund = asked[i];
            if amounts[i] < refund {
                refund = amounts[i];
            }
            if held < refund {
                refund = held;
            }
            proof {
                assert(refund as int == min3(asked@[i as int] as int, amounts@[i as int] as int, held as int));
                assert(next[i as int] == refund);
            }
            let ghost before = *self;
            if refund > 0 {
                self.move_pool_shares(q, receiver_id, sender_id, refund);
            }
            used.push(amounts[i] - refund);
            proof {
                assert(next.subrange(0, i as int) =~= prev.subrange(0, i as int));
                assert forall|p: int| 0 <= p < start.pools@.len() implies start.sent_from_pool(token_ids@, next, p, i + 1)
                    == start.sent_from_pool(token_ids@, prev, p, i as int) + if p == q { refund as int } else { 0 } by {
                    start.lemma_sent_prefix(token_ids@, next, prev, p, i as int);
                }
                assert forall|p: int| 0 <= p < start.pools@.len() implies {
                    &&& (#[trigger] self.pools@[p]).shares_total_supply == start.pools@[p].shares_total_supply
                    &&& self.pools@[p].same_terms(&start.pools@[p])
                    &&& self.pools@[p].shares_of(receiver_id@) == start.pools@[p].shares_of(receiver_id@) - start.sent_from_pool(token_ids@, next, p, i + 1)
                    &&& self.pools@[p].shares_of(sender_id@) == start.pools@[p].shares_of(sender_id@) + start.sent_from_pool(token_ids@, next, p, i + 1)
                    &&& forall|k: Seq<char>| k != receiver_id@ && k != sender_id@ ==> #[trigger] self.pools@[p].shares_of(k) == start.pools@[p].shares_of(k)
                } by {
                    assert(before.pools@[p].shares_total_supply == start.pools@[p].shares_total_supply);
                    if p != q || refund == 0 {
                        assert(self.pools@[p] == before.pools@[p]);
                    }
                    assert forall|k: Seq<char>| k != receiver_id@ && k != sender_id@ implies #[trigger] self.pools@[p].shares_of(k) == start.pools@[p].shares_of(k) by {
                        assert(before.pools@[p].shares_of(k) == start.pools@[p].shares_of(k));
                    }
                }
                assert forall|j: int| 0 <= j < i + 1 implies #[trigger] used@[j] == amounts@[j] - next[j] by {
                    if j < i {
                        assert(next[j] == prev[j]);
                    }
                }
            }
            i = i + 1;
        }
        Ok(used)
    }
}

} // verus!

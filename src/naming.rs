//! Names that the registry derives: pool sub-accounts and ledger token ids.
use vstd::prelude::*;
use vstd::string::StringExecFns;

verus! {

/// The decimal digit `d < 10`.
pub open spec fn digit_char(d: int) -> char {
    seq!['0', '1', '2', '3', '4', '5', '6', '7', '8', '9'][d]
}

/// `n` in decimal, without leading zeros.
pub open spec fn decimal_of(n: nat) -> Seq<char>
    decreases n,
{
    if n < 10 {
        seq![digit_char(n as int)]
    } else {
        decimal_of(n / 10).push(digit_char((n % 10) as int))
    }
}

/// The sub-account that holds pool `pool_id`'s assets: `pool-<id>.<parent>`.
pub open spec fn pool_account_of(pool_id: nat, parent: Seq<char>) -> Seq<char> {
    seq!['p', 'o', 'o', 'l', '-'] + decimal_of(pool_id) + seq!['.'] + parent
}

/// The id of a fungible token on the intents ledger: `nep141:<token>`.
pub open spec fn ledger_token_of(token: Seq<char>) -> Seq<char> {
    seq!['n', 'e', 'p', '1', '4', '1', ':'] + token
}

fn digit_str(d: u32) -> (r: &'static str)
    requires
        d < 10,
    ensures
        r@ == seq![digit_char(d as int)],
{
    if d == 0 {
        proof { reveal_strlit("0"); }
        "0"
    } else if d == 1 {
        proof { reveal_strlit("1"); }
        "1"
    } else if d == 2 {
        proof { reveal_strlit("2"); }
        "2"
    } else if d == 3 {
        proof { reveal_strlit("3"); }
        "3"
    } else if d == 4 {
        proof { reveal_strlit("4"); }
        "4"
    } else if d == 5 {
        proof { reveal_strlit("5"); }
        "5"
    } else if d == 6 {
        proof { reveal_strlit("6"); }
        "6"
    } else if d == 7 {
        proof { reveal_strlit("7"); }
        "7"
    } else if d == 8 {
        proof { reveal_strlit("8"); }
        "8"
    } else {
        proof { reveal_strlit("9"); }
        "9"
    }
}

/// Appends `n` in decimal to `out`.
fn push_decimal(out: &mut String, n: u32)
    ensures
        final(out)@ == old(out)@ + decimal_of(n as nat),
    decreases n,
{
    if n >= 10 {
        push_decimal(out, n / 10);
    }
    out.append(digit_str(n % 10));
    proof {
        if n >= 10 {
            assert(old(out)@ + decimal_of(n as nat) =~= old(out)@ + decimal_of((n / 10) as nat) + seq![digit_char((n % 10) as int)]);
        }
    }
}

/// `n` in decimal.
pub fn decimal(n: u32) -> (r: String)
    ensures
        r@ == decimal_of(n as nat),
{
    let mut out = String::new();
    push_decimal(&mut out, n);
    assert(out@ =~= decimal_of(n as nat));
    out
}

/// The sub-account of pool `pool_id` under `parent`.
pub fn pool_account_id(pool_id: u32, parent: &String) -> (r: String)
    ensures
        r@ == pool_account_of(pool_id as nat, parent@),
{
    proof { reveal_strlit("pool-"); reveal_strlit("."); }
    let mut out = String::from_str("pool-");
    push_decimal(&mut out, pool_id);
    out.append(".");
    out.append(parent.as_str());
    assert(out@ =~= pool_account_of(pool_id as nat, parent@));
    out
}

/// The intents-ledger id of fungible token `token`.
pub fn ledger_token_id(token: &String) -> (r: String)
    ensures
        r@ == ledger_token_of(token@),
{
    proof { reveal_strlit("nep141:"); }
    let mut out = String::from_str("nep141:");
    out.append(token.as_str());
    assert(out@ =~= ledger_token_of(token@));
    out
}

} // verus!

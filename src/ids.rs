use vstd::prelude::*;
use vstd::string::StringExecFns;

use crate::table::key_eq;

verus! {

pub open spec fn digit_char(d: nat) -> char {
    if d == 0 {
        '0'
    } else if d == 1 {
        '1'
    } else if d == 2 {
        '2'
    } else if d == 3 {
        '3'
    } else if d == 4 {
        '4'
    } else if d == 5 {
        '5'
    } else if d == 6 {
        '6'
    } else if d == 7 {
        '7'
    } else if d == 8 {
        '8'
    } else {
        '9'
    }
}

/// The decimal digits of `n`, without leading zeros.
pub open spec fn decimal(n: nat) -> Seq<char>
    decreases n,
{
    if n < 10 {
        seq![digit_char(n)]
    } else {
        decimal(n / 10).push(digit_char(n % 10))
    }
}

pub open spec fn order_prefix() -> Seq<char> {
    seq!['o', 'r', 'd', 'e', 'r', '_']
}

/// The id of the `n`th order created.
pub open spec fn order_key(n: nat) -> Seq<char> {
    order_prefix() + decimal(n)
}

/// The id of the restaurant that `owner` registers.
pub open spec fn restaurant_key(owner: Seq<char>) -> Seq<char> {
    seq!['r', 'e', 's', 't', 'a', 'u', 'r', 'a', 'n', 't', '_'] + owner
}

/// The id of the rider that `wallet` registers.
pub open spec fn rider_key(wallet: Seq<char>) -> Seq<char> {
    seq!['r', 'i', 'd', 'e', 'r', '_'] + wallet
}

pub proof fn lemma_decimal_len(n: nat)
    ensures
        decimal(n).len() >= 1,
        n >= 10 ==> decimal(n).len() >= 2,
    decreases n,
{
    if n >= 10 {
        lemma_decimal_len(n / 10);
    }
}

/// Two numbers with the same digits are equal.
pub proof fn lemma_decimal_injective(a: nat, b: nat)
    requires
        decimal(a) == decimal(b),
    ensures
        a == b,
    decreases a,
{
    lemma_decimal_len(a);
    lemma_decimal_len(b);
    if a >= 10 && b >= 10 {
        let da = decimal(a / 10);
        let db = decimal(b / 10);
        assert(decimal(a).last() == digit_char(a % 10));
        assert(decimal(b).last() == digit_char(b % 10));
        assert(decimal(a).drop_last() =~= da);
        assert(decimal(b).drop_last() =~= db);
        lemma_decimal_injective(a / 10, b / 10);
    } else if a < 10 && b < 10 {
        assert(decimal(a)[0] == digit_char(a));
        assert(decimal(b)[0] == digit_char(b));
    }
}

/// Distinct order numbers give distinct order ids.
pub proof fn lemma_order_key_injective(a: nat, b: nat)
    requires
        order_key(a) == order_key(b),
    ensures
        a == b,
{
    assert(order_key(a).skip(6) =~= decimal(a));
    assert(order_key(b).skip(6) =~= decimal(b));
    lemma_decimal_injective(a, b);
}

fn digit_str(d: u128) -> (r: &'static str)
    requires
        d < 10,
    ensures
        r@ == seq![digit_char(d as nat)],
{
    proof {
        reveal_strlit("0");
        reveal_strlit("1");
        reveal_strlit("2");
        reveal_strlit("3");
        reveal_strlit("4");
        reveal_strlit("5");
        reveal_strlit("6");
        reveal_strlit("7");
        reveal_strlit("8");
        reveal_strlit("9");
    }
    let r = if d == 0 {
        "0"
    } else if d == 1 {
        "1"
    } else if d == 2 {
        "2"
    } else if d == 3 {
        "3"
    } else if d == 4 {
        "4"
    } else if d == 5 {
        "5"
    } else if d == 6 {
        "6"
    } else if d == 7 {
        "7"
    } else if d == 8 {
        "8"
    } else {
        "9"
    };
    assert(r@ =~= seq![digit_char(d as nat)]);
    r
}

/// `n` written in decimal.
pub fn decimal_string(n: u128) -> (r: String)
    ensures
        r@ == decimal(n as nat),
    decreases n,
{
    if n < 10 {
        digit_str(n).to_owned()
    } else {
        let mut s = decimal_string(n / 10);
        s.append(digit_str(n % 10));
        s
    }
}

pub fn order_id_for(n: u64) -> (r: String)
    ensures
        r@ == order_key(n as nat),
{
    let mut s = "order_".to_owned();
    proof {
        reveal_strlit("order_");
    }
    let digits = decimal_string(n as u128);
    s.append(digits.as_str());
    assert(s@ =~= order_key(n as nat));
    s
}

pub fn restaurant_id_for(owner: &str) -> (r: String)
    ensures
        r@ == restaurant_key(owner@),
{
    let mut s = "restaurant_".to_owned();
    proof {
        reveal_strlit("restaurant_");
    }
    s.append(owner);
    assert(s@ =~= restaurant_key(owner@));
    s
}

pub fn rider_id_for(wallet: &str) -> (r: String)
    ensures
        r@ == rider_key(wallet@),
{
    let mut s = "rider_".to_owned();
    proof {
        reveal_strlit("rider_");
    }
    s.append(wallet);
    assert(s@ =~= rider_key(wallet@));
    s
}

/// The number of the order whose id is `key`, if `key` is an order id.
pub fn order_number(key: &str) -> (r: Option<u64>)
    ensures
        r matches Some(n) ==> key@ == order_key(n as nat),
{
    let bytes = key.as_bytes();
    if bytes.len() <= 6 {
        return None;
    }
    let mut n: u64 = 0;
    let mut j: usize = 6;
    while j < bytes.len()
        invariant
            6 <= j <= bytes@.len(),
        decreases bytes@.len() - j,
    {
        let b = bytes[j];
        if b < 48 || b > 57 {
            return None;
        }
        n = match n.checked_mul(10) {
            Some(m) => match m.checked_add((b - 48) as u64) {
                Some(m) => m,
                None => return None,
            },
            None => return None,
        };
        j = j + 1;
    }
    let id = order_id_for(n);
    if key_eq(key, id.as_str()) {
        Some(n)
    } else {
        None
    }
}

} // verus!

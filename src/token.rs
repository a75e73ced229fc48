//! Base-35 tokens for seeds, over the alphabet 0-9, A-N, P-Z (no letter O).
use vstd::prelude::*;

verus! {

/// The radix of a token.
pub const TOKEN_BASE: u64 = 35;

/// The symbol for digit `d` (below 35): `0`-`9`, then `A`-`N`, then `P`-`Z`.
pub open spec fn symbol(d: nat) -> char {
    if d < 10 {
        (48 + d) as char
    } else if d < 24 {
        (55 + d) as char
    } else {
        (56 + d) as char
    }
}

/// The digit a symbol stands for; 0 for a character outside the alphabet.
pub open spec fn symbol_value(c: char) -> nat {
    let n = c as u32;
    if 48 <= n <= 57 {
        (n - 48) as nat
    } else if 65 <= n <= 78 {
        (n - 55) as nat
    } else if 80 <= n <= 90 {
        (n - 56) as nat
    } else {
        0
    }
}

/// The token of `n`: its base-35 digits, most significant first; empty for 0.
pub open spec fn token_of(n: nat) -> Seq<char>
    decreases n,
{
    if n == 0 {
        Seq::empty()
    } else {
        token_of(n / 35).push(symbol(n % 35))
    }
}

/// The number a token stands for, read as base-35 digits.
pub open spec fn decode(t: Seq<char>) -> nat
    decreases t.len(),
{
    if t.len() == 0 {
        0
    } else {
        decode(t.drop_last()) * 35 + symbol_value(t.last())
    }
}

/// Relies on `String::push`: appends one character at the end.
#[verifier::external_body]
fn push_char(s: &mut String, c: char)
    ensures
        final(s)@ == old(s)@.push(c),
{
    s.push(c)
}

/// The symbol for digit `d`.
fn symbol_of(d: u64) -> (c: char)
    requires
        d < 35,
    ensures
        c == symbol(d as nat),
{
    if d < 10 {
        (48 + d as u8) as char
    } else if d < 24 {
        (55 + d as u8) as char
    } else {
        (56 + d as u8) as char
    }
}

proof fn lemma_symbol_value(d: nat)
    requires
        d < 35,
    ensures
        symbol_value(symbol(d)) == d,
{
}

/// Decoding the token of any seed gives the seed back.
pub proof fn lemma_token_round_trip(n: nat)
    ensures
        decode(token_of(n)) == n,
    decreases n,
{
    if n > 0 {
        lemma_token_round_trip(n / 35);
        lemma_symbol_value(n % 35);
        let t = token_of(n);
        assert(t.drop_last() =~= token_of(n / 35));
    }
}

/// The token of `seed`: its base-35 digits over the alphabet, most
/// significant first; the empty string for 0.
pub fn encode(seed: u64) -> (r: String)
    ensures
        r@ == token_of(seed as nat),
    decreases seed,
{
    if seed == 0 {
        String::new()
    } else {
        let mut s = encode(seed / TOKEN_BASE);
        push_char(&mut s, symbol_of(seed % TOKEN_BASE));
        s
    }
}

/// The non-zero entries of `s`, in order.
pub open spec fn nonzero(s: Seq<u64>) -> Seq<u64>
    decreases s.len(),
{
    if s.len() == 0 {
        Seq::empty()
    } else if s.last() != 0 {
        nonzero(s.drop_last()).push(s.last())
    } else {
        nonzero(s.drop_last())
    }
}

/// The tokens of the non-zero slots of a finished run, in slot order.
pub fn tokens_of(slots: &Vec<u64>) -> (r: Vec<String>)
    ensures
        r@.len() == nonzero(slots@).len(),
        forall|j: int| 0 <= j < r@.len() ==> #[trigger] r@[j]@ == token_of(nonzero(slots@)[j] as nat),
{
    let mut tokens: Vec<String> = Vec::new();
    let mut i: usize = 0;
    while i < slots.len()
        invariant
            i <= slots@.len(),
            tokens@.len() == nonzero(slots@.take(i as int)).len(),
            forall|j: int|
                0 <= j < tokens@.len() ==> #[trigger] tokens@[j]@ == token_of(
                    nonzero(slots@.take(i as int))[j] as nat,
                ),
        decreases slots.len() - i,
    {
        assert(slots@.take(i + 1).drop_last() =~= slots@.take(i as int));
        let v = slots[i];
        if v != 0 {
            tokens.push(encode(v));
        }
        i = i + 1;
    }
    assert(slots@.take(slots@.len() as int) =~= slots@);
    tokens
}

} // verus!

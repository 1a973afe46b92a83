//! Token-pair keys: the two token symbols joined by a separator byte.
use vstd::prelude::*;

verus! {

/// The byte that joins two token symbols into a pair key (`-`).
pub const PAIR_SEPARATOR: u8 = 45;

/// Longest token symbol, in bytes.
pub const MAX_SYMBOL_LEN: usize = 32;

/// Longest token-pair key, in bytes.
pub const MAX_PAIR_LEN: usize = 64;

/// The key of the pair whose first token is `a` and second token is `b`.
pub open spec fn pair_key_spec(a: Seq<u8>, b: Seq<u8>) -> Seq<u8> {
    a + seq![PAIR_SEPARATOR] + b
}

/// `d` is the position of the first separator in `key`.
pub open spec fn first_separator_at(key: Seq<u8>, d: int) -> bool {
    &&& 0 <= d < key.len()
    &&& key[d] == PAIR_SEPARATOR
    &&& forall|i: int| 0 <= i < d ==> key[i] != PAIR_SEPARATOR
}

/// `key` holds a separator.
pub open spec fn has_separator(key: Seq<u8>) -> bool {
    exists|d: int| 0 <= d < key.len() && key[d] == PAIR_SEPARATOR
}

/// Position of the first separator of a key that holds one.
pub open spec fn separator_index(key: Seq<u8>) -> int {
    choose|d: int| first_separator_at(key, d)
}

/// First token of a key: what precedes the first separator.
pub open spec fn first_token(key: Seq<u8>) -> Seq<u8> {
    key.subrange(0, separator_index(key))
}

/// Second token of a key: what follows the first separator.
pub open spec fn second_token(key: Seq<u8>) -> Seq<u8> {
    key.subrange(separator_index(key) + 1, key.len() as int)
}

/// Which way a trade of `token_in` runs through the pool of `key`:
/// `Some(true)` from the first token to the second, `Some(false)` the other
/// way, `None` when `key` has no separator, `token_in` is neither token, or
/// the token paid out is longer than a symbol may be.
pub open spec fn trade_direction(key: Seq<u8>, token_in: Seq<u8>) -> Option<bool> {
    if !has_separator(key) {
        None
    } else if token_in == first_token(key) {
        if second_token(key).len() <= MAX_SYMBOL_LEN { Some(true) } else { None }
    } else if token_in == second_token(key) {
        if first_token(key).len() <= MAX_SYMBOL_LEN { Some(false) } else { None }
    } else {
        None
    }
}

/// Whether two byte strings are equal.
pub fn bytes_eq(a: &[u8], b: &[u8]) -> (r: bool)
    ensures
        r == (a@ == b@),
{
    if a.len() != b.len() {
        return false;
    }
    let mut i: usize = 0;
    while i < a.len()
        invariant
            a@.len() == b@.len(),
            i <= a@.len(),
            forall|j: int| 0 <= j < i ==> a@[j] == b@[j],
        decreases a@.len() - i,
    {
        if a[i] != b[i] {
            return false;
        }
        i = i + 1;
    }
    assert(a@ =~= b@);
    true
}

/// Whether `key` equals `s[start..end]`.
fn bytes_eq_range(key: &[u8], s: &[u8], start: usize, end: usize) -> (r: bool)
    requires
        start <= end <= s@.len(),
    ensures
        r == (key@ == s@.subrange(start as int, end as int)),
{
    if key.len() != end - start {
        return false;
    }
    let mut i: usize = 0;
    while i < key.len()
        invariant
            key@.len() == end - start,
            start <= end <= s@.len(),
            i <= key@.len(),
            forall|j: int| 0 <= j < i ==> key@[j] == s@[start + j],
        decreases key@.len() - i,
    {
        if key[i] != s[start + i] {
            return false;
        }
        i = i + 1;
    }
    assert(key@ =~= s@.subrange(start as int, end as int));
    true
}

/// The key of the pair of `a` and `b`.
pub fn pair_key(a: &[u8], b: &[u8]) -> (r: Vec<u8>)
    requires
        a@.len() + b@.len() + 1 <= usize::MAX,
    ensures
        r@ == pair_key_spec(a@, b@),
{
    let mut r: Vec<u8> = Vec::new();
    let mut i: usize = 0;
    while i < a.len()
        invariant
            i <= a@.len(),
            r@ == a@.subrange(0, i as int),
        decreases a@.len() - i,
    {
        r.push(a[i]);
        i = i + 1;
        assert(r@ =~= a@.subrange(0, i as int));
    }
    r.push(PAIR_SEPARATOR);
    let mut j: usize = 0;
    while j < b.len()
        invariant
            j <= b@.len(),
            r@ == a@ + seq![PAIR_SEPARATOR] + b@.subrange(0, j as int),
        decreases b@.len() - j,
    {
        r.push(b[j]);
        j = j + 1;
        assert(r@ =~= a@ + seq![PAIR_SEPARATOR] + b@.subrange(0, j as int));
    }
    assert(b@.subrange(0, b@.len() as int) =~= b@);
    r
}

/// Position of the first separator of `key`, if any.
pub fn find_separator(key: &[u8]) -> (r: Option<usize>)
    ensures
        r is None <==> !has_separator(key@),
        r matches Some(d) ==> first_separator_at(key@, d as int) && separator_index(key@) == d,
{
    let mut i: usize = 0;
    while i < key.len()
        invariant
            i <= key@.len(),
            forall|j: int| 0 <= j < i ==> key@[j] != PAIR_SEPARATOR,
        decreases key@.len() - i,
    {
        if key[i] == PAIR_SEPARATOR {
            proof {
                assert(first_separator_at(key@, i as int));
                let d = separator_index(key@);
                assert(first_separator_at(key@, d));
                if d < i {
                } else if d > i {
                    assert(key@[i as int] != PAIR_SEPARATOR);
                }
            }
            return Some(i);
        }
        i = i + 1;
    }
    None
}

/// Which way a trade of `token_in` runs through the pool of `key` (see
/// `trade_direction`).
pub fn find_direction(key: &[u8], token_in: &[u8]) -> (r: Option<bool>)
    ensures
        r == trade_direction(key@, token_in@),
{
    let d = match find_separator(key) {
        Some(d) => d,
        None => return None,
    };
    let n = key.len();
    assert(first_separator_at(key@, d as int));
    if bytes_eq_range(token_in, key, 0, d) {
        if n - (d + 1) <= MAX_SYMBOL_LEN {
            Some(true)
        } else {
            None
        }
    } else if bytes_eq_range(token_in, key, d + 1, n) {
        if d <= MAX_SYMBOL_LEN {
            Some(false)
        } else {
            None
        }
    } else {
        None
    }
}

} // verus!

//! Fixed-width base-83 numerals over the hash alphabet.

use vstd::arithmetic::div_mod::lemma_div_denominator;
use vstd::arithmetic::power::{lemma_pow0, lemma_pow1, lemma_pow_positive, pow};
use vstd::prelude::*;

verus! {

/// The 83 symbols, in the order of the digit values they stand for.
pub open spec fn alphabet() -> Seq<char> {
    "0123456789ABCDEFGHIJKLMNOPQRSTUVWXYZabcdefghijklmnopqrstuvwxyz#$%*+,-.:;=?@[]^_{|}~"@
}

/// The symbol of digit `d`.
pub open spec fn symbol(d: nat) -> char {
    alphabet()[d as int]
}

/// `length` base-83 digits of `value`, most significant first. Digits above
/// the `length` lowest ones are dropped.
pub open spec fn base83(value: nat, length: nat) -> Seq<char>
    decreases length,
{
    if length == 0 {
        Seq::empty()
    } else {
        base83(value / 83, (length - 1) as nat).push(symbol(value % 83))
    }
}

/// Every string over the alphabet.
pub open spec fn in_alphabet(s: Seq<char>) -> bool {
    forall|i: int| 0 <= i < s.len() ==> alphabet().contains(#[trigger] s[i])
}

pub proof fn lemma_alphabet_len()
    ensures
        alphabet().len() == 83,
{
    reveal_strlit("0123456789ABCDEFGHIJKLMNOPQRSTUVWXYZabcdefghijklmnopqrstuvwxyz#$%*+,-.:;=?@[]^_{|}~");
}

/// A numeral of `length` digits has `length` symbols, all from the alphabet.
pub proof fn lemma_base83_shape(value: nat, length: nat)
    ensures
        base83(value, length).len() == length,
        in_alphabet(base83(value, length)),
    decreases length,
{
    lemma_alphabet_len();
    if length > 0 {
        lemma_base83_shape(value / 83, (length - 1) as nat);
        let s = base83(value, length);
        let d = value % 83;
        assert(alphabet()[d as int] == symbol(d));
        assert forall|i: int| 0 <= i < s.len() implies alphabet().contains(#[trigger] s[i]) by {
            if i == s.len() - 1 {
                assert(s[i] == alphabet()[d as int]);
            } else {
                assert(s[i] == base83(value / 83, (length - 1) as nat)[i]);
            }
        }
    }
}

/// Joining two strings over the alphabet gives one over the alphabet.
pub proof fn lemma_in_alphabet_concat(a: Seq<char>, b: Seq<char>)
    requires
        in_alphabet(a),
        in_alphabet(b),
    ensures
        in_alphabet(a + b),
{
    assert forall|i: int| 0 <= i < (a + b).len() implies alphabet().contains(#[trigger] (a + b)[i]) by {
        if i < a.len() {
            assert((a + b)[i] == a[i]);
        } else {
            assert((a + b)[i] == b[i - a.len()]);
        }
    }
}

/// Digit `i` from the left is `(value / 83^(length - 1 - i)) mod 83`.
pub proof fn lemma_base83_digit(value: nat, length: nat, i: nat)
    requires
        i < length,
    ensures
        base83(value, length)[i as int] == symbol(
            ((value as int / pow(83, (length - 1 - i) as nat)) % 83) as nat,
        ),
    decreases length,
{
    lemma_base83_shape(value / 83, (length - 1) as nat);
    if i == length - 1 {
        lemma_pow0(83);
        assert(value as int / 1 == value as int);
    } else {
        let k = (length - 2 - i) as nat;
        lemma_base83_digit(value / 83, (length - 1) as nat, i);
        lemma_pow_positive(83, k);
        lemma_div_denominator(value as int, 83, pow(83, k));
        assert(pow(83, (k + 1) as nat) == 83 * pow(83, k)) by {
            reveal(pow);
        }
        assert(((length - 1 - i) as nat) == ((k + 1) as nat));
    }
}

/// Appends the symbol of digit `d`.
fn push_symbol(out: &mut String, d: usize)
    requires
        d < 83,
    ensures
        final(out)@ == old(out)@.push(symbol(d as nat)),
{
    let symbols: &str = "0123456789ABCDEFGHIJKLMNOPQRSTUVWXYZabcdefghijklmnopqrstuvwxyz#$%*+,-.:;=?@[]^_{|}~";
    proof {
        lemma_alphabet_len();
    }
    let piece = symbols.substring_char(d, d + 1);
    assert(piece@ =~= seq![symbol(d as nat)]);
    out.append(piece);
    assert(final(out)@ =~= old(out)@.push(symbol(d as nat)));
}

/// Appends the `length`-digit numeral of `value`.
fn push_base83(out: &mut String, value: usize, length: u32)
    ensures
        final(out)@ == old(out)@ + base83(value as nat, length as nat),
    decreases length,
{
    if length > 0 {
        push_base83(out, value / 83, length - 1);
        push_symbol(out, value % 83);
        assert(final(out)@ =~= old(out)@ + base83(value as nat, length as nat));
    } else {
        assert(final(out)@ =~= old(out)@ + base83(value as nat, length as nat));
    }
}

/// The `length`-digit base-83 numeral of `value`, most significant digit
/// first. A value of `83^length` or more keeps only its lowest digits.
pub fn encode_base83_string(value: usize, length: u32) -> (r: String)
    ensures
        r@ == base83(value as nat, length as nat),
{
    let mut r = String::new();
    push_base83(&mut r, value, length);
    assert(r@ =~= base83(value as nat, length as nat));
    r
}

} // verus!

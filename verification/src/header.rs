//! The length header of a frame: a 32-bit unsigned number written as four
//! bytes, most significant byte first.
use vstd::arithmetic::div_mod::lemma_div_denominator;
use vstd::prelude::*;

verus! {

/// Number of bytes that hold the size of a frame's body.
pub const DATA_SIZE: usize = 4;

/// One more than the largest size a header can hold (2^32).
pub open spec fn header_limit() -> nat {
    0x1_0000_0000
}

/// The four header bytes for `n`, most significant first.
pub open spec fn be_bytes(n: nat) -> Seq<u8> {
    seq![
        ((n / 0x100_0000) % 0x100) as u8,
        ((n / 0x1_0000) % 0x100) as u8,
        ((n / 0x100) % 0x100) as u8,
        (n % 0x100) as u8,
    ]
}

/// The number that four header bytes stand for.
pub open spec fn be_value(b: Seq<u8>) -> nat
    recommends
        b.len() == 4,
{
    (b[0] as nat) * 0x100_0000 + (b[1] as nat) * 0x1_0000 + (b[2] as nat) * 0x100 + (b[3] as nat)
}

/// Base-256 digits of `x`, least significant first, as the conversion loop
/// produces them: at least one digit, and no trailing zero digit beyond it.
pub open spec fn le_digits(x: nat) -> Seq<u8>
    decreases x,
{
    if x / 0x100 > 0 {
        seq![(x % 0x100) as u8] + le_digits(x / 0x100)
    } else {
        seq![(x % 0x100) as u8]
    }
}

/// `s` followed by zero bytes up to length 4.
pub open spec fn pad_to_four(s: Seq<u8>) -> Seq<u8> {
    s + Seq::new((4 - s.len()) as nat, |i: int| 0u8)
}

proof fn lemma_divisions(n: nat)
    ensures
        n / 0x100 / 0x100 == n / 0x1_0000,
        n / 0x100 / 0x100 / 0x100 == n / 0x100_0000,
{
    lemma_div_denominator(n as int, 0x100, 0x100);
    lemma_div_denominator((n / 0x100) as int, 0x100, 0x100);
    lemma_div_denominator(n as int, 0x1_0000, 0x100);
    lemma_div_denominator(n as int, 0x100, 0x1_0000);
}

/// The digits of a number below 2^32, padded with zeros to four bytes, are its
/// header bytes in reverse order.
proof fn lemma_le_digits_padded(n: nat)
    requires
        n < header_limit(),
    ensures
        le_digits(n).len() <= 4,
        pad_to_four(le_digits(n)) =~= seq![
            (n % 0x100) as u8,
            ((n / 0x100) % 0x100) as u8,
            ((n / 0x1_0000) % 0x100) as u8,
            ((n / 0x100_0000) % 0x100) as u8,
        ],
{
    lemma_divisions(n);
    let n1 = n / 0x100;
    let n2 = n1 / 0x100;
    let n3 = n2 / 0x100;
    assert(n3 < 0x100);
    reveal_with_fuel(le_digits, 5);
    if n1 == 0 {
        assert(le_digits(n) =~= seq![(n % 0x100) as u8]);
    } else if n2 == 0 {
        assert(le_digits(n1) =~= seq![(n1 % 0x100) as u8]);
        assert(le_digits(n) =~= seq![(n % 0x100) as u8, (n1 % 0x100) as u8]);
    } else if n3 == 0 {
        assert(le_digits(n2) =~= seq![(n2 % 0x100) as u8]);
        assert(le_digits(n1) =~= seq![(n1 % 0x100) as u8, (n2 % 0x100) as u8]);
        assert(le_digits(n) =~= seq![(n % 0x100) as u8, (n1 % 0x100) as u8, (n2 % 0x100) as u8]);
    } else {
        assert(n3 / 0x100 == 0);
        assert(le_digits(n3) =~= seq![(n3 % 0x100) as u8]);
        assert(le_digits(n2) =~= seq![(n2 % 0x100) as u8, (n3 % 0x100) as u8]);
        assert(le_digits(n1) =~= seq![
            (n1 % 0x100) as u8,
            (n2 % 0x100) as u8,
            (n3 % 0x100) as u8,
        ]);
        assert(le_digits(n) =~= seq![
            (n % 0x100) as u8,
            (n1 % 0x100) as u8,
            (n2 % 0x100) as u8,
            (n3 % 0x100) as u8,
        ]);
    }
}

/// Converts a number below 2^32 to its four header bytes, most significant
/// byte first.
pub fn number_to_four_vecu8(num: u64) -> (result: Vec<u8>)
    requires
        num < header_limit(),
    ensures
        result@ == be_bytes(num as nat),
        result@.len() == DATA_SIZE,
{
    let mut result: Vec<u8> = Vec::new();
    let mut x: u64 = num;
    loop
        invariant_except_break
            result@ + le_digits(x as nat) == le_digits(num as nat),
        ensures
            result@ == le_digits(num as nat),
        decreases x,
    {
        if x / 256 > 0 {
            result.push((x % 256) as u8);
            proof {
                assert(le_digits(x as nat) == seq![(x % 0x100) as u8] + le_digits((x / 0x100) as nat));
            }
            x = x / 256;
        } else {
            result.push((x % 256) as u8);
            proof {
                assert(le_digits(x as nat) == seq![(x % 0x100) as u8]);
            }
            break;
        }
    }
    proof {
        lemma_le_digits_padded(num as nat);
    }
    let pad: usize = DATA_SIZE - result.len();
    let mut k: usize = 0;
    while k < pad
        invariant
            k <= pad,
            pad == 4 - le_digits(num as nat).len(),
            result@ =~= le_digits(num as nat) + Seq::new(k as nat, |i: int| 0u8),
        decreases pad - k,
    {
        result.push(0);
        k = k + 1;
    }
    assert(result@ =~= pad_to_four(le_digits(num as nat)));
    let mut reversed: Vec<u8> = Vec::new();
    let mut i: usize = result.len();
    while i > 0
        invariant
            i <= result@.len(),
            result@.len() == 4,
            reversed@.len() == 4 - i,
            forall|j: int| 0 <= j < reversed@.len() ==> reversed@[j] == result@[3 - j],
        decreases i,
    {
        i = i - 1;
        reversed.push(result[i]);
    }
    assert(reversed@ =~= be_bytes(num as nat));
    reversed
}

/// Reads four header bytes, most significant first, as a number.
pub fn four_vecu8_to_number(vec: Vec<u8>) -> (num: u64)
    requires
        vec@.len() == DATA_SIZE,
    ensures
        num == be_value(vec@),
        num < header_limit(),
{
    let num = vec[0] as u64 * 256 * 256 * 256 + vec[1] as u64 * 256 * 256 + vec[2] as u64 * 256
        + vec[3] as u64;
    num
}

/// Writing a number below 2^32 as header bytes and reading them back gives
/// the number again.
pub proof fn header_number_roundtrip(n: nat)
    requires
        n < header_limit(),
    ensures
        be_value(be_bytes(n)) == n,
        be_bytes(n).len() == DATA_SIZE,
{
    lemma_divisions(n);
    let n1 = n / 0x100;
    let n2 = n1 / 0x100;
    let n3 = n2 / 0x100;
    assert(n == n1 * 0x100 + n % 0x100);
    assert(n1 == n2 * 0x100 + n1 % 0x100);
    assert(n2 == n3 * 0x100 + n2 % 0x100);
    assert(n3 < 0x100);
    assert(n3 % 0x100 == n3);
}

/// Reading four header bytes as a number and writing that number back gives
/// the same four bytes.
pub proof fn header_bytes_roundtrip(b: Seq<u8>)
    requires
        b.len() == DATA_SIZE,
    ensures
        be_value(b) < header_limit(),
        be_bytes(be_value(b)) =~= b,
{
    let v = be_value(b);
    lemma_divisions(v);
    assert(v % 0x100 == b[3] as nat) by {
        vstd::arithmetic::div_mod::lemma_fundamental_div_mod_converse(
            v as int,
            0x100,
            ((b[0] as nat) * 0x1_0000 + (b[1] as nat) * 0x100 + (b[2] as nat)) as int,
            b[3] as int,
        );
    }
    assert(v / 0x100 == (b[0] as nat) * 0x1_0000 + (b[1] as nat) * 0x100 + (b[2] as nat)) by {
        vstd::arithmetic::div_mod::lemma_fundamental_div_mod_converse(
            v as int,
            0x100,
            ((b[0] as nat) * 0x1_0000 + (b[1] as nat) * 0x100 + (b[2] as nat)) as int,
            b[3] as int,
        );
    }
    let v1 = v / 0x100;
    assert(v1 % 0x100 == b[2] as nat && v1 / 0x100 == (b[0] as nat) * 0x100 + (b[1] as nat)) by {
        vstd::arithmetic::div_mod::lemma_fundamental_div_mod_converse(
            v1 as int,
            0x100,
            ((b[0] as nat) * 0x100 + (b[1] as nat)) as int,
            b[2] as int,
        );
    }
    let v2 = v1 / 0x100;
    assert(v2 % 0x100 == b[1] as nat && v2 / 0x100 == b[0] as nat) by {
        vstd::arithmetic::div_mod::lemma_fundamental_div_mod_converse(
            v2 as int,
            0x100,
            b[0] as int,
            b[1] as int,
        );
    }
    assert(v2 / 0x100 % 0x100 == b[0] as nat);
}

} // verus!

use vstd::arithmetic::div_mod::{lemma_add_mod_noop, lemma_mul_mod_noop_left, lemma_mul_mod_noop_right};
use vstd::prelude::*;

verus! {

/// `2^128`: values are accumulated in a 128-bit wide integer.
pub open spec fn wide_modulus() -> nat {
    u128::MAX as nat + 1
}

/// `2^32`: a tag is read into 32 bits.
pub open spec fn tag_modulus() -> nat {
    0x1_0000_0000
}

/// The position just past the varint that starts at `i`, if the buffer holds
/// all of it: the first byte at or after `i` whose high bit is clear ends it.
pub open spec fn varint_end(data: Seq<u8>, i: int) -> Option<int>
    decreases data.len() - i,
{
    if 0 <= i < data.len() {
        if data[i] < 128 {
            Some(i + 1)
        } else {
            varint_end(data, i + 1)
        }
    } else {
        None
    }
}

/// The base-128 number held in the low seven bits of `data[i..j]`, least
/// significant group first.
pub open spec fn group_sum(data: Seq<u8>, i: int, j: int) -> nat
    decreases j - i,
{
    if i < j {
        (data[i] % 128) as nat + 128 * group_sum(data, i + 1, j)
    } else {
        0
    }
}

/// `128^k`: the place of the `k`-th group of a varint.
pub open spec fn place(k: nat) -> nat
    decreases k,
{
    if k == 0 {
        1
    } else {
        128 * place((k - 1) as nat)
    }
}

/// A 128-bit pattern read as a two's complement signed integer.
pub open spec fn as_signed(u: nat) -> int {
    if u < wide_modulus() / 2 {
        u as int
    } else {
        u - wide_modulus()
    }
}

/// The value of the varint in `data[i..j]`, accumulated in 128 bits.
pub open spec fn varint_bits(data: Seq<u8>, i: int, j: int) -> nat {
    group_sum(data, i, j) % wide_modulus()
}

/// The signed value that the varint in `data[i..j]` decodes to.
pub open spec fn varint_value(data: Seq<u8>, i: int, j: int) -> int {
    as_signed(varint_bits(data, i, j))
}

/// A varint ends strictly after it starts and within the buffer.
pub proof fn lemma_varint_end_bounds(data: Seq<u8>, i: int)
    ensures
        varint_end(data, i) matches Some(j) ==> i < j <= data.len(),
    decreases data.len() - i,
{
    if 0 <= i < data.len() && data[i] >= 128 {
        lemma_varint_end_bounds(data, i + 1);
    }
}

/// The sum of the groups in `data[i..j + 1]` adds the last group at its place.
pub proof fn lemma_group_sum_push(data: Seq<u8>, i: int, j: int)
    requires
        0 <= i <= j < data.len(),
    ensures
        group_sum(data, i, j + 1) == group_sum(data, i, j) + (data[j] % 128) as nat * place(
            (j - i) as nat,
        ),
    decreases j - i,
{
    if i < j {
        lemma_group_sum_push(data, i + 1, j);
        let a = group_sum(data, i + 1, j) as int;
        let g = (data[j] % 128) as int;
        let p = place((j - i - 1) as nat) as int;
        assert(place((j - i) as nat) == 128 * p);
        assert(128 * (a + g * p) == 128 * a + g * (128 * p)) by (nonlinear_arith);
        assert(group_sum(data, i, j + 1) == (data[i] % 128) as nat + 128 * group_sum(data, i + 1, j + 1));
        assert(group_sum(data, i, j) == (data[i] % 128) as nat + 128 * group_sum(data, i + 1, j));
        assert(group_sum(data, i + 1, j + 1) == a + g * p);
        assert(group_sum(data, i, j + 1) == group_sum(data, i, j) + g * (128 * p));
    } else {
        assert(group_sum(data, j + 1, j + 1) == 0);
        assert(place(0) == 1);
        assert((data[j] % 128) as nat * place(0) == (data[j] % 128) as nat);
        assert(group_sum(data, j, j + 1) == (data[j] % 128) as nat + 128 * group_sum(data, j + 1, j + 1));
    }
}

/// One step of the accumulation: adding a group at its place keeps the
/// running value equal to the sum so far, taken in 128 bits.
pub proof fn lemma_accumulate_step(sum: nat, group: nat, place: nat)
    ensures
        ((sum % wide_modulus()) + (group * (place % wide_modulus())) % wide_modulus())
            % wide_modulus() == (sum + group * place) % wide_modulus(),
        ((place % wide_modulus()) * 128) % wide_modulus() == (place * 128) % wide_modulus(),
{
    let m = wide_modulus() as int;
    lemma_mul_mod_noop_right(group as int, place as int, m);
    lemma_add_mod_noop(sum as int, (group * place) as int, m);
    lemma_mul_mod_noop_left(place as int, 128, m);
}

/// The low 32 bits of a value are the low 32 bits of its low 128 bits.
pub proof fn lemma_tag_bits(n: nat)
    ensures
        (n % wide_modulus()) % tag_modulus() == n % tag_modulus(),
{
    let m32: int = tag_modulus() as int;
    let m96: int = 0x1_0000_0000_0000_0000_0000_0000;
    assert(wide_modulus() == m32 * m96);
    vstd::arithmetic::div_mod::lemma_mod_mod(n as int, m32, m96);
}

/// The shortest varint that encodes `n`: seven bits per byte, least
/// significant group first, the high bit set on every byte but the last.
pub open spec fn varint_encoding(n: nat) -> Seq<u8>
    decreases n,
{
    if n < 128 {
        seq![n as u8]
    } else {
        seq![(n % 128 + 128) as u8] + varint_encoding(n / 128)
    }
}

/// Where the encoding of `n` stands in `data` at `i`, the varint read there
/// ends with it and its groups sum to `n`, whatever follows.
pub proof fn lemma_varint_encoding_read(data: Seq<u8>, i: int, n: nat)
    requires
        0 <= i,
        i + varint_encoding(n).len() <= data.len(),
        data.subrange(i, i + varint_encoding(n).len()) == varint_encoding(n),
    ensures
        varint_end(data, i) == Some(i + varint_encoding(n).len()),
        group_sum(data, i, i + varint_encoding(n).len()) == n,
    decreases n,
{
    let enc = varint_encoding(n);
    assert(data[i] == data.subrange(i, i + enc.len())[0]);
    if n < 128 {
        assert(group_sum(data, i + 1, i + 1) == 0);
    } else {
        let rest = varint_encoding(n / 128);
        assert(enc.len() == 1 + rest.len());
        assert(data.subrange(i + 1, i + 1 + rest.len()) =~= rest) by {
            assert forall|k: int| 0 <= k < rest.len() implies data.subrange(
                i + 1,
                i + 1 + rest.len(),
            )[k] == rest[k] by {
                assert(data.subrange(i, i + enc.len())[k + 1] == enc[k + 1]);
            }
        }
        lemma_varint_encoding_read(data, i + 1, n / 128);
    }
}

/// Round trip: reading the encoding of a value that the 128-bit signed
/// accumulator can hold, whatever bytes follow it, ends right after the
/// encoding and gives the value back.
pub proof fn lemma_varint_round_trip(n: nat, rest: Seq<u8>)
    requires
        n <= i128::MAX,
    ensures
        varint_end(varint_encoding(n) + rest, 0) == Some(varint_encoding(n).len() as int),
        varint_value(varint_encoding(n) + rest, 0, varint_encoding(n).len() as int) == n,
{
    let enc = varint_encoding(n);
    let data = enc + rest;
    assert(data.subrange(0, enc.len() as int) =~= enc);
    lemma_varint_encoding_read(data, 0, n);
    vstd::arithmetic::div_mod::lemma_small_mod(n, wide_modulus());
}

} // verus!

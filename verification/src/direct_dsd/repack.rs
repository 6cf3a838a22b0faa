//! Rearranging native DSD bytes into groups of four bytes per channel, and
//! matching their bit order to the wire.

use vstd::arithmetic::div_mod::{
    lemma_div_denominator, lemma_div_multiples_vanish, lemma_fundamental_div_mod_converse,
};
use vstd::prelude::*;

use super::{DirectDsdBitOrder, DirectDsdError};
use crate::dsd::{bit, law_reversed_bits, law_reversing_twice, reverse_byte, reversed};

verus! {

/// `count` bytes of each channel from byte `from` on, four bytes of the first
/// channel, then four of the next, and so on. `bytes(c, i)` is byte `i` of
/// channel `c`.
pub open spec fn l4r4(bytes: spec_fn(int, int) -> u8, ch: int, from: int, count: int) -> Seq<u8> {
    Seq::new(
        (count * ch) as nat,
        |n: int| bytes((n / 4) % ch, from + 4 * (n / (4 * ch)) + n % 4),
    )
}

/// Where byte `4 * k + j` of channel `c` stands in the rearranged bytes.
pub proof fn lemma_l4r4_index(k: int, c: int, j: int, ch: int)
    requires
        0 <= k,
        0 <= c < ch,
        0 <= j < 4,
    ensures
        ({
            let n = 4 * (k * ch + c) + j;
            &&& n / 4 == k * ch + c
            &&& n % 4 == j
            &&& (n / 4) % ch == c
            &&& n / (4 * ch) == k
        }),
{
    let n = 4 * (k * ch + c) + j;
    assert(0 <= k * ch) by (nonlinear_arith)
        requires
            0 <= k,
            0 < ch,
    ;
    lemma_fundamental_div_mod_converse(k * ch + c, ch, k, c);
    lemma_div_denominator(n, 4, ch);
}

/// Rearranging one stretch and then the next is rearranging both at once.
pub proof fn law_l4r4_joins(
    bytes: spec_fn(int, int) -> u8,
    ch: int,
    from: int,
    first: int,
    second: int,
)
    requires
        0 < ch,
        0 <= first,
        first % 4 == 0,
        0 <= second,
    ensures
        l4r4(bytes, ch, from, first) + l4r4(bytes, ch, from + first, second) == l4r4(
            bytes,
            ch,
            from,
            first + second,
        ),
{
    let a = l4r4(bytes, ch, from, first);
    let b = l4r4(bytes, ch, from + first, second);
    let whole = l4r4(bytes, ch, from, first + second);
    assert((first + second) * ch == first * ch + second * ch) by (nonlinear_arith);
    assert(first * ch >= 0 && second * ch >= 0) by (nonlinear_arith)
        requires
            0 <= first,
            0 <= second,
            0 < ch,
    ;
    assert forall|n: int| 0 <= n < whole.len() implies (a + b)[n] == whole[n] by {
        if n >= first * ch {
            let m = n - first * ch;
            let g = first / 4;
            let half = g * ch;
            assert(first * ch == 4 * half) by (nonlinear_arith)
                requires
                    first == 4 * g,
                    half == g * ch,
            ;
            assert(n / 4 == half + m / 4);
            assert(n % 4 == m % 4);
            lemma_div_denominator(n, 4, ch);
            lemma_div_denominator(m, 4, ch);
            let q = (m / 4) / ch;
            let r = (m / 4) % ch;
            vstd::arithmetic::div_mod::lemma_fundamental_div_mod(m / 4, ch);
            assert(n / 4 == (g + q) * ch + r) by (nonlinear_arith)
                requires
                    n / 4 == half + m / 4,
                    half == g * ch,
                    m / 4 == ch * q + r,
            ;
            lemma_fundamental_div_mod_converse(n / 4, ch, g + q, r);
        }
    }
    assert(a + b =~= whole);
}

/// Byte `i` of channel `c` in a DSF block, which stores the channels one after
/// the other.
pub open spec fn block_byte(input: Seq<u8>, block_size: int, c: int, i: int) -> u8 {
    input[c * block_size + i]
}

/// Byte `i` of channel `c` where the bytes of the channels alternate.
pub open spec fn frame_byte(input: Seq<u8>, ch: int, c: int, i: int) -> u8 {
    input[i * ch + c]
}

/// Rearranges part of a DSF block group: `valid_per_channel` bytes of every
/// channel from `start_per_channel` on.
pub fn repack_dsf_l4r4(
    input: &[u8],
    output: &mut [u8],
    channels: usize,
    block_size: usize,
    start_per_channel: usize,
    valid_per_channel: usize,
) -> (r: Result<(), DirectDsdError>)
    requires
        start_per_channel + valid_per_channel <= block_size,
    ensures
        final(output)@.len() == old(output)@.len(),
        ({
            let good = channels > 0 && start_per_channel < block_size && start_per_channel % 4 == 0
                && valid_per_channel % 4 == 0;
            let len = valid_per_channel * channels;
            if !good {
                r == Err::<(), DirectDsdError>(DirectDsdError::RepackParameters) && final(output)@
                    == old(output)@
            } else if input@.len() < block_size * channels {
                r == Err::<(), DirectDsdError>(DirectDsdError::RepackInputTooSmall) && final(output)@ == old(output)@
            } else if old(output)@.len() < len {
                r == Err::<(), DirectDsdError>(DirectDsdError::OutputTooSmall) && final(output)@
                    == old(output)@
            } else {
                &&& r is Ok
                &&& final(output)@.take(len) == l4r4(
                    |c: int, i: int| block_byte(input@, block_size as int, c, i),
                    channels as int,
                    start_per_channel as int,
                    valid_per_channel as int,
                )
                &&& final(output)@.skip(len) == old(output)@.skip(len)
            }
        }),
{
    if channels == 0 || start_per_channel >= block_size || start_per_channel % 4 != 0
        || valid_per_channel % 4 != 0 {
        return Err(DirectDsdError::RepackParameters);
    }
    let stored: usize = match block_size.checked_mul(channels) {
        Some(stored) => stored,
        None => {
            assert(input.len() <= usize::MAX);
            return Err(DirectDsdError::RepackInputTooSmall);
        },
    };
    if input.len() < stored {
        return Err(DirectDsdError::RepackInputTooSmall);
    }
    proof {
        assert(valid_per_channel * channels <= block_size * channels) by (nonlinear_arith)
            requires
                valid_per_channel <= block_size,
        ;
    }
    if output.len() < valid_per_channel * channels {
        return Err(DirectDsdError::OutputTooSmall);
    }
    let ghost ch = channels as int;
    let ghost bs = block_size as int;
    let ghost start = start_per_channel as int;
    let ghost len = valid_per_channel * channels;
    let ghost f = |c: int, i: int| block_byte(input@, bs, c, i);
    let ghost whole = l4r4(f, ch, start, valid_per_channel as int);
    let mut offset: usize = 0;
    let mut dst: usize = 0;
    let ghost mut k: int = 0;
    while offset < valid_per_channel
        invariant
            ch == channels,
            bs == block_size,
            start == start_per_channel,
            0 < ch,
            offset <= valid_per_channel,
            offset == 4 * k,
            0 <= k,
            valid_per_channel % 4 == 0,
            start_per_channel + valid_per_channel <= block_size,
            bs * ch <= input.len(),
            len == valid_per_channel * channels,
            len <= output@.len(),
            len <= usize::MAX,
            dst == 4 * (k * ch),
            dst <= len,
            output@.len() == old(output)@.len(),
            f == (|c: int, i: int| block_byte(input@, bs, c, i)),
            whole == l4r4(f, ch, start, valid_per_channel as int),
            forall|n: int| 0 <= n < dst ==> #[trigger] output@[n] == whole[n],
            forall|n: int| dst <= n < output@.len() ==> #[trigger] output@[n] == old(output)@[n],
        decreases valid_per_channel - offset,
    {
        let byte_offset: usize = start_per_channel + offset;
        let mut channel: usize = 0;
        let mut src_base: usize = 0;
        proof {
            assert(dst + 4 * ch <= len) by (nonlinear_arith)
                requires
                    dst == 4 * (k * ch),
                    4 * k + 4 <= valid_per_channel,
                    len == valid_per_channel * ch,
                    0 < ch,
            ;
        }
        while channel < channels
            invariant
                ch == channels,
                bs == block_size,
                start == start_per_channel,
                0 < ch,
                channel <= channels,
                0 <= k,
                offset == 4 * k,
                offset < valid_per_channel,
                valid_per_channel % 4 == 0,
                byte_offset == start + offset,
                start_per_channel + valid_per_channel <= block_size,
                src_base == channel * bs,
                src_base <= bs * ch,
                bs * ch <= input.len(),
                len == valid_per_channel * channels,
                len <= output@.len(),
                len <= usize::MAX,
                dst == 4 * (k * ch + channel),
                4 * (k * ch) + 4 * ch <= len,
                output@.len() == old(output)@.len(),
                f == (|c: int, i: int| block_byte(input@, bs, c, i)),
                whole == l4r4(f, ch, start, valid_per_channel as int),
                forall|n: int| 0 <= n < dst ==> #[trigger] output@[n] == whole[n],
                forall|n: int|
                    dst <= n < output@.len() ==> #[trigger] output@[n] == old(output)@[n],
            decreases channels - channel,
        {
            proof {
                lemma_l4r4_index(k, channel as int, 0, ch);
                lemma_l4r4_index(k, channel as int, 1, ch);
                lemma_l4r4_index(k, channel as int, 2, ch);
                lemma_l4r4_index(k, channel as int, 3, ch);
                assert(channel * bs + bs <= bs * ch) by (nonlinear_arith)
                    requires
                        channel + 1 <= ch,
                        0 <= bs,
                ;
            }
            let src: usize = src_base + byte_offset;
            output[dst] = input[src];
            output[dst + 1] = input[src + 1];
            output[dst + 2] = input[src + 2];
            output[dst + 3] = input[src + 3];
            dst += 4;
            proof {
                assert((channel + 1) * bs == channel * bs + bs) by (nonlinear_arith);
            }
            src_base += block_size;
            channel += 1;
        }
        offset += 4;
        proof {
            assert((k + 1) * ch == k * ch + ch) by (nonlinear_arith);
            k = k + 1;
        }
    }
    assert(dst == len) by (nonlinear_arith)
        requires
            dst == 4 * (k * ch),
            4 * k == valid_per_channel,
            len == valid_per_channel * ch,
    ;
    assert(output@.take(len) =~= whole);
    assert(output@.skip(len) =~= old(output)@.skip(len));
    Ok(())
}

/// Rearranges whole DFF frames, in which the bytes of the channels alternate.
pub fn repack_dff_l4r4(input: &[u8], output: &mut [u8], channels: usize) -> (r: Result<
    (),
    DirectDsdError,
>)
    ensures
        final(output)@.len() == old(output)@.len(),
        ({
            let len = input@.len() as int;
            if channels == 0 || 4 * channels > usize::MAX {
                r == Err::<(), DirectDsdError>(DirectDsdError::RepackParameters) && final(output)@
                    == old(output)@
            } else if len % (4 * channels) != 0 {
                r == Err::<(), DirectDsdError>(DirectDsdError::RepackAlignment) && final(output)@
                    == old(output)@
            } else if old(output)@.len() < len {
                r == Err::<(), DirectDsdError>(DirectDsdError::OutputTooSmall) && final(output)@
                    == old(output)@
            } else {
                &&& r is Ok
                &&& final(output)@.take(len) == l4r4(
                    |c: int, i: int| frame_byte(input@, channels as int, c, i),
                    channels as int,
                    0,
                    len / (channels as int),
                )
                &&& final(output)@.skip(len) == old(output)@.skip(len)
            }
        }),
{
    if channels == 0 || channels > usize::MAX / 4 {
        return Err(DirectDsdError::RepackParameters);
    }
    let unit: usize = channels * 4;
    if input.len() % unit != 0 {
        return Err(DirectDsdError::RepackAlignment);
    }
    if output.len() < input.len() {
        return Err(DirectDsdError::OutputTooSmall);
    }
    let groups: usize = input.len() / unit;
    let ghost ch = channels as int;
    let ghost len = input@.len() as int;
    let ghost f = |c: int, i: int| frame_byte(input@, ch, c, i);
    let ghost whole = l4r4(f, ch, 0, len / ch);
    proof {
        vstd::arithmetic::div_mod::lemma_fundamental_div_mod(len, unit as int);
        assert(len == (4 * groups) * ch) by (nonlinear_arith)
            requires
                len == unit * groups,
                unit == ch * 4,
        ;
        lemma_div_multiples_vanish(4 * groups, ch);
        assert(len / ch == 4 * groups) by {
            assert(ch * (4 * groups) == len) by (nonlinear_arith)
                requires
                    len == (4 * groups) * ch,
            ;
        }
    }
    let mut group: usize = 0;
    let mut base: usize = 0;
    let mut dst: usize = 0;
    while group < groups
        invariant
            ch == channels,
            0 < ch,
            unit == 4 * ch,
            len == input@.len(),
            len == input.len(),
            len == (4 * groups) * ch,
            len / ch == 4 * groups,
            group <= groups,
            base == 4 * (group * ch),
            dst == base,
            len <= output@.len(),
            output@.len() == old(output)@.len(),
            f == (|c: int, i: int| frame_byte(input@, ch, c, i)),
            whole == l4r4(f, ch, 0, len / ch),
            forall|n: int| 0 <= n < dst ==> #[trigger] output@[n] == whole[n],
            forall|n: int| dst <= n < output@.len() ==> #[trigger] output@[n] == old(output)@[n],
        decreases groups - group,
    {
        proof {
            assert(base + 4 * ch <= len) by (nonlinear_arith)
                requires
                    base == 4 * (group * ch),
                    group + 1 <= groups,
                    len == (4 * groups) * ch,
                    0 < ch,
            ;
        }
        let mut channel: usize = 0;
        while channel < channels
            invariant
                ch == channels,
                0 < ch,
                len == input@.len(),
                len == input.len(),
                len == (4 * groups) * ch,
                len / ch == 4 * groups,
                group < groups,
                base == 4 * (group * ch),
                base + 4 * ch <= len,
                channel <= channels,
                dst == 4 * (group * ch + channel),
                len <= output@.len(),
                output@.len() == old(output)@.len(),
                f == (|c: int, i: int| frame_byte(input@, ch, c, i)),
                whole == l4r4(f, ch, 0, len / ch),
                forall|n: int| 0 <= n < dst ==> #[trigger] output@[n] == whole[n],
                forall|n: int|
                    dst <= n < output@.len() ==> #[trigger] output@[n] == old(output)@[n],
            decreases channels - channel,
        {
            proof {
                lemma_l4r4_index(group as int, channel as int, 0, ch);
                lemma_l4r4_index(group as int, channel as int, 1, ch);
                lemma_l4r4_index(group as int, channel as int, 2, ch);
                lemma_l4r4_index(group as int, channel as int, 3, ch);
                let g = group as int;
                assert((4 * g) * ch == 4 * (g * ch)) by (nonlinear_arith);
                assert((4 * g + 1) * ch == 4 * (g * ch) + ch) by (nonlinear_arith);
                assert((4 * g + 2) * ch == 4 * (g * ch) + 2 * ch) by (nonlinear_arith);
                assert((4 * g + 3) * ch == 4 * (g * ch) + 3 * ch) by (nonlinear_arith);
            }
            let src: usize = base + channel;
            output[dst] = input[src];
            output[dst + 1] = input[src + channels];
            output[dst + 2] = input[src + 2 * channels];
            output[dst + 3] = input[src + 3 * channels];
            dst += 4;
            channel += 1;
        }
        proof {
            assert((group + 1) * ch == group * ch + ch) by (nonlinear_arith);
        }
        base += unit;
        group += 1;
    }
    assert(dst == len) by (nonlinear_arith)
        requires
            dst == 4 * (groups * ch),
            len == (4 * groups) * ch,
    ;
    assert(output@.take(len) =~= whole);
    assert(output@.skip(len) =~= old(output)@.skip(len));
    Ok(())
}

/// The bytes as the wire wants them: with their bits reversed where the orders
/// differ.
pub open spec fn adapted(
    bytes: Seq<u8>,
    source: DirectDsdBitOrder,
    wire: DirectDsdBitOrder,
) -> Seq<u8> {
    if source == wire {
        bytes
    } else {
        bytes.map_values(|b: u8| reversed(b))
    }
}

/// Matches the bit order of the first `len` bytes to the wire.
pub fn adapt_dsd_bit_order(
    payload: &mut Vec<u8>,
    len: usize,
    source_bit_order: DirectDsdBitOrder,
    wire_bit_order: DirectDsdBitOrder,
)
    requires
        len <= old(payload)@.len(),
    ensures
        final(payload)@.take(len as int) == adapted(
            old(payload)@.take(len as int),
            source_bit_order,
            wire_bit_order,
        ),
        final(payload)@.skip(len as int) == old(payload)@.skip(len as int),
        final(payload)@.len() == old(payload)@.len(),
{
    if source_bit_order == wire_bit_order {
        return ;
    }
    let mut i: usize = 0;
    while i < len
        invariant
            i <= len <= payload@.len(),
            payload@.len() == old(payload)@.len(),
            forall|n: int| 0 <= n < i ==> #[trigger] payload@[n] == reversed(old(payload)@[n]),
            forall|n: int| i <= n < payload@.len() ==> #[trigger] payload@[n] == old(payload)@[n],
        decreases len - i,
    {
        let b: u8 = payload[i];
        payload.set(i, reverse_byte(b));
        i += 1;
    }
    assert(payload@.take(len as int) =~= adapted(
        old(payload)@.take(len as int),
        source_bit_order,
        wire_bit_order,
    ));
    assert(payload@.skip(len as int) =~= old(payload)@.skip(len as int));
}

/// Bit `k` in time of a byte stream: the first bit of a byte is its lowest or
/// its highest one, by the bit order.
pub open spec fn logical_bit(bytes: Seq<u8>, order: DirectDsdBitOrder, k: int) -> bool {
    let within = (k % 8) as u8;
    match order {
        DirectDsdBitOrder::LsbFirst => bit(bytes[k / 8], within),
        DirectDsdBitOrder::MsbFirst => bit(bytes[k / 8], (7 - within) as u8),
    }
}

/// Matching the bit order to the wire keeps the sequence of bits.
pub proof fn law_adapting_keeps_the_bits(
    bytes: Seq<u8>,
    source: DirectDsdBitOrder,
    wire: DirectDsdBitOrder,
    k: int,
)
    requires
        0 <= k < 8 * bytes.len(),
    ensures
        logical_bit(adapted(bytes, source, wire), wire, k) == logical_bit(bytes, source, k),
{
    let b = bytes[k / 8];
    let within = (k % 8) as u8;
    law_reversed_bits(b, within);
    law_reversed_bits(b, (7 - within) as u8);
}

/// Matching there and back gives the bytes again.
pub proof fn law_adapting_back(bytes: Seq<u8>, source: DirectDsdBitOrder, wire: DirectDsdBitOrder)
    ensures
        adapted(adapted(bytes, source, wire), wire, source) == bytes,
{
    assert forall|i: int| 0 <= i < bytes.len() implies adapted(
        adapted(bytes, source, wire),
        wire,
        source,
    )[i] == bytes[i] by {
        law_reversing_twice(bytes[i]);
    }
    assert(adapted(adapted(bytes, source, wire), wire, source) =~= bytes);
}

} // verus!

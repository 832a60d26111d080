//! Dealing blocks out to streams in turn.
//!
//! The data of a sample is a run of blocks, one superframe each, that
//! belong to the sample's streams in turn: the first block to the first
//! stream, the next to the second, and after the last stream the first
//! again. Each stream has its own block size.

use vstd::prelude::*;
use vstd::arithmetic::div_mod::{
    lemma_fundamental_div_mod, lemma_fundamental_div_mod_converse, lemma_mod_bound,
    lemma_mod_self_0, lemma_small_mod,
};
use vstd::slice::slice_subrange;
use crate::error::Error;
use crate::wire::push_bytes;

verus! {

/// Size of block number `j` of a sample's data: the blocks go to the
/// streams in turn, and each stream has its own block size.
pub open spec fn block_len(sizes: Seq<u16>, j: nat) -> int {
    if sizes.len() == 0 {
        0
    } else {
        sizes[(j % sizes.len()) as int] as int
    }
}

/// Where block number `j` starts in a sample's data: behind the `j` blocks
/// before it.
pub open spec fn block_start(sizes: Seq<u16>, j: nat) -> int
    decreases j,
{
    if j == 0 {
        0
    } else {
        block_start(sizes, (j - 1) as nat) + block_len(sizes, (j - 1) as nat)
    }
}

/// What stream `k` has got once the first `m` blocks of `region` are dealt
/// out: those whose number leaves `k` when divided by the number of
/// streams, in their order.
pub open spec fn dealt(region: Seq<u8>, sizes: Seq<u16>, k: int, m: nat) -> Seq<u8>
    decreases m,
{
    if m == 0 {
        Seq::empty()
    } else {
        let before = dealt(region, sizes, k, (m - 1) as nat);
        if (m - 1) % (sizes.len() as int) == k {
            before + region.subrange(block_start(sizes, (m - 1) as nat), block_start(sizes, m))
        } else {
            before
        }
    }
}

/// How many blocks fill `len` bytes exactly; `None` where the last block
/// would end behind them.
pub open spec fn spec_block_count(sizes: Seq<u16>, len: int) -> Option<nat> {
    if exists|m: nat| block_start(sizes, m) == len {
        Some(choose|m: nat| block_start(sizes, m) == len)
    } else {
        None
    }
}

/// Every block size is at least one byte.
pub open spec fn sizes_positive(sizes: Seq<u16>) -> bool {
    forall|k: int| 0 <= k < sizes.len() ==> #[trigger] sizes[k] > 0
}

/// Later blocks start later: by one byte per block at least.
pub proof fn lemma_block_start_grows(sizes: Seq<u16>, a: nat, b: nat)
    requires
        sizes.len() > 0,
        sizes_positive(sizes),
        a <= b,
    ensures
        block_start(sizes, a) + (b - a) <= block_start(sizes, b),
    decreases b,
{
    if a < b {
        lemma_block_start_grows(sizes, a, (b - 1) as nat);
        let turn = ((b - 1) as nat % sizes.len()) as int;
        assert(0 <= turn < sizes.len()) by (nonlinear_arith)
            requires
                sizes.len() > 0,
                turn == ((b - 1) as nat % sizes.len()) as int,
        ;
        assert(sizes[turn] > 0);
    }
}

/// With no stream to take them, blocks are empty.
pub proof fn lemma_block_start_none(sizes: Seq<u16>, j: nat)
    requires
        sizes.len() == 0,
    ensures
        block_start(sizes, j) == 0,
    decreases j,
{
    if j > 0 {
        lemma_block_start_none(sizes, (j - 1) as nat);
    }
}

/// Only one number of blocks fills a given length.
pub proof fn lemma_block_count_unique(sizes: Seq<u16>, len: int, m: nat)
    requires
        sizes.len() > 0,
        sizes_positive(sizes),
        block_start(sizes, m) == len,
    ensures
        spec_block_count(sizes, len) == Some(m),
{
    let found = choose|c: nat| block_start(sizes, c) == len;
    if found < m {
        lemma_block_start_grows(sizes, found, m);
    } else if m < found {
        lemma_block_start_grows(sizes, m, found);
    }
}

/// Where a block starts before the end of the data and ends behind it, no
/// number of blocks fills the data.
pub proof fn lemma_block_count_none(sizes: Seq<u16>, len: int, j: nat)
    requires
        sizes.len() > 0,
        sizes_positive(sizes),
        block_start(sizes, j) < len < block_start(sizes, j + 1),
    ensures
        spec_block_count(sizes, len) is None,
{
    assert forall|m: nat| block_start(sizes, m) != len by {
        if m <= j {
            lemma_block_start_grows(sizes, m, j);
        } else {
            lemma_block_start_grows(sizes, j + 1, m);
        }
    }
}

/// The turn after `j` is the next stream, and after the last stream the
/// first.
pub proof fn lemma_next_turn(j: nat, n: nat)
    requires
        n > 0,
    ensures
        j % n < n,
        (j + 1) % n == (if j % n + 1 == n {
            0
        } else {
            j % n + 1
        }),
        (j + 1) / n == (if j % n + 1 == n {
            j / n + 1
        } else {
            j / n
        }),
{
    lemma_fundamental_div_mod(j as int, n as int);
    lemma_mod_bound(j as int, n as int);
    let q = j as int / n as int;
    let r = j as int % n as int;
    if r + 1 == n {
        assert(j + 1 == (q + 1) * n + 0) by (nonlinear_arith)
            requires
                j == n * q + r,
                r + 1 == n,
        ;
        lemma_fundamental_div_mod_converse(
            j as int + 1,
            n as int,
            q + 1,
            0,
        );
    } else {
        assert(j + 1 == q * n + (r + 1)) by (nonlinear_arith)
            requires
                j == n * q + r,
        ;
        lemma_fundamental_div_mod_converse(
            j as int + 1,
            n as int,
            q,
            r + 1,
        );
    }
}

/// Deals the blocks of `region` out to as many streams as there are block
/// sizes, in turn from the first stream on, until `region` is used up.
///
/// Stream `k` gets blocks of `sizes[k]` bytes. The data is refused where
/// it ends inside a block.
pub fn distribute(region: &[u8], sizes: &Vec<u16>) -> (r: Result<Vec<Vec<u8>>, Error>)
    requires
        sizes_positive(sizes@),
    ensures
        match spec_block_count(sizes@, region@.len() as int) {
            Some(m) => r is Ok && r->Ok_0@.len() == sizes@.len() && forall|k: int|
                0 <= k < sizes@.len() ==> (#[trigger] r->Ok_0@[k])@ == dealt(
                    region@,
                    sizes@,
                    k,
                    m,
                ),
            None => r is Err && r->Err_0 == Error::ShortRead,
        },
{
    let n = sizes.len();
    let mut payloads: Vec<Vec<u8>> = Vec::new();
    if n == 0 {
        if region.len() == 0 {
            assert(block_start(sizes@, 0) == 0);
            return Ok(payloads);
        } else {
            proof {
                assert forall|m: nat| block_start(sizes@, m) != region@.len() by {
                    lemma_block_start_none(sizes@, m);
                }
            }
            return Err(Error::ShortRead);
        }
    }
    while payloads.len() < n
        invariant
            payloads@.len() <= n,
            n == sizes@.len(),
            forall|k: int| 0 <= k < payloads@.len() ==> (#[trigger] payloads@[k])@.len() == 0,
        decreases n - payloads@.len(),
    {
        payloads.push(Vec::new());
    }
    let mut pos: usize = 0;
    let mut turn: usize = 0;
    let ghost mut j: nat = 0;
    while pos < region.len()
        invariant
            n == sizes@.len(),
            n > 0,
            sizes_positive(sizes@),
            pos <= region@.len(),
            pos == block_start(sizes@, j),
            turn == j % (n as nat),
            turn < n,
            payloads@.len() == n,
            forall|k: int|
                0 <= k < n ==> (#[trigger] payloads@[k])@ =~= dealt(region@, sizes@, k, j),
        decreases region@.len() - pos,
    {
        let size: usize = sizes[turn] as usize;
        assert(block_start(sizes@, j + 1) == pos + size);
        if size > region.len() - pos {
            proof {
                lemma_block_count_none(sizes@, region@.len() as int, j);
            }
            return Err(Error::ShortRead);
        }
        let ghost before = payloads@;
        push_bytes(&mut payloads[turn], slice_subrange(region, pos, pos + size));
        proof {
            lemma_next_turn(j, n as nat);
            assert forall|k: int| 0 <= k < n implies (#[trigger] payloads@[k])@ =~= dealt(
                region@,
                sizes@,
                k,
                j + 1,
            ) by {
                assert(before[k]@ =~= dealt(region@, sizes@, k, j));
            }
        }
        proof {
            if turn + 1 == n {
                lemma_mod_self_0(n as int);
            } else {
                lemma_small_mod((turn + 1) as nat, n as nat);
            }
            j = j + 1;
        }
        pos = pos + size;
        turn = (turn + 1) % n;
    }
    proof {
        lemma_block_count_unique(sizes@, region@.len() as int, j);
    }
    Ok(payloads)
}

/// What all streams have got once the first `m` blocks of `region` are
/// dealt out.
pub open spec fn all_dealt(region: Seq<u8>, sizes: Seq<u16>, m: nat) -> Seq<Seq<u8>> {
    Seq::new(sizes.len(), |k: int| dealt(region, sizes, k, m))
}

/// The number of bytes in all of `payloads` together.
pub open spec fn total_len(payloads: Seq<Seq<u8>>) -> int
    decreases payloads.len(),
{
    if payloads.len() == 0 {
        0
    } else {
        total_len(payloads.drop_last()) + payloads.last().len()
    }
}

/// Where one payload is exchanged, the total changes by the difference of
/// the two lengths.
pub proof fn lemma_total_len_update(payloads: Seq<Seq<u8>>, k: int, payload: Seq<u8>)
    requires
        0 <= k < payloads.len(),
    ensures
        total_len(payloads.update(k, payload)) == total_len(payloads) - payloads[k].len()
            + payload.len(),
    decreases payloads.len(),
{
    let updated = payloads.update(k, payload);
    if k == payloads.len() - 1 {
        assert(updated.drop_last() =~= payloads.drop_last());
    } else {
        assert(updated.drop_last() =~= payloads.drop_last().update(k, payload));
        lemma_total_len_update(payloads.drop_last(), k, payload);
    }
}

/// Payloads that are all empty hold no bytes.
pub proof fn lemma_total_len_empty(payloads: Seq<Seq<u8>>)
    requires
        forall|k: int| 0 <= k < payloads.len() ==> (#[trigger] payloads[k]).len() == 0,
    ensures
        total_len(payloads) == 0,
    decreases payloads.len(),
{
    if payloads.len() > 0 {
        lemma_total_len_empty(payloads.drop_last());
    }
}

/// No byte is dropped and none is dealt twice: after `m` blocks the streams
/// hold, all together, as many bytes as the blocks held.
pub proof fn lemma_dealt_total(region: Seq<u8>, sizes: Seq<u16>, m: nat)
    requires
        sizes.len() > 0,
        sizes_positive(sizes),
        block_start(sizes, m) <= region.len(),
    ensures
        total_len(all_dealt(region, sizes, m)) == block_start(sizes, m),
    decreases m,
{
    if m == 0 {
        lemma_total_len_empty(all_dealt(region, sizes, 0));
    } else {
        let j = (m - 1) as nat;
        lemma_block_start_grows(sizes, 0, j);
        lemma_block_start_grows(sizes, j, m);
        lemma_dealt_total(region, sizes, j);
        lemma_mod_bound(j as int, sizes.len() as int);
        let turn = j as int % sizes.len() as int;
        let before = all_dealt(region, sizes, j);
        let block = region.subrange(block_start(sizes, j), block_start(sizes, m));
        assert(all_dealt(region, sizes, m) =~= before.update(turn, before[turn] + block));
        lemma_total_len_update(before, turn, before[turn] + block);
    }
}

/// A single stream gets the data as it is: after `m` blocks, all the data
/// up to the end of the last of them.
pub proof fn lemma_single_stream(region: Seq<u8>, sizes: Seq<u16>, m: nat)
    requires
        sizes.len() == 1,
        sizes_positive(sizes),
        block_start(sizes, m) <= region.len(),
    ensures
        dealt(region, sizes, 0, m) == region.subrange(0, block_start(sizes, m)),
    decreases m,
{
    if m > 0 {
        let j = (m - 1) as nat;
        lemma_block_start_grows(sizes, 0, j);
        lemma_block_start_grows(sizes, j, m);
        lemma_single_stream(region, sizes, j);
        assert((j as int) % 1 == 0);
        assert(dealt(region, sizes, 0, m) =~= region.subrange(0, block_start(sizes, m)));
    } else {
        assert(dealt(region, sizes, 0, 0) =~= region.subrange(0, 0));
    }
}

/// Every stream has blocks of `size` bytes.
pub open spec fn sizes_uniform(sizes: Seq<u16>, size: u16) -> bool {
    forall|k: int| 0 <= k < sizes.len() ==> #[trigger] sizes[k] == size
}

/// With blocks of one size, block `j` starts at `j` times that size.
pub proof fn lemma_uniform_block_start(sizes: Seq<u16>, size: u16, j: nat)
    requires
        sizes.len() > 0,
        sizes_uniform(sizes, size),
    ensures
        block_start(sizes, j) == j * size,
    decreases j,
{
    if j > 0 {
        lemma_uniform_block_start(sizes, size, (j - 1) as nat);
        let turn = ((j - 1) as nat % sizes.len()) as int;
        assert(0 <= turn < sizes.len()) by (nonlinear_arith)
            requires
                sizes.len() > 0,
                turn == ((j - 1) as nat % sizes.len()) as int,
        ;
        assert(sizes[turn] == size);
        let i = j as int;
        let s = size as int;
        assert(block_start(sizes, j) == (i - 1) * s + s);
        assert((i - 1) * s + s == i * s) by (nonlinear_arith);
    } else {
        assert(0 * (size as int) == 0);
    }
}

/// How many of the first `m` blocks go to stream `k` of `n`: those whose
/// number leaves `k` when divided by `n`.
pub open spec fn blocks_of(n: int, k: int, m: int) -> int {
    if m % n > k {
        m / n + 1
    } else {
        m / n
    }
}

/// Stream `k` of `n` gets the blocks number `k`, `k + n`, `k + 2n` and so
/// on, in that order: of the first `m` blocks of `region`, all of `size`
/// bytes, its block number `t` is block number `t * n + k` of `region`.
pub proof fn lemma_round_robin(region: Seq<u8>, sizes: Seq<u16>, size: u16, k: int, m: nat)
    requires
        sizes.len() > 0,
        size > 0,
        sizes_uniform(sizes, size),
        0 <= k < sizes.len(),
        m * size <= region.len(),
    ensures
        dealt(region, sizes, k, m).len() == blocks_of(sizes.len() as int, k, m as int) * size,
        forall|t: int|
            0 <= t < blocks_of(sizes.len() as int, k, m as int) ==> #[trigger] dealt(
                region,
                sizes,
                k,
                m,
            ).subrange(t * size, (t + 1) * size) == region.subrange(
                (t * sizes.len() + k) * size,
                (t * sizes.len() + k + 1) * size,
            ),
    decreases m,
{
    let n = sizes.len() as int;
    let s = size as int;
    if m == 0 {
        lemma_small_mod(0, n as nat);
        assert(0int / n == 0) by (nonlinear_arith)
            requires
                n > 0,
        ;
    } else {
        let j = (m - 1) as nat;
        assert(j * s <= m * s) by (nonlinear_arith)
            requires
                j <= m,
                s > 0,
        ;
        lemma_round_robin(region, sizes, size, k, j);
        lemma_next_turn(j, n as nat);
        lemma_fundamental_div_mod(j as int, n);
        lemma_uniform_block_start(sizes, size, j);
        lemma_uniform_block_start(sizes, size, m);
        let q = j as int / n;
        let r = j as int % n;
        let before = dealt(region, sizes, k, j);
        let after = dealt(region, sizes, k, m);
        let had = blocks_of(n, k, j as int);
        if r == k {
            let block = region.subrange(j * s, m * s);
            assert(after == before + block);
            assert(had == q);
            assert(blocks_of(n, k, m as int) == q + 1);
            assert(m * s - j * s == s) by (nonlinear_arith)
                requires
                    m == j + 1,
            ;
            assert((q + 1) * s == q * s + s) by (nonlinear_arith);
            assert(j == q * n + k) by (nonlinear_arith)
                requires
                    j == n * q + r,
                    r == k,
            ;
            assert forall|t: int| 0 <= t < q + 1 implies #[trigger] after.subrange(
                t * s,
                (t + 1) * s,
            ) == region.subrange((t * n + k) * s, (t * n + k + 1) * s) by {
                if t < q {
                    assert(0 <= t * s <= (t + 1) * s <= q * s) by (nonlinear_arith)
                        requires
                            0 <= t < q,
                            s > 0,
                    ;
                    assert(before.len() == q * s);
                    assert(after.subrange(t * s, (t + 1) * s) =~= before.subrange(
                        t * s,
                        (t + 1) * s,
                    ));
                } else {
                    assert(after.subrange(q * s, (q + 1) * s) =~= block);
                    assert((q * n + k + 1) * s == m * s);
                }
            }
        } else {
            assert(after == before);
            assert(blocks_of(n, k, m as int) == had);
        }
    }
}

/// Where every stream has blocks of `size` bytes, the data can be shared
/// out evenly among the streams and each share is a whole number of
/// blocks, the blocks fill the data exactly and every stream gets its
/// share: no byte is dropped and none is dealt twice.
pub proof fn lemma_even_split(region: Seq<u8>, sizes: Seq<u16>, size: u16, k: int)
    requires
        sizes.len() > 0,
        size > 0,
        sizes_uniform(sizes, size),
        0 <= k < sizes.len(),
        region.len() % sizes.len() == 0,
        (region.len() / sizes.len()) % (size as nat) == 0,
    ensures
        spec_block_count(sizes, region.len() as int) == Some(region.len() / (size as nat)),
        dealt(region, sizes, k, region.len() / (size as nat)).len() == region.len() / sizes.len(),
        total_len(all_dealt(region, sizes, region.len() / (size as nat))) == region.len(),
{
    let n = sizes.len() as int;
    let s = size as int;
    let len = region.len() as int;
    let share = len / n;
    let rounds = share / s;
    lemma_fundamental_div_mod(len, n);
    lemma_fundamental_div_mod(share, s);
    let m = rounds * n;
    assert(m >= 0) by (nonlinear_arith)
        requires
            m == rounds * n,
            rounds >= 0,
            n > 0,
    ;
    assert(m * s == len) by (nonlinear_arith)
        requires
            m == rounds * n,
            len == n * share,
            share == s * rounds,
    ;
    lemma_fundamental_div_mod_converse(len, s, m, 0);
    lemma_fundamental_div_mod_converse(m, n, rounds, 0);
    assert forall|i: int| 0 <= i < sizes.len() implies #[trigger] sizes[i] > 0 by {}
    lemma_uniform_block_start(sizes, size, m as nat);
    lemma_block_count_unique(sizes, len, m as nat);
    lemma_round_robin(region, sizes, size, k, m as nat);
    assert(rounds * s == share) by (nonlinear_arith)
        requires
            share == s * rounds,
    ;
    lemma_dealt_total(region, sizes, m as nat);
}

} // verus!

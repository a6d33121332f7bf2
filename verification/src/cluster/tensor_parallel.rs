//! Shares of a dimension, and of a weight along one of its axes.
use candle_core::Tensor;
use vstd::prelude::*;

verus! {

/// There is nobody to share with.
#[derive(Debug, Clone, Copy, PartialEq, Eq, Structural)]
pub struct NoRanks;

/// Where the share of `rank` begins: what does not divide evenly goes, one
/// each, to the first ranks.
pub open spec fn shard_start(dim: int, rank: int, world: int) -> int {
    let left = dim % world;
    rank * (dim / world) + (if rank < left {
        rank
    } else {
        left
    })
}

/// The contiguous range `[start, end)` that `rank` owns of a dimension.
pub fn shard_bounds(dim_size: usize, rank: usize, world_size: usize) -> (r: Result<
    (usize, usize),
    NoRanks,
>)
    requires
        world_size > 0 ==> shard_start(dim_size as int, rank + 1, world_size as int) <= usize::MAX,
    ensures
        match r {
            Ok((start, end)) => world_size > 0 && start == shard_start(
                dim_size as int,
                rank as int,
                world_size as int,
            ) && end == shard_start(dim_size as int, rank + 1, world_size as int),
            Err(_) => world_size == 0,
        },
{
    if world_size == 0 {
        return Err(NoRanks);
    }
    let base: usize = dim_size / world_size;
    let left: usize = dim_size % world_size;
    proof {
        assert((rank + 1) * base == rank * base + base) by (nonlinear_arith);
        assert(rank * base >= 0) by (nonlinear_arith)
            requires
                rank >= 0,
                base >= 0,
        ;
    }
    let start: usize = rank * base + (if rank < left {
        rank
    } else {
        left
    });
    let extra: usize = if rank < left {
        1
    } else {
        0
    };
    Ok((start, start + base + extra))
}

#[verifier::external_type_specification]
#[verifier::external_body]
pub struct ExTensor(candle_core::Tensor);

#[verifier::external_type_specification]
#[verifier::external_body]
pub struct ExTensorError(candle_core::Error);

/// How far a tensor extends along each of its axes.
pub uninterp spec fn shape(tensor: candle_core::Tensor) -> Seq<usize>;

/// Where in its storage a tensor finds the element at an index, a number for
/// each axis.
pub uninterp spec fn places(tensor: candle_core::Tensor) -> Map<Seq<int>, int>;

/// An index lies within a shape.
pub open spec fn lies_within(index: Seq<int>, shape: Seq<usize>) -> bool {
    &&& index.len() == shape.len()
    &&& forall|k: int| 0 <= k < shape.len() ==> 0 <= #[trigger] index[k] < shape[k]
}

/// `part` is `whole` cut down to `len` steps along one axis, from `start` on:
/// every other axis is kept, and each element is the one of `whole` that is
/// `start` steps further along the axis.
pub open spec fn is_cut(
    part: candle_core::Tensor,
    whole: candle_core::Tensor,
    axis: int,
    start: int,
    len: int,
) -> bool {
    &&& shape(part) == shape(whole).update(axis, len as usize)
    &&& forall|index: Seq<int>| #[trigger]
        lies_within(index, shape(part)) ==> places(part)[index] == places(whole)[index.update(
            axis,
            index[axis] + start,
        )]
}

/// The extent of a tensor along an axis.
///
/// Trusted: `candle_core::Tensor::dim` fails exactly where the tensor has no
/// such axis.
#[verifier::external_body]
fn extent(tensor: &Tensor, axis: usize) -> (r: Result<usize, candle_core::Error>)
    ensures
        match r {
            Ok(extent) => axis < shape(*tensor).len() && extent == shape(*tensor)[axis as int],
            Err(_) => axis >= shape(*tensor).len(),
        },
{
    tensor.dim(axis)
}

/// Cuts a tensor down along an axis.
///
/// Trusted: `candle_core::Tensor::narrow` fails exactly where the tensor has
/// no such axis or does not reach as far as the cut. What it gives reads the
/// storage of `tensor` itself: that the storage is the same one, and what
/// numbers it holds at a given time, is not stated.
#[verifier::external_body]
fn cut(tensor: &Tensor, axis: usize, start: usize, len: usize) -> (r: Result<
    Tensor,
    candle_core::Error,
>)
    requires
        start + len <= usize::MAX,
    ensures
        match r {
            Ok(part) => {
                &&& axis < shape(*tensor).len()
                &&& start + len <= shape(*tensor)[axis as int]
                &&& shape(part) == shape(*tensor).update(axis as int, len)
                &&& forall|index: Seq<int>| #[trigger]
                    lies_within(index, shape(part)) ==> places(part)[index] == places(
                        *tensor,
                    )[index.update(axis as int, index[axis as int] + start)]
            },
            Err(_) => axis < shape(*tensor).len() ==> start + len > shape(*tensor)[axis as int],
        },
{
    tensor.narrow(axis, start, len)
}

/// Why a weight has no share for a rank.
#[derive(Debug, Clone, Copy, PartialEq, Eq, Structural)]
pub enum ShardError {
    /// The weight lacks the axis.
    NoAxis,
    /// There is nobody to share with.
    NoRanks,
    /// The share lies beyond the end of the axis.
    Beyond,
}

/// What cutting the share of a rank out of a weight comes to.
pub open spec fn sharded(
    weight: candle_core::Tensor,
    axis: int,
    rank: int,
    world: int,
    r: Result<candle_core::Tensor, ShardError>,
) -> bool {
    let start = shard_start(shape(weight)[axis] as int, rank, world);
    let end = shard_start(shape(weight)[axis] as int, rank + 1, world);
    match r {
        Ok(part) => {
            &&& axis < shape(weight).len()
            &&& world > 0
            &&& end <= shape(weight)[axis]
            &&& is_cut(part, weight, axis, start, end - start)
        },
        Err(ShardError::NoAxis) => axis >= shape(weight).len(),
        Err(ShardError::NoRanks) => axis < shape(weight).len() && world == 0,
        Err(ShardError::Beyond) => {
            &&& axis < shape(weight).len()
            &&& world > 0
            &&& end > shape(weight)[axis]
        },
    }
}

/// Cuts the share of a rank out of a weight along an axis.
fn shard(weight: &Tensor, axis: usize, rank: usize, world_size: usize) -> (r: Result<
    Tensor,
    ShardError,
>)
    ensures
        sharded(*weight, axis as int, rank as int, world_size as int, r),
{
    let size: usize = match extent(weight, axis) {
        Ok(size) => size,
        Err(_) => return Err(ShardError::NoAxis),
    };
    if world_size == 0 {
        return Err(ShardError::NoRanks);
    }
    if rank >= world_size && size >= world_size {
        proof {
            lemma_beyond(size as int, rank as int, world_size as int);
        }
        return Err(ShardError::Beyond);
    }
    proof {
        lemma_share_fits(size as int, rank as int, world_size as int);
    }
    match shard_bounds(size, rank, world_size) {
        Ok((start, end)) => match cut(weight, axis, start, end - start) {
            Ok(part) => Ok(part),
            Err(_) => Err(ShardError::Beyond),
        },
        Err(_) => Err(ShardError::NoRanks),
    }
}

/// The share of a rank in a weight that is split by its outputs, along the
/// first axis.
pub fn shard_col_parallel(weight: &Tensor, rank: usize, world_size: usize) -> (r: Result<
    Tensor,
    ShardError,
>)
    ensures
        sharded(*weight, 0, rank as int, world_size as int, r),
{
    shard(weight, 0, rank, world_size)
}

/// The share of a rank in a weight that is split by its inputs, along the
/// second axis.
pub fn shard_row_parallel(weight: &Tensor, rank: usize, world_size: usize) -> (r: Result<
    Tensor,
    ShardError,
>)
    ensures
        sharded(*weight, 1, rank as int, world_size as int, r),
{
    shard(weight, 1, rank, world_size)
}

/// A rank that does not exist has no share of a dimension that is large
/// enough for all that do.
proof fn lemma_beyond(dim: int, rank: int, world: int)
    requires
        world > 0,
        dim >= world,
        rank >= world,
    ensures
        shard_start(dim, rank + 1, world) > dim,
{
    let base = dim / world;
    let left = dim % world;
    assert(dim == base * world + left && 0 <= left < world && base > 0) by (nonlinear_arith)
        requires
            world > 0,
            dim >= world,
            base == dim / world,
            left == dim % world,
    ;
    assert((rank + 1) * base > base * world) by (nonlinear_arith)
        requires
            rank >= world,
            base > 0,
    ;
}

/// Otherwise its share ends within the dimension.
proof fn lemma_share_fits(dim: int, rank: int, world: int)
    requires
        world > 0,
        dim >= 0,
        rank >= 0,
        rank < world || dim < world,
    ensures
        0 <= shard_start(dim, rank, world) <= shard_start(dim, rank + 1, world) <= dim,
{
    if rank < world {
        law_shards_cover(dim, rank, rank, world);
    } else {
        assert(dim / world == 0 && dim % world == dim) by (nonlinear_arith)
            requires
                0 <= dim < world,
        ;
    }
}

/// Nothing is dropped: the first share begins at zero, each ends where the
/// next begins, and the last ends with the dimension. No two shares differ in
/// size by more than one.
pub proof fn law_shards_cover(dim: int, rank: int, other: int, world: int)
    requires
        world > 0,
        dim >= 0,
        0 <= rank < world,
        0 <= other < world,
    ensures
        shard_start(dim, 0, world) == 0,
        shard_start(dim, world, world) == dim,
        0 <= shard_start(dim, rank, world) <= shard_start(dim, rank + 1, world) <= dim,
        ({
            let mine = shard_start(dim, rank + 1, world) - shard_start(dim, rank, world);
            let theirs = shard_start(dim, other + 1, world) - shard_start(dim, other, world);
            mine <= theirs + 1
        }),
{
    let base = dim / world;
    let left = dim % world;
    assert(dim == base * world + left && 0 <= left < world && base >= 0) by (nonlinear_arith)
        requires
            world > 0,
            dim >= 0,
            base == dim / world,
            left == dim % world,
    ;
    assert(world * base == base * world) by (nonlinear_arith);
    assert((rank + 1) * base == rank * base + base) by (nonlinear_arith);
    assert((other + 1) * base == other * base + base) by (nonlinear_arith);
    assert(0 * base == 0);
    assert(rank * base >= 0) by (nonlinear_arith)
        requires
            rank >= 0,
            base >= 0,
    ;
    assert((rank + 1) * base <= world * base) by (nonlinear_arith)
        requires
            rank + 1 <= world,
            base >= 0,
    ;
}

/// Every index of the dimension belongs to exactly one rank.
pub proof fn law_one_owner(dim: int, world: int, a: int, b: int, index: int)
    requires
        world > 0,
        dim >= 0,
        0 <= a < world,
        0 <= b < world,
        shard_start(dim, a, world) <= index < shard_start(dim, a + 1, world),
        shard_start(dim, b, world) <= index < shard_start(dim, b + 1, world),
    ensures
        a == b,
{
    if a < b {
        lemma_starts_rise(dim, world, a + 1, b);
    }
    if b < a {
        lemma_starts_rise(dim, world, b + 1, a);
    }
}

/// Every index of the dimension belongs to some rank.
pub proof fn law_every_index_owned(dim: int, world: int, index: int)
    requires
        world > 0,
        0 <= index < dim,
    ensures
        exists|rank: int|
            0 <= rank < world && #[trigger] shard_start(dim, rank, world) <= index < shard_start(
                dim,
                rank + 1,
                world,
            ),
{
    law_shards_cover(dim, 0, 0, world);
    let rank = lemma_owner(dim, world, index, world);
    assert(shard_start(dim, rank, world) <= index);
}

/// The shares of all ranks make up the weight: each of its elements is in one
/// of them.
pub proof fn law_shares_make_up_weight(
    weight: candle_core::Tensor,
    axis: int,
    shares: Seq<candle_core::Tensor>,
    index: Seq<int>,
)
    requires
        axis >= 0,
        shares.len() > 0,
        forall|rank: int|
            0 <= rank < shares.len() ==> sharded(
                weight,
                axis,
                rank,
                shares.len() as int,
                Ok(#[trigger] shares[rank]),
            ),
        lies_within(index, shape(weight)),
    ensures
        exists|rank: int, at: Seq<int>|
            0 <= rank < shares.len() && #[trigger] lies_within(at, shape(shares[rank])) && places(
                shares[rank],
            )[at] == places(weight)[index],
{
    let world = shares.len() as int;
    let dim = shape(weight)[axis] as int;
    assert(sharded(weight, axis, 0, world, Ok(shares[0])));
    assert(0 <= index[axis] < dim);
    law_shards_cover(dim, 0, 0, world);
    let rank = lemma_owner(dim, world, index[axis], world);
    let start = shard_start(dim, rank, world);
    let at = index.update(axis, index[axis] - start);
    assert(sharded(weight, axis, rank, world, Ok(shares[rank])));
    law_shards_cover(dim, rank, rank, world);
    assert(lies_within(at, shape(shares[rank])));
    assert(at.update(axis, at[axis] + start) =~= index);
}

proof fn lemma_owner(dim: int, world: int, index: int, bound: int) -> (rank: int)
    requires
        world > 0,
        0 <= index < dim,
        0 <= bound <= world,
        index < shard_start(dim, bound, world),
    ensures
        0 <= rank < bound,
        shard_start(dim, rank, world) <= index < shard_start(dim, rank + 1, world),
    decreases bound,
{
    law_shards_cover(dim, 0, 0, world);
    if shard_start(dim, bound - 1, world) <= index {
        bound - 1
    } else {
        lemma_owner(dim, world, index, bound - 1)
    }
}

proof fn lemma_starts_rise(dim: int, world: int, a: int, b: int)
    requires
        world > 0,
        dim >= 0,
        0 <= a <= b <= world,
    ensures
        shard_start(dim, a, world) <= shard_start(dim, b, world),
    decreases b - a,
{
    if a < b {
        lemma_starts_rise(dim, world, a, b - 1);
        law_shards_cover(dim, b - 1, b - 1, world);
    }
}

/// Every machine has the same whole part of a dimension, and the first ones
/// have one more, as many as are left over.
pub proof fn law_shard_sizes(dim: int, rank: int, world: int)
    requires
        world > 0,
        dim >= 0,
        0 <= rank < world,
    ensures
        shard_start(dim, rank + 1, world) - shard_start(dim, rank, world) == dim / world + (if rank
            < dim % world {
            1int
        } else {
            0
        }),
{
    let base = dim / world;
    assert((rank + 1) * base == rank * base + base) by (nonlinear_arith);
}

} // verus!

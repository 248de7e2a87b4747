//! Run-length-encoded storage of chunk cells, kept in `rle_vec::RleVec`.
use vstd::prelude::*;
use rle_vec::RleVec;
use crate::block::Block;
use crate::light::LightVal;

verus! {

#[verifier::external_type_specification]
#[verifier::external_body]
#[verifier::reject_recursive_types(T)]
pub struct ExRleVec<T>(RleVec<T>);

/// The cells that a run-length-encoded block vector holds, in order.
pub uninterp spec fn block_cells(v: RleVec<Block>) -> Seq<Block>;

/// The cells that a run-length-encoded light vector holds, in order.
pub uninterp spec fn light_cells(v: RleVec<LightVal>) -> Seq<LightVal>;

/// Relies on `RleVec`'s `FromIterator`: the vector holds the items in order.
#[verifier::external_body]
pub(crate) fn blocks_from_vec(v: Vec<Block>) -> (r: RleVec<Block>)
    ensures
        block_cells(r) == v@,
{
    v.into_iter().collect()
}

/// Relies on `RleVec`'s `Index<usize>`: the item at position `i`.
#[verifier::external_body]
pub(crate) fn block_at(v: &RleVec<Block>, i: usize) -> (r: &Block)
    requires
        i < block_cells(*v).len(),
    ensures
        *r == block_cells(*v)[i as int],
{
    &v[i]
}

/// Relies on `RleVec::set`: replaces the item at position `i`, the others are kept.
#[verifier::external_body]
pub(crate) fn set_block_cell(v: &mut RleVec<Block>, i: usize, b: Block)
    requires
        i < block_cells(*old(v)).len(),
    ensures
        block_cells(*final(v)) == block_cells(*old(v)).update(i as int, b),
{
    v.set(i, b)
}

/// Relies on `RleVec::to_vec`: the items in order.
#[verifier::external_body]
pub(crate) fn block_cells_to_vec(v: &RleVec<Block>) -> (r: Vec<Block>)
    ensures
        r@ == block_cells(*v),
{
    v.to_vec()
}

/// Every item of `a` occurs in `b` and every item of `b` occurs in `a`.
pub open spec fn same_values(a: Seq<Block>, b: Seq<Block>) -> bool {
    &&& forall|i: int| 0 <= i < a.len() ==> b.contains(#[trigger] a[i])
    &&& forall|j: int| 0 <= j < b.len() ==> a.contains(#[trigger] b[j])
}

/// Relies on `RleVec::runs`: one value per run; every item equals some run's value
/// and every run's value is some item.
#[verifier::external_body]
pub(crate) fn block_run_values(v: &RleVec<Block>) -> (r: Vec<Block>)
    ensures
        same_values(block_cells(*v), r@),
{
    v.runs().map(|run| *run.value).collect()
}

/// Relies on `RleVec`'s `FromIterator`: the vector holds the items in order.
#[verifier::external_body]
pub(crate) fn lights_from_vec(v: Vec<LightVal>) -> (r: RleVec<LightVal>)
    ensures
        light_cells(r) == v@,
{
    v.into_iter().collect()
}

/// Relies on `RleVec`'s `Index<usize>`: the item at position `i`.
#[verifier::external_body]
pub(crate) fn light_at(v: &RleVec<LightVal>, i: usize) -> (r: &LightVal)
    requires
        i < light_cells(*v).len(),
    ensures
        *r == light_cells(*v)[i as int],
{
    &v[i]
}

/// Relies on `RleVec::set`: replaces the item at position `i`, the others are kept.
#[verifier::external_body]
pub(crate) fn set_light_cell(v: &mut RleVec<LightVal>, i: usize, l: LightVal)
    requires
        i < light_cells(*old(v)).len(),
    ensures
        light_cells(*final(v)) == light_cells(*old(v)).update(i as int, l),
{
    v.set(i, l)
}

/// Relies on `RleVec`'s derived `Clone`: the copy holds the same items.
#[verifier::external_body]
pub(crate) fn clone_block_cells(v: &RleVec<Block>) -> (r: RleVec<Block>)
    ensures
        block_cells(r) == block_cells(*v),
{
    v.clone()
}

} // verus!

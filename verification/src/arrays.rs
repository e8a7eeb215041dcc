use vstd::prelude::*;

use arrayvec::ArrayVec;

use crate::gamestate::GameState;
use crate::move_struct::Move;

verus! {

// `arrayvec::ArrayVec` holds two collections of this library: the stack of game states
// (capacity 512) and the lists of generated moves (capacity 256). Its methods are trusted
// here, each with what the crate's source shows it does to the items.
#[verifier::external_type_specification]
#[verifier::external_body]
#[verifier::reject_recursive_types(T)]
pub struct ExArrayVec<T, const CAP: usize>(ArrayVec<T, CAP>);

/// The items of a game-state stack, bottom first.
pub uninterp spec fn state_items(v: ArrayVec<GameState, 512>) -> Seq<GameState>;

/// The items of a move list, in order.
pub uninterp spec fn move_items(v: ArrayVec<Move, 256>) -> Seq<Move>;

/// `ArrayVec::new`: an empty state stack.
#[verifier::external_body]
pub(crate) fn states_new() -> (r: ArrayVec<GameState, 512>)
    ensures
        state_items(r) == Seq::<GameState>::empty(),
{
    ArrayVec::new()
}

/// `ArrayVec::len` of a state stack: the number of items, which never exceeds the capacity.
#[verifier::external_body]
pub(crate) fn states_len(v: &ArrayVec<GameState, 512>) -> (r: usize)
    ensures
        r == state_items(*v).len(),
        r <= 512,
{
    v.len()
}

/// `ArrayVec::push` on a state stack that is not full: appends the item.
#[verifier::external_body]
pub(crate) fn states_push(v: &mut ArrayVec<GameState, 512>, item: GameState)
    requires
        state_items(*old(v)).len() < 512,
    ensures
        state_items(*final(v)) == state_items(*old(v)).push(item),
{
    v.push(item)
}

/// `ArrayVec::pop` on a state stack: removes and returns the top item, if any.
#[verifier::external_body]
pub(crate) fn states_pop(v: &mut ArrayVec<GameState, 512>) -> (r: Option<GameState>)
    ensures
        state_items(*old(v)).len() == 0 ==> r.is_none() && state_items(*final(v)) == state_items(
            *old(v),
        ),
        state_items(*old(v)).len() > 0 ==> r == Some(state_items(*old(v)).last())
            && state_items(*final(v)) == state_items(*old(v)).drop_last(),
{
    v.pop()
}

/// `<[T]>::last` through `ArrayVec`'s `Deref`: the top item of a state stack, if any.
#[verifier::external_body]
pub(crate) fn states_last(v: &ArrayVec<GameState, 512>) -> (r: Option<&GameState>)
    ensures
        state_items(*v).len() == 0 ==> r.is_none(),
        state_items(*v).len() > 0 ==> r == Some(&state_items(*v).last()),
{
    v.last()
}

/// `ArrayVec::clone` of a state stack: a stack with the same items (game states are `Copy`,
/// so each clone equals its original).
#[verifier::external_body]
pub(crate) fn states_clone(v: &ArrayVec<GameState, 512>) -> (r: ArrayVec<GameState, 512>)
    ensures
        state_items(r) == state_items(*v),
{
    v.clone()
}

/// `ArrayVec::new`: an empty move list.
#[verifier::external_body]
pub(crate) fn moves_new() -> (r: ArrayVec<Move, 256>)
    ensures
        move_items(r) == Seq::<Move>::empty(),
{
    ArrayVec::new()
}

/// `ArrayVec::clear`: the move list becomes empty.
#[verifier::external_body]
pub(crate) fn moves_clear(v: &mut ArrayVec<Move, 256>)
    ensures
        move_items(*final(v)) == Seq::<Move>::empty(),
{
    v.clear()
}

/// `ArrayVec::len` of a move list: the number of items, which never exceeds the capacity.
#[verifier::external_body]
pub(crate) fn moves_len(v: &ArrayVec<Move, 256>) -> (r: usize)
    ensures
        r == move_items(*v).len(),
        r <= 256,
{
    v.len()
}

/// `ArrayVec::try_push` on a move list: appends the item when the list is not full, and
/// otherwise leaves the list as it was and reports the failure.
#[verifier::external_body]
pub(crate) fn moves_try_push(v: &mut ArrayVec<Move, 256>, item: Move) -> (r: bool)
    ensures
        r == (move_items(*old(v)).len() < 256),
        r ==> move_items(*final(v)) == move_items(*old(v)).push(item),
        !r ==> move_items(*final(v)) == move_items(*old(v)),
{
    v.try_push(item).is_ok()
}

/// Indexing a move list (through `Deref` to a slice): the item at `i`.
#[verifier::external_body]
pub(crate) fn moves_get(v: &ArrayVec<Move, 256>, i: usize) -> (r: Move)
    requires
        i < move_items(*v).len(),
    ensures
        r == move_items(*v)[i as int],
{
    v[i]
}

/// Assigning through `IndexMut` on a move list: the item at `i` becomes `item`.
#[verifier::external_body]
pub(crate) fn moves_set(v: &mut ArrayVec<Move, 256>, i: usize, item: Move)
    requires
        i < move_items(*old(v)).len(),
    ensures
        move_items(*final(v)) == move_items(*old(v)).update(i as int, item),
{
    v[i] = item;
}

/// `ArrayVec::truncate`: keeps the first `len` items (all of them if there are fewer).
#[verifier::external_body]
pub(crate) fn moves_truncate(v: &mut ArrayVec<Move, 256>, len: usize)
    ensures
        len < move_items(*old(v)).len() ==> move_items(*final(v)) == move_items(*old(v)).take(
            len as int,
        ),
        len >= move_items(*old(v)).len() ==> move_items(*final(v)) == move_items(*old(v)),
{
    v.truncate(len)
}

/// `ArrayVec::swap_pop` on a move list: the item at `index` is removed and the last item
/// takes its place; `None`, with the list unchanged, where `index` is out of bounds.
#[verifier::external_body]
pub(crate) fn moves_swap_pop(v: &mut ArrayVec<Move, 256>, index: usize) -> (r: Option<Move>)
    ensures
        index < move_items(*old(v)).len() ==> r == Some(move_items(*old(v))[index as int])
            && move_items(*final(v)) == move_items(*old(v)).update(
            index as int,
            move_items(*old(v)).last(),
        ).drop_last(),
        index >= move_items(*old(v)).len() ==> r.is_none() && move_items(*final(v)) == move_items(
            *old(v),
        ),
{
    v.swap_pop(index)
}

} // verus!

use vstd::prelude::*;

use std::cmp::Ordering;

use crate::move_struct::Move;
use crate::piece::PieceTypes;

verus! {

/// How two piece kinds compare, in the order of `PieceTypes`.
pub open spec fn kind_order(x: PieceTypes, y: PieceTypes) -> Ordering {
    let a = x.spec_index();
    let b = y.spec_index();
    if a < b {
        Ordering::Less
    } else if a > b {
        Ordering::Greater
    } else {
        Ordering::Equal
    }
}

/// The order in which the search tries moves, smallest first: promotions; then captures,
/// of the most valuable piece first and, for the same captured piece, with the least
/// valuable piece first; then the other moves of pieces, the most valuable piece first;
/// castling and en passant last.
pub open spec fn move_order(a: Move, b: Move) -> Ordering {
    match a {
        Move::Normal { captured_piece: capture_a, piece: piece_a, .. } => match b {
            Move::Normal { captured_piece: capture_b, piece: piece_b, .. } => match capture_a {
                Some(cap_a) => match capture_b {
                    Some(cap_b) => if cap_a != cap_b {
                        kind_order(cap_a.piece_type, cap_b.piece_type)
                    } else {
                        kind_order(piece_b.piece_type, piece_a.piece_type)
                    },
                    None => Ordering::Less,
                },
                None => match capture_b {
                    Some(_) => Ordering::Greater,
                    None => kind_order(piece_a.piece_type, piece_b.piece_type),
                },
            },
            Move::Promotion { .. } => Ordering::Greater,
            _ => Ordering::Less,
        },
        Move::Promotion { .. } => Ordering::Less,
        _ => Ordering::Greater,
    }
}

fn compare_kinds(x: PieceTypes, y: PieceTypes) -> (r: Ordering)
    ensures
        r == kind_order(x, y),
{
    let a = x.index();
    let b = y.index();
    if a < b {
        Ordering::Less
    } else if a > b {
        Ordering::Greater
    } else {
        Ordering::Equal
    }
}

/// Very simple comparing function to determine which moves are likely to be better
pub fn simple_move_compare(a: &Move, b: &Move) -> (r: Ordering)
    ensures
        r == move_order(*a, *b),
{
    match a {
        Move::Normal { captured_piece: capture_a, piece: piece_a, .. } => match b {
            Move::Normal { captured_piece: capture_b, piece: piece_b, .. } => {
                if let Some(cap_piece_a) = capture_a {
                    if let Some(cap_piece_b) = capture_b {
                        if cap_piece_a != cap_piece_b {
                            return compare_kinds(cap_piece_a.piece_type, cap_piece_b.piece_type);
                        }
                        return compare_kinds(piece_b.piece_type, piece_a.piece_type);
                    }
                    return Ordering::Less;
                } else if capture_b.is_some() {
                    return Ordering::Greater;
                }
                compare_kinds(piece_a.piece_type, piece_b.piece_type)
            },
            Move::Promotion { .. } => Ordering::Greater,
            _ => Ordering::Less,
        },
        Move::Promotion { .. } => Ordering::Less,
        _ => Ordering::Greater,
    }
}

/// `a` sorts after `b`.
pub open spec fn sorts_after(a: Move, b: Move) -> bool {
    move_order(a, b) == Ordering::Greater
}

fn goes_after(a: &Move, b: &Move) -> (r: bool)
    ensures
        r == sorts_after(*a, *b),
{
    match simple_move_compare(a, b) {
        Ordering::Greater => true,
        _ => false,
    }
}

/// Where `x` is inserted into `s`: just after the last item that does not come after it.
pub open spec fn order_slot(s: Seq<Move>, x: Move) -> nat
    decreases s.len(),
{
    if s.len() == 0 {
        0
    } else if sorts_after(s.last(), x) {
        order_slot(s.drop_last(), x)
    } else {
        s.len()
    }
}

/// `s` sorted by insertion along `move_order`: items that compare equal keep their order.
pub open spec fn sorted_by_order(s: Seq<Move>) -> Seq<Move>
    decreases s.len(),
{
    if s.len() == 0 {
        s
    } else {
        let t = sorted_by_order(s.drop_last());
        t.insert(order_slot(t, s.last()) as int, s.last())
    }
}

proof fn lemma_order_slot_le(s: Seq<Move>, x: Move)
    ensures
        order_slot(s, x) <= s.len(),
    decreases s.len(),
{
    if s.len() > 0 {
        lemma_order_slot_le(s.drop_last(), x);
    }
}

proof fn lemma_sorted_len(s: Seq<Move>)
    ensures
        sorted_by_order(s).len() == s.len(),
    decreases s.len(),
{
    if s.len() > 0 {
        lemma_sorted_len(s.drop_last());
        lemma_order_slot_le(sorted_by_order(s.drop_last()), s.last());
    }
}

/// Sorts the moves by `simple_move_compare`, keeping the order of moves that compare equal.
pub fn sort_moves(moves: &Vec<Move>) -> (r: Vec<Move>)
    ensures
        r@ == sorted_by_order(moves@),
{
    let mut res: Vec<Move> = Vec::new();
    let mut i: usize = 0;
    while i < moves.len()
        invariant
            i <= moves.len(),
            res@ == sorted_by_order(moves@.take(i as int)),
        decreases moves.len() - i,
    {
        let x = moves[i];
        proof {
            lemma_sorted_len(moves@.take(i as int));
        }
        let mut p: usize = res.len();
        proof {
            assert(res@.take(p as int) =~= res@);
        }
        while p > 0 && goes_after(&res[p - 1], &x)
            invariant
                p <= res.len(),
                order_slot(res@, x) == order_slot(res@.take(p as int), x),
            decreases p,
        {
            proof {
                assert(res@.take(p as int).drop_last() =~= res@.take(p - 1));
            }
            p -= 1;
        }
        proof {
            assert(res@.take(res@.len() as int) =~= res@);
            if p > 0 {
                assert(res@.take(p as int).last() == res@[p - 1]);
            }
            let next = moves@.take(i + 1);
            assert(next.drop_last() =~= moves@.take(i as int));
        }
        res.insert(p, x);
        i += 1;
    }
    proof {
        assert(moves@.take(moves@.len() as int) =~= moves@);
    }
    res
}

/// Where a pair with key `k` is inserted into `s`: just after the last pair whose key is
/// not greater.
pub open spec fn key_slot(s: Seq<(i16, Move)>, k: i16) -> nat
    decreases s.len(),
{
    if s.len() == 0 {
        0
    } else if s.last().0 > k {
        key_slot(s.drop_last(), k)
    } else {
        s.len()
    }
}

/// `s` sorted by insertion on the keys, pairs with equal keys keeping their order.
pub open spec fn sorted_by_key(s: Seq<(i16, Move)>) -> Seq<(i16, Move)>
    decreases s.len(),
{
    if s.len() == 0 {
        s
    } else {
        let t = sorted_by_key(s.drop_last());
        t.insert(key_slot(t, s.last().0) as int, s.last())
    }
}

/// Each move paired with its key.
pub open spec fn keyed(keys: Seq<i16>, moves: Seq<Move>) -> Seq<(i16, Move)> {
    Seq::new(moves.len(), |i: int| (keys[i], moves[i]))
}

/// The moves in the order of their keys, lowest first; moves with equal keys keep their order.
pub open spec fn moves_by_key(keys: Seq<i16>, moves: Seq<Move>) -> Seq<Move> {
    sorted_by_key(keyed(keys, moves)).map_values(|p: (i16, Move)| p.1)
}

proof fn lemma_key_slot_le(s: Seq<(i16, Move)>, k: i16)
    ensures
        key_slot(s, k) <= s.len(),
    decreases s.len(),
{
    if s.len() > 0 {
        lemma_key_slot_le(s.drop_last(), k);
    }
}

proof fn lemma_sorted_by_key_len(s: Seq<(i16, Move)>)
    ensures
        sorted_by_key(s).len() == s.len(),
    decreases s.len(),
{
    if s.len() > 0 {
        lemma_sorted_by_key_len(s.drop_last());
        lemma_key_slot_le(sorted_by_key(s.drop_last()), s.last().0);
    }
}

/// Sorts the moves by their keys, lowest first, keeping the order of moves with equal keys.
pub fn sort_by_keys(keys: &Vec<i16>, moves: &Vec<Move>) -> (r: Vec<Move>)
    requires
        keys.len() == moves.len(),
    ensures
        r@ == moves_by_key(keys@, moves@),
{
    let ghost all = keyed(keys@, moves@);
    let mut res: Vec<(i16, Move)> = Vec::new();
    let mut i: usize = 0;
    while i < moves.len()
        invariant
            i <= moves.len(),
            keys.len() == moves.len(),
            all == keyed(keys@, moves@),
            res@ == sorted_by_key(all.take(i as int)),
        decreases moves.len() - i,
    {
        let x = (keys[i], moves[i]);
        proof {
            lemma_sorted_by_key_len(all.take(i as int));
        }
        let mut p: usize = res.len();
        proof {
            assert(res@.take(p as int) =~= res@);
        }
        while p > 0 && res[p - 1].0 > x.0
            invariant
                p <= res.len(),
                key_slot(res@, x.0) == key_slot(res@.take(p as int), x.0),
            decreases p,
        {
            proof {
                assert(res@.take(p as int).drop_last() =~= res@.take(p - 1));
            }
            p -= 1;
        }
        proof {
            if p > 0 {
                assert(res@.take(p as int).last() == res@[p - 1]);
            }
            let next = all.take(i + 1);
            assert(next.drop_last() =~= all.take(i as int));
            assert(next.last() == x);
        }
        res.insert(p, x);
        i += 1;
    }
    proof {
        assert(all.take(moves@.len() as int) =~= all);
        lemma_sorted_by_key_len(all);
    }
    let mut out: Vec<Move> = Vec::new();
    let mut j: usize = 0;
    while j < res.len()
        invariant
            j <= res.len(),
            out@ == res@.take(j as int).map_values(|p: (i16, Move)| p.1),
        decreases res.len() - j,
    {
        out.push(res[j].1);
        proof {
            assert(res@.take(j + 1).map_values(|p: (i16, Move)| p.1) =~= res@.take(
                j as int,
            ).map_values(|p: (i16, Move)| p.1).push(res@[j as int].1));
        }
        j += 1;
    }
    proof {
        assert(res@.take(res@.len() as int) =~= res@);
    }
    out
}

/// Sorting keeps every move: a property that holds of each item of the list holds of each
/// item of the sorted list.
pub proof fn lemma_sorted_by_order_keeps(s: Seq<Move>, p: spec_fn(Move) -> bool)
    requires
        forall|i: int| 0 <= i < s.len() ==> p(#[trigger] s[i]),
    ensures
        forall|i: int| 0 <= i < sorted_by_order(s).len() ==> p(#[trigger] sorted_by_order(s)[i]),
    decreases s.len(),
{
    if s.len() > 0 {
        let t = sorted_by_order(s.drop_last());
        lemma_sorted_by_order_keeps(s.drop_last(), p);
        lemma_order_slot_le(t, s.last());
        let k = order_slot(t, s.last()) as int;
        let r = t.insert(k, s.last());
        assert forall|i: int| 0 <= i < r.len() implies p(#[trigger] r[i]) by {
            if i < k {
                assert(r[i] == t[i]);
            } else if i == k {
                assert(r[i] == s.last());
            } else {
                assert(r[i] == t[i - 1]);
            }
        }
    }
}

/// Sorting by keys keeps every pair.
pub proof fn lemma_sorted_by_key_keeps(s: Seq<(i16, Move)>, p: spec_fn(Move) -> bool)
    requires
        forall|i: int| 0 <= i < s.len() ==> p(#[trigger] s[i].1),
    ensures
        forall|i: int| 0 <= i < sorted_by_key(s).len() ==> p(#[trigger] sorted_by_key(s)[i].1),
    decreases s.len(),
{
    if s.len() > 0 {
        let t = sorted_by_key(s.drop_last());
        lemma_sorted_by_key_keeps(s.drop_last(), p);
        lemma_key_slot_le(t, s.last().0);
        let k = key_slot(t, s.last().0) as int;
        let r = t.insert(k, s.last());
        assert forall|i: int| 0 <= i < r.len() implies p(#[trigger] r[i].1) by {
            if i < k {
                assert(r[i] == t[i]);
            } else if i == k {
                assert(r[i] == s.last());
            } else {
                assert(r[i] == t[i - 1]);
            }
        }
    }
}

/// The moves ordered by their keys are the moves given, each with the properties it had.
pub proof fn lemma_moves_by_key_keeps(keys: Seq<i16>, moves: Seq<Move>, p: spec_fn(Move) -> bool)
    requires
        keys.len() == moves.len(),
        forall|i: int| 0 <= i < moves.len() ==> p(#[trigger] moves[i]),
    ensures
        moves_by_key(keys, moves).len() == moves.len(),
        forall|i: int| 0 <= i < moves_by_key(keys, moves).len() ==> p(#[trigger] moves_by_key(keys, moves)[i]),
{
    let s = keyed(keys, moves);
    assert forall|i: int| 0 <= i < s.len() implies p(#[trigger] s[i].1) by {
        assert(s[i].1 == moves[i]);
    }
    lemma_sorted_by_key_keeps(s, p);
    lemma_sorted_by_key_len(s);
    let r = sorted_by_key(s);
    assert forall|i: int| 0 <= i < moves_by_key(keys, moves).len() implies p(#[trigger] moves_by_key(keys, moves)[i]) by {
        assert(moves_by_key(keys, moves)[i] == r[i].1);
    }
}

} // verus!

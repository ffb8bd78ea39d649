//! Counting the rooms of a grid.

use crate::geometry::Point;
use crate::grid::valid_dimension;
use crate::maze::{room_count, rooms};
use vstd::arithmetic::div_mod::{
    lemma_div_pos_is_pos, lemma_fundamental_div_mod, lemma_fundamental_div_mod_converse,
    lemma_mod_pos_bound,
};
use vstd::prelude::*;
use vstd::relations::injective_on;
use vstd::set_lib::{lemma_int_range, lemma_map_size, set_int_range};

verus! {

/// The room with number `k`, counting row by row with `across` rooms in a row.
pub open spec fn nth_room(across: int) -> spec_fn(int) -> Point {
    |k: int| (2 * (k / across) + 1, 2 * (k % across) + 1)
}

/// A grid of valid size has `room_count` rooms.
pub proof fn lemma_room_count(width: int, height: int)
    requires
        valid_dimension(width),
        valid_dimension(height),
    ensures
        rooms(width, height).finite(),
        rooms(width, height).len() == room_count(width, height),
{
    let across = (width - 1) / 2;
    let down = (height - 1) / 2;
    let total = down * across;
    let numbers = set_int_range(0, total);
    let f = nth_room(across);
    assert(total >= 0) by (nonlinear_arith)
        requires
            total == down * across,
            down >= 1,
            across >= 1,
    ;
    lemma_int_range(0, total);
    assert forall|k: int| #[trigger] numbers.contains(k) implies rooms(width, height).contains(
        f(k),
    ) by {
        lemma_div_pos_is_pos(k, across);
        lemma_mod_pos_bound(k, across);
        lemma_fundamental_div_mod(k, across);
        assert(k / across < down) by (nonlinear_arith)
            requires
                k == across * (k / across) + (k % across),
                0 <= k % across,
                k < down * across,
                across >= 1,
        ;
    }
    assert forall|p: Point| #[trigger] rooms(width, height).contains(p) implies exists|k: int|
        numbers.contains(k) && p == f(k) by {
        let q = (p.0 - 1) / 2;
        let r = (p.1 - 1) / 2;
        let k = q * across + r;
        lemma_fundamental_div_mod_converse(k, across, q, r);
        assert(0 <= k < total) by (nonlinear_arith)
            requires
                k == q * across + r,
                0 <= q < down,
                0 <= r < across,
                total == down * across,
        ;
        assert(numbers.contains(k) && p == f(k));
    }
    assert(numbers.map(f) =~= rooms(width, height));
    assert(injective_on(f, numbers)) by {
        assert forall|a: int, b: int|
            numbers.contains(a) && numbers.contains(b) && #[trigger] f(a) == #[trigger] f(
                b,
            ) implies a == b by {
            lemma_fundamental_div_mod(a, across);
            lemma_fundamental_div_mod(b, across);
        }
    }
    lemma_map_size(numbers, rooms(width, height), f);
}

} // verus!

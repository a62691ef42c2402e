use vstd::prelude::*;

use crate::value::{dir_index, Direction};

verus! {

/// The facing of the isometric keyboard table: two keys give a compass
/// direction, one key a map diagonal.
pub open spec fn spec_direction_from_keys(up: bool, down: bool, left: bool, right: bool) -> Option<
    Direction,
> {
    if up && left {
        Some(Direction::W)
    } else if up && right {
        Some(Direction::N)
    } else if down && right {
        Some(Direction::E)
    } else if down && left {
        Some(Direction::S)
    } else if left {
        Some(Direction::Sw)
    } else if up {
        Some(Direction::Nw)
    } else if right {
        Some(Direction::Ne)
    } else if down {
        Some(Direction::Se)
    } else {
        None
    }
}

/// The isometric keyboard-to-direction table.
pub fn direction_from_isometric_keys(up: bool, down: bool, left: bool, right: bool) -> (r: Option<
    Direction,
>)
    ensures
        r == spec_direction_from_keys(up, down, left, right),
{
    if up && left {
        return Some(Direction::W);
    }
    if up && right {
        return Some(Direction::N);
    }
    if down && right {
        return Some(Direction::E);
    }
    if down && left {
        return Some(Direction::S);
    }
    if left {
        return Some(Direction::Sw);
    }
    if up {
        return Some(Direction::Nw);
    }
    if right {
        return Some(Direction::Ne);
    }
    if down {
        return Some(Direction::Se);
    }
    None
}

} // verus!

verus! {

/// Holding any key gives a facing; holding none gives none.
pub proof fn lemma_keys_give_direction(up: bool, down: bool, left: bool, right: bool)
    ensures
        spec_direction_from_keys(up, down, left, right) is Some <==> (up || down || left || right),
{
}

/// One key faces a map diagonal and the four keys, taken in the order left,
/// up, right, down, face diagonals a quarter turn apart; two neighbouring
/// keys in that order face the compass direction halfway between the
/// diagonals of each key alone.
pub proof fn lemma_key_pairs_face_between(first: int)
    requires
        0 <= first < 4,
    ensures
        ({
            let second = (first + 1) % 4;
            let alone = |k: int| spec_direction_from_keys(k == 1, k == 3, k == 0, k == 2);
            let both = spec_direction_from_keys(
                first == 1 || second == 1,
                first == 3 || second == 3,
                first == 0 || second == 0,
                first == 2 || second == 2,
            );
            &&& alone(first) matches Some(a) && dir_index(a) == 2 * first
            &&& alone(second) matches Some(b) && dir_index(b) == 2 * second
            &&& both matches Some(m) && dir_index(m) == 2 * first + 1
        }),
{
}

} // verus!

use vstd::prelude::*;

use crate::traits::vertex::Vertex;

verus! {

/// `answer` is what the equality of `T` said of `a` and `b`.
pub open spec fn equal_said<T: PartialEq>(a: T, b: T, answer: bool) -> bool {
    call_ensures(T::eq, (&a, &b), answer)
}

/// `product` is what the vertex type gave as the cross product of the
/// directions from `o` to `a` and from `o` to `b`.
pub open spec fn is_turn_product<P: Vertex>(o: P, a: P, b: P, product: P::Length) -> bool {
    exists|to_a: P, to_b: P|
        {
            &&& #[trigger] call_ensures(P::minus, (a, o), to_a)
            &&& #[trigger] call_ensures(P::minus, (b, o), to_b)
            &&& call_ensures(P::cross, (to_a, to_b), product)
        }
}

/// The vertex type said of the product that its sign is `sign`: 0 where it
/// counts as zero, else 1 where it is more than zero and -1 where it is not.
pub open spec fn has_sign<P: Vertex>(product: P::Length, sign: int) -> bool {
    if sign == 0 {
        call_ensures(P::zero, (product,), true)
    } else if sign == 1 {
        call_ensures(P::zero, (product,), false) && call_ensures(P::positive, (product,), true)
    } else {
        sign == -1 && call_ensures(P::zero, (product,), false) && call_ensures(
            P::positive,
            (product,),
            false,
        )
    }
}

/// The answers of the vertex type give the turn from `o -> a` to `o -> b`
/// the sign `sign`: 1 for a left turn, 0 for none, -1 for a right turn.
pub open spec fn oriented<P: Vertex>(o: P, a: P, b: P, sign: int) -> bool {
    exists|product: P::Length| #[trigger] is_turn_product(o, a, b, product) && has_sign::<P>(product, sign)
}

/// The vertex type did not find a left turn from `o -> a` to `o -> b`.
pub open spec fn not_left<P: Vertex>(o: P, a: P, b: P) -> bool {
    oriented(o, a, b, 0) || oriented(o, a, b, -1)
}

/// The sign of the turn from `o -> a` to `o -> b`: +1 for a left turn, -1
/// for a right turn, 0 where the cross product of the two directions counts
/// as zero.
pub fn orientation<P: Vertex>(o: P, a: P, b: P) -> (sign: i8)
    ensures
        -1 <= sign <= 1,
        oriented(o, a, b, sign as int),
{
    let cross: P::Length = a.minus(o).cross(b.minus(o));
    assert(is_turn_product(o, a, b, cross));
    if P::zero(cross) {
        assert(has_sign::<P>(cross, 0));
        0
    } else if P::positive(cross) {
        assert(has_sign::<P>(cross, 1));
        1
    } else {
        assert(has_sign::<P>(cross, -1));
        -1
    }
}

/// The angle swept from the direction of `a` to the direction of `b`.
pub fn angle<P: Vertex>(a: P, b: P) -> (swept: P::Angle)
    ensures
        call_ensures(P::angle, (a, b), swept),
{
    P::angle(a, b)
}

/// Whether the turn from `o -> a` to `o -> b` is a left turn.
pub fn ccw<P: Vertex>(o: P, a: P, b: P) -> (left: bool)
    ensures
        left ==> oriented(o, a, b, 1),
        !left ==> not_left(o, a, b),
{
    orientation(o, a, b) == 1
}

} // verus!

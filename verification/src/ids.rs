use vstd::prelude::*;

verus! {

/// The text of the id given to the `n`-th mouse.
pub uninterp spec fn mouse_id_of(n: usize) -> Seq<char>;

/// The text of the id given to the `n`-th owl.
pub uninterp spec fn owl_id_of(n: usize) -> Seq<char>;

/// Relies on std's format! with the template `Mouse{n}`: the rendered id
/// depends on the number alone.
#[verifier::external_body]
pub fn mouse_id(n: usize) -> (r: String)
    ensures
        r@ == mouse_id_of(n),
{
    format!("Mouse{}", n)
}

/// Relies on std's format! with the template `Owl{n}`: the rendered id
/// depends on the number alone.
#[verifier::external_body]
pub fn owl_id(n: usize) -> (r: String)
    ensures
        r@ == owl_id_of(n),
{
    format!("Owl{}", n)
}

} // verus!

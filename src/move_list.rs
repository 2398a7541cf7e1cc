//! The list of recommended columns, held in a `SmallVec` that keeps up to one
//! entry per column inline.
use smallvec::SmallVec;
use vstd::prelude::*;

verus! {

/// Columns recommended by the search, in ascending order.
#[verifier::external_body]
pub struct NextMove {
    columns: SmallVec<[u8; 7]>,
}

/// The columns that a move list holds, in order.
pub uninterp spec fn columns_of(v: NextMove) -> Seq<u8>;

/// Relies on `SmallVec::new`: the new vector holds nothing.
#[verifier::external_body]
pub(crate) fn empty_moves() -> (r: NextMove)
    ensures
        columns_of(r) == Seq::<u8>::empty(),
{
    NextMove { columns: SmallVec::new() }
}

/// Relies on `SmallVec::push`: the column is appended after the others.
#[verifier::external_body]
pub(crate) fn push_move(v: &mut NextMove, column: u8)
    ensures
        columns_of(*final(v)) == columns_of(*old(v)).push(column),
{
    v.columns.push(column)
}

/// Relies on `SmallVec::len`: the number of columns held.
#[verifier::external_body]
fn move_count(v: &NextMove) -> (n: usize)
    ensures
        n == columns_of(*v).len(),
{
    v.columns.len()
}

/// Relies on indexing a `SmallVec`: the column at position `i`.
#[verifier::external_body]
fn move_at(v: &NextMove, i: usize) -> (c: u8)
    requires
        i < columns_of(*v).len(),
    ensures
        c == columns_of(*v)[i as int],
{
    v.columns[i]
}

impl View for NextMove {
    type V = Seq<u8>;

    open spec fn view(&self) -> Seq<u8> {
        columns_of(*self)
    }
}

impl NextMove {
    /// The columns, in order.
    pub fn to_vec(&self) -> (r: Vec<u8>)
        ensures
            r@ == self@,
    {
        let n = move_count(self);
        let mut r: Vec<u8> = Vec::new();
        let mut i: usize = 0;
        while i < n
            invariant
                n == self@.len(),
                i <= n,
                r@ == self@.subrange(0, i as int),
            decreases n - i,
        {
            r.push(move_at(self, i));
            i += 1;
            proof {
                assert(r@ =~= self@.subrange(0, i as int));
            }
        }
        proof {
            assert(self@.subrange(0, n as int) =~= self@);
        }
        r
    }
}

} // verus!

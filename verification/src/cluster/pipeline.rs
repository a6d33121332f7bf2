//! Activations that go from one machine to the next.
use vstd::prelude::*;

verus! {

/// Cap on the size that a message may declare. It covers activations of
/// realistic size.
pub const MAX_MESSAGE_LEN_BYTES: u64 = 1_073_741_824;

/// Activations: the bits of each number, and their shape.
#[derive(Debug, Clone)]
pub struct ActivationMessage {
    pub seq_ids: Vec<u64>,
    pub shape: Vec<usize>,
    pub data: Vec<u32>,
}

/// What a message declares exceeds the cap.
#[derive(Debug, Clone, Copy, PartialEq, Eq, Structural)]
pub struct LengthRefused {
    pub declared: u64,
}

/// How many bytes are read for a message that declares `declared`.
pub fn check_length(declared: u64) -> (r: Result<u64, LengthRefused>)
    ensures
        match r {
            Ok(n) => n == declared && declared <= MAX_MESSAGE_LEN_BYTES,
            Err(e) => e.declared == declared && declared > MAX_MESSAGE_LEN_BYTES,
        },
        r is Ok <==> declared <= 1_073_741_824,
{
    if declared > MAX_MESSAGE_LEN_BYTES {
        Err(LengthRefused { declared })
    } else {
        Ok(declared)
    }
}

/// A shape that does not fit its data.
#[derive(Debug, Clone, Copy, PartialEq, Eq, Structural)]
pub enum ShapeError {
    /// The number of elements cannot be counted.
    Overflow,
    Mismatch { implied: usize, given: usize },
}

/// The product of the first `n` dimensions, where no product on the way is too
/// large to count.
pub open spec fn counted(shape: Seq<usize>, n: nat) -> Option<int>
    decreases n,
{
    if n == 0 || n > shape.len() {
        Some(1)
    } else {
        match counted(shape, (n - 1) as nat) {
            Some(p) => if p * shape[n - 1] <= usize::MAX {
                Some(p * shape[n - 1])
            } else {
                None
            },
            None => None,
        }
    }
}

/// Why the message is refused, if it is.
pub open spec fn shape_problem(shape: Seq<usize>, len: nat) -> Option<ShapeError> {
    match counted(shape, shape.len()) {
        None => Some(ShapeError::Overflow),
        Some(p) => if p != len {
            Some(ShapeError::Mismatch { implied: p as usize, given: len as usize })
        } else {
            None
        },
    }
}

proof fn lemma_uncounted_stays(shape: Seq<usize>, n: nat, m: nat)
    requires
        n <= m <= shape.len(),
        counted(shape, n) is None,
    ensures
        counted(shape, m) is None,
    decreases m,
{
    if n < m {
        lemma_uncounted_stays(shape, n, (m - 1) as nat);
    }
}

impl ActivationMessage {
    /// Checks that the shape accounts for the data. Both come from a peer: a
    /// tensor must not be made of what does not fit.
    pub fn check(&self) -> (r: Result<(), ShapeError>)
        ensures
            match r {
                Ok(_) => shape_problem(self.shape@, self.data@.len()) is None,
                Err(e) => shape_problem(self.shape@, self.data@.len()) == Some(e),
            },
    {
        let mut product: usize = 1;
        let mut i: usize = 0;
        while i < self.shape.len()
            invariant
                i <= self.shape@.len(),
                counted(self.shape@, i as nat) == Some(product as int),
            decreases self.shape@.len() - i,
        {
            match product.checked_mul(self.shape[i]) {
                Some(p) => {
                    product = p;
                },
                None => {
                    proof {
                        lemma_uncounted_stays(self.shape@, (i + 1) as nat, self.shape@.len());
                    }
                    return Err(ShapeError::Overflow);
                },
            }
            i += 1;
        }
        if product != self.data.len() {
            return Err(ShapeError::Mismatch { implied: product, given: self.data.len() });
        }
        Ok(())
    }
}

/// The product of all dimensions.
pub open spec fn product(shape: Seq<usize>) -> int {
    shape.fold_left(1int, |p: int, d: usize| p * d)
}

/// What is counted of a shape is the product of its dimensions; it cannot be
/// counted exactly if the product of some of the first ones is too large.
pub proof fn law_shape_is_counted(shape: Seq<usize>, n: nat)
    requires
        n <= shape.len(),
    ensures
        counted(shape, n) matches Some(p) ==> p == product(shape.take(n as int)),
        counted(shape, n) is None <==> exists|k: int|
            0 <= k <= n && #[trigger] product(shape.take(k)) > usize::MAX,
    decreases n,
{
    let f = |p: int, d: usize| p * d;
    if n == 0 {
        assert(product(shape.take(0)) == 1);
    } else {
        let m = (n - 1) as nat;
        law_shape_is_counted(shape, m);
        let now = shape.take(n as int);
        assert(now.drop_last() =~= shape.take(m as int));
        assert(product(now) == f(product(now.drop_last()), now.last()));
        if counted(shape, m) is None {
            let k = choose|k: int| 0 <= k <= m && #[trigger] product(shape.take(k)) > usize::MAX;
            assert(0 <= k <= n);
        } else if counted(shape, n) is None {
            assert(product(shape.take(n as int)) > usize::MAX);
        } else {
            assert forall|k: int| 0 <= k <= n implies !(#[trigger] product(shape.take(k))
                > usize::MAX) by {}
        }
    }
}

/// A message is refused exactly if its shape cannot be counted or counts to
/// another number than it has numbers.
pub proof fn law_shapes_refused(shape: Seq<usize>, len: usize)
    ensures
        shape_problem(shape, len as nat) is None <==> counted(shape, shape.len()) == Some(len as int),
        counted(shape, shape.len()) is None ==> shape_problem(shape, len as nat) == Some(
            ShapeError::Overflow,
        ),
        counted(shape, shape.len()) matches Some(p) ==> (p != len ==> shape_problem(
            shape,
            len as nat,
        ) == Some(ShapeError::Mismatch { implied: p as usize, given: len })),
{
}

} // verus!

//! The scalar arithmetic the library computes with, handed in as closures
//! that are required to be total and deterministic.
use vstd::prelude::*;

verus! {

/// A binary operation on scalars.
#[derive(Clone, Copy, Debug, PartialEq, Eq, Structural)]
pub enum Binary {
    Add,
    Sub,
    Mul,
    Div,
}

/// A unary operation on scalars.
#[derive(Clone, Copy, Debug, PartialEq, Eq, Structural)]
pub enum Unary {
    /// The logistic function `1 / (1 + e^-x)`.
    Sigmoid,
    /// `one` when the value lies above one half, else `zero`.
    Step,
}

/// The scalar arithmetic that the matrices and the network compute with.
pub struct Arith<T, B, U, E> {
    pub zero: T,
    pub one: T,
    pub binary: B,
    pub unary: U,
    pub same: E,
}

impl<T: Copy, B: Fn(Binary, T, T) -> T, U: Fn(Unary, T) -> T, E: Fn(T, T) -> bool> Arith<T, B, U, E> {
    /// The value of a binary operation.
    pub open spec fn bin(&self, o: Binary, x: T, y: T) -> T {
        choose|r: T| self.binary.ensures((o, x, y), r)
    }

    /// The value of a unary operation.
    pub open spec fn un(&self, o: Unary, x: T) -> T {
        choose|r: T| self.unary.ensures((o, x), r)
    }

    /// Whether two scalars compare equal.
    pub open spec fn eq(&self, x: T, y: T) -> bool {
        choose|r: bool| self.same.ensures((x, y), r)
    }

    /// Each operation accepts every argument and gives one result for it.
    pub open spec fn wf(&self) -> bool {
        &&& forall|o: Binary, x: T, y: T| #[trigger] self.binary.requires((o, x, y))
        &&& forall|o: Binary, x: T, y: T, r: T|
            #[trigger] self.binary.ensures((o, x, y), r) ==> r == self.bin(o, x, y)
        &&& forall|o: Unary, x: T| #[trigger] self.unary.requires((o, x))
        &&& forall|o: Unary, x: T, r: T| #[trigger] self.unary.ensures((o, x), r) ==> r == self.un(o, x)
        &&& forall|x: T, y: T| #[trigger] self.same.requires((x, y))
        &&& forall|x: T, y: T, r: bool| #[trigger] self.same.ensures((x, y), r) ==> r == self.eq(x, y)
    }

    pub fn apply(&self, o: Binary, x: T, y: T) -> (r: T)
        requires
            self.wf(),
        ensures
            r == self.bin(o, x, y),
    {
        (self.binary)(o, x, y)
    }

    pub fn apply_unary(&self, o: Unary, x: T) -> (r: T)
        requires
            self.wf(),
        ensures
            r == self.un(o, x),
    {
        (self.unary)(o, x)
    }

    pub fn equal(&self, x: T, y: T) -> (r: bool)
        requires
            self.wf(),
        ensures
            r == self.eq(x, y),
    {
        (self.same)(x, y)
    }

    /// The count `c` as a scalar: `one` added `c` times to `zero`.
    pub open spec fn count(&self, c: nat) -> T
        decreases c,
    {
        if c == 0 {
            self.zero
        } else {
            self.bin(Binary::Add, self.count((c - 1) as nat), self.one)
        }
    }

    /// The count `n` as a scalar, built as `count` says.
    pub fn from_count(&self, n: usize) -> (r: T)
        requires
            self.wf(),
        ensures
            r == self.count(n as nat),
    {
        let mut r = self.zero;
        let mut i: usize = 0;
        while i < n
            invariant
                self.wf(),
                i <= n,
                r == self.count(i as nat),
            decreases n - i,
        {
            r = self.apply(Binary::Add, r, self.one);
            i += 1;
        }
        r
    }
}

} // verus!

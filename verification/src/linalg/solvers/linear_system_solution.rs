//! The solution set of a linear system.

use crate::scalar::number::Number;
use vstd::prelude::*;

verus! {

/// The solution set of a linear system `A x = b`.
pub enum LinearSystemSolution<T: Number> {
    /// Infinitely many solutions of a system with a right-hand side that is
    /// not zero: a particular solution and a basis of the solutions of
    /// `A x = 0`.
    AffineBasis(Vec<T>, Vec<Vec<T>>),
    /// Infinitely many solutions of a system whose particular solution is
    /// zero: a basis of the solutions of `A x = 0`.
    HomogenousBasis(Vec<Vec<T>>),
    /// The one solution.
    Solution(Vec<T>),
    /// The system has no solution.
    NoSolution,
}

/// A solution set as plain sequences.
pub enum SolutionSet<T> {
    AffineBasis(Seq<T>, Seq<Seq<T>>),
    HomogenousBasis(Seq<Seq<T>>),
    Solution(Seq<T>),
    NoSolution,
}

/// The vectors of a list, each as a sequence.
pub open spec fn vectors<T>(list: Seq<Vec<T>>) -> Seq<Seq<T>> {
    Seq::new(list.len(), |k: int| list[k]@)
}

impl<T: Number> View for LinearSystemSolution<T> {
    type V = SolutionSet<T>;

    open spec fn view(&self) -> SolutionSet<T> {
        match self {
            LinearSystemSolution::AffineBasis(p, basis) => SolutionSet::AffineBasis(
                p@,
                vectors(basis@),
            ),
            LinearSystemSolution::HomogenousBasis(basis) => SolutionSet::HomogenousBasis(
                vectors(basis@),
            ),
            LinearSystemSolution::Solution(x) => SolutionSet::Solution(x@),
            LinearSystemSolution::NoSolution => SolutionSet::NoSolution,
        }
    }
}

} // verus!

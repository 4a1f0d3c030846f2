//! The street decision of the range-versus-range solver.

use crate::cards::card::one_char_string;
use vstd::prelude::*;

verus! {

/// Errors from the range-versus-range solve.
#[derive(Debug, PartialEq, Eq, Structural)]
pub enum VectorSolveError {
    /// The board size is neither a turn (4 cards) nor a river (5 cards).
    UnsupportedStreet(usize),
}

/// The streets the range-versus-range solver builds trees for.
#[derive(Clone, Copy, Debug, PartialEq, Eq, Structural)]
pub enum SolveStreet {
    Turn,
    River,
}

/// The street a board of `board_len` cards is solved on: a river for five
/// cards, a turn for four, and an error for any other size.
pub fn solve_street(board_len: usize) -> (r: Result<SolveStreet, VectorSolveError>)
    ensures
        board_len == 5 ==> r == Ok::<SolveStreet, VectorSolveError>(SolveStreet::River),
        board_len == 4 ==> r == Ok::<SolveStreet, VectorSolveError>(SolveStreet::Turn),
        board_len != 4 && board_len != 5 ==> r == Err::<SolveStreet, VectorSolveError>(
            VectorSolveError::UnsupportedStreet(board_len),
        ),
{
    if board_len == 5 {
        Ok(SolveStreet::River)
    } else if board_len == 4 {
        Ok(SolveStreet::Turn)
    } else {
        Err(VectorSolveError::UnsupportedStreet(board_len))
    }
}

impl VectorSolveError {
    /// The message the error reads as.
    pub fn message(&self) -> (m: String)
        ensures
            m@ == match *self {
                VectorSolveError::UnsupportedStreet(n) =>
                    "unsupported street: vector CFR currently supports turn (4) and river (5) boards, got "@
                        + usize_digits(n) + " cards"@,
            },
    {
        match self {
            VectorSolveError::UnsupportedStreet(n) => unsupported_street_message(*n),
        }
    }
}

/// The message for an unsupported board size.
fn unsupported_street_message(n: usize) -> (m: String)
    ensures
        m@ == "unsupported street: vector CFR currently supports turn (4) and river (5) boards, got "@
            + usize_digits(n) + " cards"@,
{
    let digits = decimal_string(n);
    let m = String::from_str(
        "unsupported street: vector CFR currently supports turn (4) and river (5) boards, got ",
    );
    let m = m.concat(digits.as_str());
    m.concat(" cards")
}

/// The decimal text of `n`.
fn decimal_string(n: usize) -> (s: String)
    ensures
        s@ == usize_digits(n),
    decreases n,
{
    let d = (n % 10) as u8;
    let c = (48u8 + d) as char;
    assert(('0' as u8) == 48u8);
    if n < 10 {
        one_char_string(c)
    } else {
        let mut s = decimal_string(n / 10);
        let last = one_char_string(c);
        s.append(last.as_str());
        s
    }
}

/// The decimal digits of `n`.
pub open spec fn usize_digits(n: usize) -> Seq<char>
    decreases n,
{
    if n < 10 {
        seq![(('0' as u8) + (n as u8)) as char]
    } else {
        usize_digits(n / 10) + seq![(('0' as u8) + ((n % 10) as u8)) as char]
    }
}

} // verus!

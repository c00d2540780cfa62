//! The section scanner: a finite-state machine over the linear fragment
//! sequence that recognizes the literal header token sequence marking the
//! start of the item table and the literal terminator tokens marking its end.
//!
//! The header sequence must match exactly and contiguously among text-bearing
//! fragments; any mismatching token outside the table resets the match.  At
//! the terminator, either the exact subtotal marker or any text beginning
//! with the registered-office prefix leaves the table (both historical
//! terminator variants are recognized, as the transition table states).

use vstd::prelude::*;

use crate::text::{chars_eq, chars_start_with, starts_with, str_to_chars};

verus! {

/// Scanner state: the seven header-seeking states followed by the in-table
/// state.
#[derive(Clone, Copy, PartialEq, Eq, Structural, Debug)]
pub enum ScanState {
    /// Seeking the header; nothing matched yet.
    Start,
    /// Matched "Supplied".
    SawSupplied,
    /// Matched "Supplied", "Line".
    SawLine,
    /// Matched "Supplied", "Line", "Description".
    SawDescription,
    /// Matched through "Ordered".
    SawOrdered,
    /// Matched through the second "Supplied".
    SawSuppliedAgain,
    /// Matched through "Price".
    SawPrice,
    /// Matched the full header; fragments now belong to the item table.
    InTable,
}

/// The exact subtotal marker text that terminates a table section.
pub open spec fn subtotal_token() -> Seq<char> {
    "Sub\u{A0}Total:"@
}

/// The registered-office prefix; any in-table text starting with it
/// terminates the table section.
pub open spec fn office_prefix() -> Seq<char> {
    "Registered\u{A0}Office:\u{A0}"@
}

/// A token that ends the table section when seen in state `InTable`.
pub open spec fn is_terminator(t: Seq<char>) -> bool {
    t == subtotal_token() || starts_with(t, office_prefix())
}

/// The scanner's pure transition function over (state, fragment text).
pub open spec fn spec_step(s: ScanState, t: Seq<char>) -> ScanState {
    match s {
        ScanState::Start => if t == "Supplied"@ {
            ScanState::SawSupplied
        } else {
            ScanState::Start
        },
        ScanState::SawSupplied => if t == "Line"@ {
            ScanState::SawLine
        } else {
            ScanState::Start
        },
        ScanState::SawLine => if t == "Description"@ {
            ScanState::SawDescription
        } else {
            ScanState::Start
        },
        ScanState::SawDescription => if t == "Ordered"@ {
            ScanState::SawOrdered
        } else {
            ScanState::Start
        },
        ScanState::SawOrdered => if t == "Supplied"@ {
            ScanState::SawSuppliedAgain
        } else {
            ScanState::Start
        },
        ScanState::SawSuppliedAgain => if t == "Price"@ {
            ScanState::SawPrice
        } else {
            ScanState::Start
        },
        ScanState::SawPrice => if t == "Amount"@ {
            ScanState::InTable
        } else {
            ScanState::Start
        },
        ScanState::InTable => if is_terminator(t) {
            ScanState::Start
        } else {
            ScanState::InTable
        },
    }
}

/// Advances the scanner by one fragment text.
pub fn step(s: ScanState, t: &Vec<char>) -> (r: ScanState)
    ensures
        r == spec_step(s, t@),
{
    match s {
        ScanState::Start => if chars_eq(t, &str_to_chars("Supplied")) {
            ScanState::SawSupplied
        } else {
            ScanState::Start
        },
        ScanState::SawSupplied => if chars_eq(t, &str_to_chars("Line")) {
            ScanState::SawLine
        } else {
            ScanState::Start
        },
        ScanState::SawLine => if chars_eq(t, &str_to_chars("Description")) {
            ScanState::SawDescription
        } else {
            ScanState::Start
        },
        ScanState::SawDescription => if chars_eq(t, &str_to_chars("Ordered")) {
            ScanState::SawOrdered
        } else {
            ScanState::Start
        },
        ScanState::SawOrdered => if chars_eq(t, &str_to_chars("Supplied")) {
            ScanState::SawSuppliedAgain
        } else {
            ScanState::Start
        },
        ScanState::SawSuppliedAgain => if chars_eq(t, &str_to_chars("Price")) {
            ScanState::SawPrice
        } else {
            ScanState::Start
        },
        ScanState::SawPrice => if chars_eq(t, &str_to_chars("Amount")) {
            ScanState::InTable
        } else {
            ScanState::Start
        },
        ScanState::InTable => {
            let subtotal = chars_eq(t, &str_to_chars("Sub\u{A0}Total:"));
            let office = chars_start_with(t, &str_to_chars("Registered\u{A0}Office:\u{A0}"));
            if subtotal || office {
                ScanState::Start
            } else {
                ScanState::InTable
            }
        },
    }
}

} // verus!

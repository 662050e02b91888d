//! The line that the reporter emits: how many peers, and how many bytes in all.

use crate::counts::total;
use crate::ledger::{LedgerSnapshot, Resume};
use vstd::prelude::*;
use vstd::string::StringExecFns;

verus! {

/// The text that `byte_unit` gives for a number of bytes in the unit that
/// suits it, with decimal multiples.
pub uninterp spec fn appropriate_unit_text(bytes: u128) -> Seq<char>;

/// Formats `bytes` as `byte_unit` does: `Byte::from_bytes` makes the value,
/// `Byte::get_appropriate_unit(false)` picks the largest decimal unit that the
/// value exceeds and divides by it, and the `Display` of `AdjustedByte` prints
/// the quotient and the unit. Not proved: the contract only gives that text
/// its name, which rests on the text being a function of `bytes` alone.
#[verifier::external_body]
fn appropriate_unit(bytes: u128) -> (text: String)
    ensures
        text@ == appropriate_unit_text(bytes),
{
    byte_unit::Byte::from_bytes(bytes).get_appropriate_unit(false).to_string()
}

/// One decimal digit.
pub open spec fn digit_text(digit: nat) -> Seq<char>
    recommends
        digit < 10,
{
    if digit == 0 {
        "0"@
    } else if digit == 1 {
        "1"@
    } else if digit == 2 {
        "2"@
    } else if digit == 3 {
        "3"@
    } else if digit == 4 {
        "4"@
    } else if digit == 5 {
        "5"@
    } else if digit == 6 {
        "6"@
    } else if digit == 7 {
        "7"@
    } else if digit == 8 {
        "8"@
    } else {
        "9"@
    }
}

/// A number in decimal, without leading zeros.
pub open spec fn decimal(number: nat) -> Seq<char>
    decreases number,
{
    if number < 10 {
        digit_text(number)
    } else {
        decimal(number / 10) + digit_text(number % 10)
    }
}

/// The line that reports `peer_count` peers and a sum that reads `bytes_pretty`.
pub open spec fn report_text(peer_count: nat, bytes_pretty: Seq<char>) -> Seq<char> {
    "clients_count: "@ + decimal(peer_count) + ", bytes_total: "@ + bytes_pretty
}

fn digit_str(digit: usize) -> (text: &'static str)
    requires
        digit < 10,
    ensures
        text@ == digit_text(digit as nat),
{
    if digit == 0 {
        "0"
    } else if digit == 1 {
        "1"
    } else if digit == 2 {
        "2"
    } else if digit == 3 {
        "3"
    } else if digit == 4 {
        "4"
    } else if digit == 5 {
        "5"
    } else if digit == 6 {
        "6"
    } else if digit == 7 {
        "7"
    } else if digit == 8 {
        "8"
    } else {
        "9"
    }
}

/// Appends `number` in decimal to `text`.
pub fn push_decimal(text: &mut String, number: usize)
    ensures
        final(text)@ == old(text)@ + decimal(number as nat),
    decreases number,
{
    if number >= 10 {
        push_decimal(text, number / 10);
    }
    text.append(digit_str(number % 10));
}

/// The line that reports `snapshot`, with `bytes_pretty` for its sum of bytes.
pub fn report_line(snapshot: &LedgerSnapshot, bytes_pretty: &str) -> (line: String)
    ensures
        line@ == report_text(snapshot.peer_count as nat, bytes_pretty@),
{
    let mut line = String::from_str("clients_count: ");
    push_decimal(&mut line, snapshot.peer_count);
    line.append(", bytes_total: ");
    line.append(bytes_pretty);
    line
}

impl Resume {
    /// The line that reports the ledger as it stands: the number of its peers
    /// and the sum of their records, in the unit that suits the sum.
    pub fn debug_line(&self) -> (line: String)
        ensures
            line@ == report_text(self@.dom().len(), appropriate_unit_text(total(self@) as u128)),
    {
        let taken = self.snapshot();
        let bytes_pretty = appropriate_unit(taken.total_bytes);
        report_line(&taken, bytes_pretty.as_str())
    }
}

} // verus!

//! The lines of the three logs. Each record is one line of text; the labels
//! and separators are fixed.

use crate::text::{decimal, hex, listing, push_decimal, push_hex, push_listing, texts};
use vstd::prelude::*;
use vstd::string::*;

verus! {

/// The line of the block log for a block of `chain`.
pub open spec fn block_line(chain: Seq<char>, hash: Seq<u8>, height: u64) -> Seq<char> {
    "Chain: "@ + chain + ", Hash: 0x"@ + hex(hash) + ", Height: "@ + decimal(height as nat)
}

/// The line of the pallet log for an extrinsic.
pub open spec fn pallet_line(index: u32, pallet: Seq<char>, variant: Seq<char>) -> Seq<char> {
    "Extrinsic ID: "@ + decimal(index as nat) + ", Pallet Name: "@ + pallet
        + ", Pallet Function: "@ + variant
}

/// The line of the event log for an event.
pub open spec fn event_line(pallet: Seq<char>, variant: Seq<char>, values: Seq<Seq<char>>) -> Seq<
    char,
> {
    "Pallet: "@ + pallet + ", Event: "@ + variant + ", Event Values: "@ + listing(values)
}

/// A line as it stands in a log: the line and a line feed.
pub open spec fn record_text(line: Seq<char>) -> Seq<char> {
    line + "\n"@
}

/// Writes the line of the block log for a block of `chain`.
pub fn format_block_line(chain: &str, hash: &Vec<u8>, height: u64) -> (line: String)
    ensures
        line@ == block_line(chain@, hash@, height),
{
    let mut line = String::from_str("Chain: ");
    line.append(chain);
    line.append(", Hash: 0x");
    push_hex(&mut line, hash);
    line.append(", Height: ");
    push_decimal(&mut line, height);
    line
}

/// Writes the line of the pallet log for an extrinsic.
pub fn format_pallet_line(index: u32, pallet: &str, variant: &str) -> (line: String)
    ensures
        line@ == pallet_line(index, pallet@, variant@),
{
    let mut line = String::from_str("Extrinsic ID: ");
    push_decimal(&mut line, index as u64);
    line.append(", Pallet Name: ");
    line.append(pallet);
    line.append(", Pallet Function: ");
    line.append(variant);
    line
}

/// Writes the line of the event log for an event.
pub fn format_event_line(pallet: &str, variant: &str, values: &Vec<String>) -> (line: String)
    ensures
        line@ == event_line(pallet@, variant@, texts(values@)),
{
    let mut line = String::from_str("Pallet: ");
    line.append(pallet);
    line.append(", Event: ");
    line.append(variant);
    line.append(", Event Values: ");
    push_listing(&mut line, values);
    line
}

/// Writes a line as it stands in a log.
pub fn format_record(line: &str) -> (record: String)
    ensures
        record@ == record_text(line@),
{
    let mut record = String::from_str(line);
    record.append("\n");
    record
}

} // verus!

//! Assembly of logical records (cards) from the physical lines of an
//! MCNP-style input deck.
//!
//! A logical record may be split over several physical lines with two
//! continuation conventions: a trailing ampersand immediately before the
//! line break, or at least five leading spaces on the following line.
//! Blank lines terminate records; comment lines never merge with data.
//!
//! The pipeline has two stages, each verified against a mathematical
//! model of the whole parse:
//!
//! * [`classify::classify`] labels one physical line, given the line
//!   before it;
//! * [`assemble::fold`] folds the classified line stream into logical
//!   records, stripping the continuation markers.
//!
//! [`parse`] composes the stages over a raw byte buffer.

pub mod assemble;
pub mod classify;
pub mod laws;
pub mod lines;
pub mod text;

use vstd::prelude::*;

verus! {

use crate::assemble::FoldOut;
use crate::assemble::ParseOutput;
use crate::assemble::diags_of;
use crate::assemble::fold;
use crate::assemble::fold_model;
use crate::assemble::recs_of;
use crate::classify::classify_lines;
use crate::classify::classify_model;
use crate::lines::split_lines;
use crate::lines::split_physical_lines;

/// The full model of a parse: split the buffer into physical lines,
/// classify each line with one line of lookback, and fold the classified
/// stream into logical records and diagnostics.
pub open spec fn parse_model(input: Seq<u8>) -> FoldOut {
    fold_model(classify_model(split_lines(input)))
}

/// Parses one input buffer (`\n` line termination) into its logical
/// records and the non-fatal diagnostics raised along the way.
pub fn parse(input: &[u8]) -> (out: ParseOutput)
    ensures
        recs_of(out.records@) == parse_model(input@).recs,
        diags_of(out.diagnostics@) == parse_model(input@).diags,
{
    let lines = split_physical_lines(input);
    let items = classify_lines(&lines);
    let out = fold(items.as_slice());
    proof {
        assert(items@.map_values(|it: crate::classify::ClassifiedItem| it@) == classify_model(
            lines@.map_values(|l: crate::lines::PhysicalLine| l.text@),
        ));
    }
    out
}

} // verus!

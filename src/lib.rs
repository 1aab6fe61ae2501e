//! A declarative command-line argument parser.
//!
//! Arguments are described by a list of [`ArgDef`] descriptors, each owning the
//! binding that a matching token is written into. [`parse`] compiles the list into
//! a table, scans the tokens left to right and updates the bindings in place.
use vstd::prelude::*;

pub mod argdef;
pub mod help;
pub mod laws;
pub mod text;
pub mod parse;

pub use argdef::{ArgDef, ArgDefKind, CollectionTarget, OptionTarget, Scalar, SingleTarget, ValueKind};
pub use help::{Help, HelpOptKind};
pub use text::trim_and_strip_lines;
pub use parse::{ParseError, ParseState, Resolved, parse, parse_definitions};

use argdef::{DefV, KindV};

verus! {

/// Describes the usual `--help` interrupt.
pub fn help_arg() -> (r: ArgDef)
    ensures
        r@ == (DefV {
            name: "help"@,
            kind: KindV::Interrupt { short: None },
            help: Some("Print this message and abort."@),
        }),
{
    ArgDef::interrupt("help").help("Print this message and abort.")
}

} // verus!

//! Object identifiers, and the counter that hands out new ones.

use crate::config::Config;
use crate::fs_action::{FsAction, FsStep};
use crate::text::{first_line, parse_unsigned, spec_decimal_nat, spec_lines, spec_parse_unsigned,
    to_chars, u64_to_decimal};
use vstd::prelude::*;
use vstd::string::StrSliceExecFns;
use vstd::utf8::encode_utf8;

verus! {

/// An object identifier: names a database or a table, and the directory or
/// file that holds it.
pub type Oid = u32;

/// The first identifier handed out; those below are kept for the system.
pub const INITIAL_OID: Oid = 10000;

pub const DUMMY_OID: Oid = 0;

/// The decimal text of an identifier, as it stands in paths and catalogs.
pub fn oid_to_string(oid: Oid) -> (s: String)
    ensures
        s@ == spec_decimal_nat(oid as nat),
{
    u64_to_decimal(oid as u64)
}

/// What the counter file holds when the engine is first set up: the first
/// identifier in decimal.
pub open spec fn spec_initial_oid_bytes() -> Seq<u8> {
    encode_utf8(spec_decimal_nat(INITIAL_OID as nat))
}

/// The step that makes the counter file of a new installation.
pub fn create_oid_file(config: &Config) -> (action: FsAction)
    ensures
        action@ == (FsStep::WriteFile {
            path: config.spec_oid_file(),
            content: spec_initial_oid_bytes(),
        }),
{
    let text = oid_to_string(INITIAL_OID);
    FsAction::WriteFile { path: config.oid_file_path(), content: text.as_str().as_bytes_vec() }
}

/// The counter of identifiers: holds the next one to hand out.
pub struct OidManager {
    current_oid: Oid,
}

/// The identifier that a counter file holds: its first line, read as an
/// unsigned 32-bit decimal number.
pub open spec fn spec_read_counter(text: Seq<char>) -> Option<Oid> {
    if spec_lines(text).len() == 0 {
        None
    } else {
        match spec_parse_unsigned(spec_lines(text)[0], u32::MAX as nat) {
            Some(v) => Some(v as u32),
            None => None,
        }
    }
}

impl OidManager {
    /// The identifier that the next call of `get_new_oid` returns.
    pub closed spec fn next(&self) -> Oid {
        self.current_oid
    }

    /// The counter that the text of a counter file stands for, if its first
    /// line is a number.
    pub fn new(text: &str) -> (r: Option<OidManager>)
        ensures
            match spec_read_counter(text@) {
                Some(oid) => (r matches Some(m) && m.next() == oid),
                None => r is None,
            },
    {
        let chars = to_chars(text);
        match first_line(&chars) {
            None => None,
            Some(line) => match parse_unsigned(&line, 0xffff_ffff) {
                Some(v) => Some(OidManager { current_oid: v as u32 }),
                None => None,
            },
        }
    }

    /// A counter whose next identifier is `oid`.
    pub fn starting_at(oid: Oid) -> (m: OidManager)
        ensures
            m.next() == oid,
    {
        OidManager { current_oid: oid }
    }

    /// Hands out the current identifier and moves the counter on by one.
    pub fn get_new_oid(&mut self) -> (oid: Oid)
        requires
            old(self).next() < u32::MAX,
        ensures
            oid == old(self).next(),
            final(self).next() == old(self).next() + 1,
    {
        let result = self.current_oid;
        self.current_oid = self.current_oid + 1;
        result
    }

    /// Whether the counter can still hand out an identifier.
    pub fn has_next(&self) -> (b: bool)
        ensures
            b == (self.next() < u32::MAX),
    {
        self.current_oid < u32::MAX
    }

    /// The text to keep in the counter file: the next identifier in decimal.
    pub fn counter_text(&self) -> (s: String)
        ensures
            s@ == spec_decimal_nat(self.next() as nat),
    {
        oid_to_string(self.current_oid)
    }

    /// The step that keeps the counter: its file, written anew with the next
    /// identifier in decimal.
    pub fn save(&self, config: &Config) -> (action: FsAction)
        ensures
            action@ == (FsStep::WriteFile {
                path: config.spec_oid_file(),
                content: encode_utf8(spec_decimal_nat(self.next() as nat)),
            }),
    {
        let text = self.counter_text();
        FsAction::WriteFile { path: config.oid_file_path(), content: text.as_str().as_bytes_vec() }
    }
}

} // verus!

//! Backend-specific SQL rendering rules: identifier quoting, placeholder
//! style, pagination clause shape, and the transaction capability. A
//! `Dialect` is a pure, immutable description chosen once at connect time;
//! the compiler takes it as an explicit parameter and never re-branches on
//! the backend elsewhere.

use vstd::prelude::*;

verus! {

/// The closed set of supported backend flavors.
#[derive(Debug, Clone, Copy, PartialEq, Eq, Structural)]
pub enum Dialect {
    Postgres,
    MySql,
}

/// The character each dialect wraps identifiers in: double quote for
/// Postgres, backtick for MySQL.
pub open spec fn spec_quote_mark(d: Dialect) -> char {
    match d {
        Dialect::Postgres => '"',
        Dialect::MySql => '`',
    }
}

/// Whether the dialect numbers its placeholders (`$1`, `$2`, ...) rather
/// than using the anonymous `?` marker.
pub open spec fn spec_numbered_placeholders(d: Dialect) -> bool {
    match d {
        Dialect::Postgres => true,
        Dialect::MySql => false,
    }
}

/// Whether an OFFSET clause may only appear together with a LIMIT clause.
/// MySQL has no stand-alone OFFSET; Postgres accepts one.
pub open spec fn spec_offset_requires_limit(d: Dialect) -> bool {
    match d {
        Dialect::Postgres => false,
        Dialect::MySql => true,
    }
}

/// Whether the backend supports transaction control statements through this
/// library.
pub open spec fn spec_supports_transactions(d: Dialect) -> bool {
    match d {
        Dialect::Postgres => true,
        Dialect::MySql => false,
    }
}

impl Dialect {
    /// Executable form of [`spec_quote_mark`].
    pub fn quote_mark(self) -> (r: char)
        ensures
            r == spec_quote_mark(self),
    {
        match self {
            Dialect::Postgres => '"',
            Dialect::MySql => '`',
        }
    }

    /// Executable form of [`spec_numbered_placeholders`].
    pub fn numbered_placeholders(self) -> (r: bool)
        ensures
            r == spec_numbered_placeholders(self),
    {
        match self {
            Dialect::Postgres => true,
            Dialect::MySql => false,
        }
    }

    /// Executable form of [`spec_offset_requires_limit`].
    pub fn offset_requires_limit(self) -> (r: bool)
        ensures
            r == spec_offset_requires_limit(self),
    {
        match self {
            Dialect::Postgres => false,
            Dialect::MySql => true,
        }
    }

    /// Executable form of [`spec_supports_transactions`].
    pub fn supports_transactions(self) -> (r: bool)
        ensures
            r == spec_supports_transactions(self),
    {
        match self {
            Dialect::Postgres => true,
            Dialect::MySql => false,
        }
    }
}

} // verus!

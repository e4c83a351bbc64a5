//! The computing side of durable memory storage: the error type, how a
//! memory's evidence is written to and read from its column, the
//! "no row touched means not found" rule of in-place updates, and how a
//! contradiction between two memories is resolved.

use vstd::prelude::*;
use crate::text::texts;

verus! {

/// Identifies one stored memory.
#[derive(Debug, Clone, Copy, PartialEq, Eq, Structural)]
pub struct MemoryId(pub u128);

/// `serde_json::Error`, carried opaquely.
#[verifier::external_type_specification]
#[verifier::external_body]
pub struct ExSerdeJsonError(serde_json::Error);

/// `rusqlite::Error`, carried opaquely.
#[verifier::external_type_specification]
#[verifier::external_body]
pub struct ExRusqliteError(rusqlite::Error);

/// Errors raised by memory storage.
#[derive(Debug)]
pub enum MemoryError {
    Sqlite(rusqlite::Error),
    Serialization(serde_json::Error),
    NotFound(MemoryId),
}

/// A hexadecimal digit, lower case, of a value below 16.
pub open spec fn hex_digit(n: int) -> char {
    if n < 10 {
        ('0' as int + n) as char
    } else {
        ('a' as int + n - 10) as char
    }
}

/// How one character is written inside a JSON string: quote, backslash and
/// the control characters are escaped, everything else is written as is.
pub open spec fn escaped_char(c: char) -> Seq<char> {
    if c == '"' {
        seq!['\\', '"']
    } else if c == '\\' {
        seq!['\\', '\\']
    } else if c == '\x08' {
        seq!['\\', 'b']
    } else if c == '\t' {
        seq!['\\', 't']
    } else if c == '\n' {
        seq!['\\', 'n']
    } else if c == '\x0c' {
        seq!['\\', 'f']
    } else if c == '\r' {
        seq!['\\', 'r']
    } else if (c as int) < 0x20 {
        seq!['\\', 'u', '0', '0', hex_digit(c as int / 16), hex_digit(c as int % 16)]
    } else {
        seq![c]
    }
}

/// A text as a JSON string literal.
pub open spec fn json_string(s: Seq<char>) -> Seq<char> {
    seq!['"'] + s.map_values(|c: char| escaped_char(c)).flatten() + seq!['"']
}

/// The JSON string literals of `list`, separated by commas.
pub open spec fn json_items(list: Seq<Seq<char>>) -> Seq<char>
    decreases list.len(),
{
    if list.len() == 0 {
        Seq::empty()
    } else if list.len() == 1 {
        json_string(list[0])
    } else {
        json_items(list.drop_last()) + seq![','] + json_string(list.last())
    }
}

/// The JSON text of a list of strings: a compact array of string literals.
pub open spec fn evidence_json(evidence: Seq<Seq<char>>) -> Seq<char> {
    seq!['['] + json_items(evidence) + seq![']']
}

/// The list of strings `serde_json::from_str` reads from a JSON text, if it
/// reads one.
pub uninterp spec fn evidence_parsed(json: Seq<char>) -> Option<Seq<Seq<char>>>;

/// `serde_json::to_string` on a list of strings. Claimed: it succeeds (a
/// list of strings has no failing `Serialize` impl and no map key, and the
/// writer is an in-memory buffer); its text is the compact JSON array
/// `evidence_json`; and `serde_json::from_str` reads that text back as the
/// same list.
#[verifier::external_body]
fn serialize_evidence(evidence: &Vec<String>) -> (r: Result<String, serde_json::Error>)
    ensures
        r is Ok,
        r matches Ok(json) ==> json@ == evidence_json(texts(evidence@)),
        r matches Ok(json) ==> evidence_parsed(json@) == Some(texts(evidence@)),
{
    serde_json::to_string(evidence)
}

/// `serde_json::from_str` into a list of strings: it succeeds exactly when
/// the text names a list (`evidence_parsed`), and then yields that list.
#[verifier::external_body]
fn deserialize_evidence(json: &str) -> (r: Result<Vec<String>, serde_json::Error>)
    ensures
        r is Ok <==> evidence_parsed(json@) is Some,
        r matches Ok(list) ==> evidence_parsed(json@) == Some(texts(list@)),
{
    serde_json::from_str(json)
}

/// The text stored in a memory's evidence column; reading it back gives
/// the same evidence.
pub fn evidence_column(evidence: &Vec<String>) -> (r: Result<String, MemoryError>)
    ensures
        r is Ok,
        r matches Ok(json) ==> json@ == evidence_json(texts(evidence@)),
        r matches Ok(json) ==> evidence_parsed(json@) == Some(texts(evidence@)),
{
    match serialize_evidence(evidence) {
        Ok(json) => Ok(json),
        Err(e) => Err(MemoryError::Serialization(e)),
    }
}

/// The evidence read back from a memory's evidence column.
pub fn evidence_from_column(json: &str) -> (r: Result<Vec<String>, MemoryError>)
    ensures
        r is Ok <==> evidence_parsed(json@) is Some,
        r matches Ok(list) ==> evidence_parsed(json@) == Some(texts(list@)),
        r matches Err(e) ==> e is Serialization,
{
    match deserialize_evidence(json) {
        Ok(list) => Ok(list),
        Err(e) => Err(MemoryError::Serialization(e)),
    }
}

/// An in-place update of memory `id` that touched `affected` rows: none
/// means there is no such memory.
pub fn require_updated(affected: usize, id: MemoryId) -> (r: Result<(), MemoryError>)
    ensures
        r is Ok <==> affected > 0,
        r matches Err(e) ==> e == MemoryError::NotFound(id),
{
    if affected == 0 {
        Err(MemoryError::NotFound(id))
    } else {
        Ok(())
    }
}

/// How a contradiction between two memories is resolved: the winner is
/// kept, the loser is marked superseded by it (never deleted).
#[derive(Debug, Clone, Copy, PartialEq, Eq, Structural)]
pub struct ConflictResolution {
    pub winner: MemoryId,
    pub loser: MemoryId,
}

/// Resolves a contradiction between memories `a` and `b`, given whether
/// each was found and whether `a` is at least as confident as `b`: the
/// more confident memory wins, ties go to `a`; a missing memory (`a`
/// checked first) is an error.
pub fn resolve_conflict_between(
    a: MemoryId,
    b: MemoryId,
    a_found: bool,
    b_found: bool,
    a_at_least_as_confident: bool,
) -> (r: Result<ConflictResolution, MemoryError>)
    ensures
        !a_found ==> (r matches Err(e) && e == MemoryError::NotFound(a)),
        a_found && !b_found ==> (r matches Err(e) && e == MemoryError::NotFound(b)),
        a_found && b_found && a_at_least_as_confident ==> r == Ok::<ConflictResolution, MemoryError>(
            ConflictResolution { winner: a, loser: b },
        ),
        a_found && b_found && !a_at_least_as_confident ==> r == Ok::<
            ConflictResolution,
            MemoryError,
        >(ConflictResolution { winner: b, loser: a }),
{
    if !a_found {
        Err(MemoryError::NotFound(a))
    } else if !b_found {
        Err(MemoryError::NotFound(b))
    } else if a_at_least_as_confident {
        Ok(ConflictResolution { winner: a, loser: b })
    } else {
        Ok(ConflictResolution { winner: b, loser: a })
    }
}

/// The instant an RFC 3339 timestamp text names, as whole seconds since the
/// Unix epoch and the nanoseconds past them, if the text is one.
pub uninterp spec fn rfc3339_instant(text: Seq<char>) -> Option<(i64, u32)>;

/// `chrono::DateTime::parse_from_rfc3339`, read back as the instant it
/// names (`DateTime::timestamp` and `DateTime::timestamp_subsec_nanos`):
/// named `rfc3339_instant`, `None` when the text is not RFC 3339.
#[verifier::external_body]
fn parse_rfc3339(text: &str) -> (r: Option<(i64, u32)>)
    ensures
        r == rfc3339_instant(text@),
{
    match chrono::DateTime::parse_from_rfc3339(text) {
        Ok(t) => Some((t.timestamp(), t.timestamp_subsec_nanos())),
        Err(_) => None,
    }
}

/// The instant a stored timestamp column names, if it holds an RFC 3339
/// timestamp.
pub fn stored_instant(text: &str) -> (r: Option<(i64, u32)>)
    ensures
        r == rfc3339_instant(text@),
{
    parse_rfc3339(text)
}

/// The RFC 3339 text `chrono` writes for the UTC instant `secs` seconds and
/// `nanos` nanoseconds after the Unix epoch, if that is an instant.
pub uninterp spec fn rfc3339_text(secs: i64, nanos: u32) -> Option<Seq<char>>;

/// The instants whose RFC 3339 text has a four-digit year (0000 to 9999)
/// and no leap second.
pub open spec fn plain_instant(secs: i64, nanos: u32) -> bool {
    -62167219200 <= secs <= 253402300799 && nanos < 1_000_000_000
}

/// `chrono::DateTime::<Utc>::from_timestamp` followed by
/// `DateTime::to_rfc3339`: named `rfc3339_text`, `None` when the seconds
/// and nanoseconds name no instant. Claimed of a plain instant (a year of
/// four digits, no leap second): it has a text, and
/// `DateTime::parse_from_rfc3339` reads that text back as the same instant.
#[verifier::external_body]
fn format_rfc3339(secs: i64, nanos: u32) -> (r: Option<String>)
    ensures
        r is Some <==> rfc3339_text(secs, nanos) is Some,
        r matches Some(text) ==> rfc3339_text(secs, nanos) == Some(text@),
        plain_instant(secs, nanos) ==> r is Some,
        plain_instant(secs, nanos) ==> rfc3339_instant(r->Some_0@) == Some((secs, nanos)),
{
    match chrono::DateTime::from_timestamp(secs, nanos) {
        Some(t) => Some(t.to_rfc3339()),
        None => None,
    }
}

/// The text stored in a timestamp column for the UTC instant `secs`
/// seconds and `nanos` nanoseconds after the Unix epoch; a plain instant
/// is always written, and reads back as the same instant.
pub fn timestamp_column(secs: i64, nanos: u32) -> (r: Option<String>)
    ensures
        r is Some <==> rfc3339_text(secs, nanos) is Some,
        r matches Some(text) ==> rfc3339_text(secs, nanos) == Some(text@),
        plain_instant(secs, nanos) ==> r is Some,
        plain_instant(secs, nanos) ==> rfc3339_instant(r->Some_0@) == Some((secs, nanos)),
{
    format_rfc3339(secs, nanos)
}

} // verus!

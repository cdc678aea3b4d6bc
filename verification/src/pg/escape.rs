//! Quoting of identifiers and literals for SQL text, as `postgres_protocol` does it.

use vstd::prelude::*;

verus! {

/// `s` with every `quote`, and every backslash too where `also_backslash` is set, written
/// twice.
pub open spec fn doubled(s: Seq<char>, quote: char, also_backslash: bool) -> Seq<char>
    decreases s.len(),
{
    if s.len() == 0 {
        s
    } else {
        let c = s.last();
        let front = doubled(s.drop_last(), quote, also_backslash);
        if c == quote || (also_backslash && c == '\\') {
            front.push(c).push(c)
        } else {
            front.push(c)
        }
    }
}

/// `s` as a quoted SQL identifier: between double quotes, with every double quote inside
/// written twice.
pub open spec fn escaped_identifier(s: Seq<char>) -> Seq<char> {
    seq!['"'] + doubled(s, '"', false) + seq!['"']
}

/// `s` as a quoted SQL literal: between single quotes, with every single quote and every
/// backslash inside written twice, and with a space and an `E` in front where `s` holds a
/// backslash.
pub open spec fn escaped_literal(s: Seq<char>) -> Seq<char> {
    let prefix = if s.contains('\\') {
        seq![' ', 'E']
    } else {
        Seq::<char>::empty()
    };
    prefix + seq!['\''] + doubled(s, '\'', true) + seq!['\'']
}

/// `postgres_protocol::escape::escape_identifier`: the identifier between double quotes,
/// every double quote in it doubled.
#[verifier::external_body]
pub(crate) fn escape_identifier(input: &str) -> (escaped: String)
    ensures
        escaped@ == escaped_identifier(input@),
{
    postgres_protocol::escape::escape_identifier(input)
}

/// `postgres_protocol::escape::escape_literal`: the literal between single quotes, every
/// single quote and backslash in it doubled, in the form ` E'...'` where it holds a
/// backslash.
#[verifier::external_body]
pub(crate) fn escape_literal(input: &str) -> (escaped: String)
    ensures
        escaped@ == escaped_literal(input@),
{
    postgres_protocol::escape::escape_literal(input)
}

} // verus!

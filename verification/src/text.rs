use vstd::prelude::*;

verus! {

/// Whether the character may begin an identifier, per Unicode XID_Start.
pub uninterp spec fn xid_start_of(c: char) -> bool;

/// Whether the character may continue an identifier, per Unicode XID_Continue.
pub uninterp spec fn xid_continue_of(c: char) -> bool;

/// The characters that delimit tokens on their own.
pub open spec fn is_delim(c: char) -> bool {
    c == '(' || c == ')' || c == '[' || c == ']' || c == '\'' || c == '"' || c == '#'
}

/// The whitespace the lexer skips.
pub open spec fn is_space(c: char) -> bool {
    c == ' ' || c == '\t' || c == '\n' || c == '\r'
}

/// The operator characters that form their own family of symbols.
pub open spec fn is_op_char(c: char) -> bool {
    c == '+' || c == '-' || c == '*' || c == '/' || c == '=' || c == '<' || c == '>'
}

pub open spec fn is_digit(c: char) -> bool {
    '0' <= c && c <= '9'
}

/// Relies on unicode_xid::UnicodeXID::is_xid_start. XID_Start contains no
/// ASCII digit, white space, bracket, quotation or operator punctuation.
#[verifier::external_body]
pub(crate) fn xid_start(c: char) -> (r: bool)
    ensures
        r == xid_start_of(c),
        r ==> !is_delim(c) && !is_space(c) && !is_op_char(c) && !is_digit(c) && c != ';',
{
    unicode_xid::UnicodeXID::is_xid_start(c)
}

/// Relies on unicode_xid::UnicodeXID::is_xid_continue. XID_Continue contains
/// no white space, bracket, quotation or operator punctuation, and every
/// XID_Start character and ASCII digit belongs to it.
#[verifier::external_body]
pub(crate) fn xid_continue(c: char) -> (r: bool)
    ensures
        r == xid_continue_of(c),
        r ==> !is_delim(c) && !is_space(c) && !is_op_char(c) && c != ';',
        xid_start_of(c) ==> r,
        is_digit(c) ==> r,
{
    unicode_xid::UnicodeXID::is_xid_continue(c)
}

/// Relies on str::chars: the characters of the text, in order.
#[verifier::external_body]
pub(crate) fn str_to_chars(s: &str) -> (r: Vec<char>)
    ensures
        r@ == s@,
{
    s.chars().collect()
}

/// Relies on core's FromIterator for String: the text with exactly the
/// given characters, in order.
#[verifier::external_body]
pub(crate) fn chars_to_string(v: &Vec<char>) -> (r: String)
    ensures
        r@ == v@,
{
    v.iter().collect()
}

/// Relies on std::io::Stdout: writes the line to standard output.
/// The text reaches the caller's terminal; nothing is promised of it here.
#[verifier::external_body]
pub(crate) fn emit_line(s: &str) {
    let mut out = std::io::stdout();
    let _ = std::io::Write::write_all(&mut out, s.as_bytes());
    let _ = std::io::Write::write_all(&mut out, b"\n");
}

} // verus!

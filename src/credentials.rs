//! Credential records: one JSON object per line, holding a username and the
//! bcrypt hash of its password. Reading and appending the lines is left to
//! the caller; this module builds the record of a registration and decides a
//! login over the lines read back.

use vstd::prelude::*;
use vstd::string::*;

verus! {

/// Whether `bcrypt::verify` accepts `password` for `hash`.
pub uninterp spec fn bcrypt_accepts(password: Seq<char>, hash: Seq<char>) -> bool;

/// The lower-case hexadecimal digit for `n`, which is below 16.
pub open spec fn hex_digit(n: u32) -> char {
    seq!['0', '1', '2', '3', '4', '5', '6', '7', '8', '9', 'a', 'b', 'c', 'd', 'e', 'f'][n as int]
}

/// How `serde_json` writes one character inside a string literal: quote,
/// backslash and the control characters below U+0020 are escaped, the short
/// forms where JSON has one; every other character is written as it is.
pub open spec fn json_escape(c: char) -> Seq<char> {
    if c == '"' {
        seq!['\\', '"']
    } else if c == '\\' {
        seq!['\\', '\\']
    } else if c == '\u{8}' {
        seq!['\\', 'b']
    } else if c == '\t' {
        seq!['\\', 't']
    } else if c == '\n' {
        seq!['\\', 'n']
    } else if c == '\u{c}' {
        seq!['\\', 'f']
    } else if c == '\r' {
        seq!['\\', 'r']
    } else if (c as u32) < 0x20 {
        seq!['\\', 'u', '0', '0', hex_digit((c as u32) / 16), hex_digit((c as u32) % 16)]
    } else {
        seq![c]
    }
}

/// The characters of `s`, each escaped as in a JSON string literal.
pub open spec fn json_escaped(s: Seq<char>) -> Seq<char>
    decreases s.len(),
{
    if s.len() == 0 {
        Seq::empty()
    } else {
        json_escaped(s.drop_last()) + json_escape(s.last())
    }
}

/// The JSON string literal that `serde_json` writes for `s`, quotes included.
pub open spec fn json_quoted(s: Seq<char>) -> Seq<char> {
    seq!['"'] + json_escaped(s) + seq!['"']
}

/// The string member `key` of the JSON object in `line`, as `serde_json` reads it.
pub uninterp spec fn json_text_member(line: Seq<char>, key: Seq<char>) -> Option<Seq<char>>;

/// A JSON object of two string members, in the form `serde_json` writes it.
pub open spec fn json_pair_object(k1: Seq<char>, v1: Seq<char>, k2: Seq<char>, v2: Seq<char>) -> Seq<
    char,
> {
    "{"@ + json_quoted(k1) + ":"@ + json_quoted(v1) + ","@ + json_quoted(k2) + ":"@ + json_quoted(
        v2,
    ) + "}"@
}

/// The stored line for `user` with password hash `hash`.
pub open spec fn record_text(user: Seq<char>, hash: Seq<char>) -> Seq<char> {
    json_pair_object("username"@, user, "password"@, hash)
}

/// Whether one stored line is a record of `user` whose hash accepts `pass`.
pub open spec fn record_matches(line: Seq<char>, user: Seq<char>, pass: Seq<char>) -> bool {
    &&& json_text_member(line, "username"@) == Some(user)
    &&& match json_text_member(line, "password"@) {
        Some(h) => bcrypt_accepts(pass, h),
        None => false,
    }
}

/// Whether some stored line lets `user` in with `pass`.
pub open spec fn login_accepts(lines: Seq<Seq<char>>, user: Seq<char>, pass: Seq<char>) -> bool {
    exists|i: int| 0 <= i < lines.len() && record_matches(#[trigger] lines[i], user, pass)
}

/// Whether some stored line was written by a registration of `user` with `pass`.
pub open spec fn holds_registration(lines: Seq<Seq<char>>, user: Seq<char>, pass: Seq<char>) -> bool {
    exists|i: int, h: Seq<char>|
        0 <= i < lines.len() && #[trigger] lines[i] == #[trigger] record_text(user, h) && bcrypt_accepts(
            pass,
            h,
        )
}

pub open spec fn lines_view(lines: Seq<String>) -> Seq<Seq<char>> {
    lines.map_values(|l: String| l@)
}

/// A login with a password that no stored hash of `user` accepts fails.
pub proof fn lemma_wrong_password_rejected(lines: Seq<Seq<char>>, user: Seq<char>, pass: Seq<char>)
    requires
        forall|i: int|
            0 <= i < lines.len() && json_text_member(#[trigger] lines[i], "username"@) == Some(
                user,
            ) ==> match json_text_member(lines[i], "password"@) {
                Some(h) => !bcrypt_accepts(pass, h),
                None => true,
            },
    ensures
        !login_accepts(lines, user, pass),
{
}

/// A login as a user of whom no record is stored fails, whatever the password.
pub proof fn lemma_unknown_user_rejected(lines: Seq<Seq<char>>, user: Seq<char>, pass: Seq<char>)
    requires
        forall|i: int|
            0 <= i < lines.len() ==> json_text_member(#[trigger] lines[i], "username"@) != Some(
                user,
            ),
    ensures
        !login_accepts(lines, user, pass),
{
}

/// Relies on `bcrypt::verify`: whether `password` matches `hash`, a hash that
/// does not parse matching nothing. The answer depends on the two arguments alone.
#[verifier::external_body]
fn bcrypt_check(password: &str, hash: &str) -> (r: bool)
    ensures
        r == bcrypt_accepts(password@, hash@),
{
    bcrypt::verify(password, hash).unwrap_or(false)
}

/// Relies on `bcrypt::hash` at `bcrypt::DEFAULT_COST`: a hash with a fresh
/// random salt, which `bcrypt::verify` accepts for the same password; `None`
/// when the system gave no randomness.
#[verifier::external_body]
fn bcrypt_hash(password: &str) -> (r: Option<String>)
    ensures
        r matches Some(h) ==> bcrypt_accepts(password@, h@),
{
    bcrypt::hash(password, bcrypt::DEFAULT_COST).ok()
}

/// Relies on `serde_json::to_string` on a string slice, which writes the string
/// between quotes with the escapes of `json_escape`, and cannot fail for that type.
#[verifier::external_body]
fn json_quote(s: &str) -> (r: String)
    ensures
        r@ == json_quoted(s@),
{
    serde_json::to_string(s).unwrap_or_default()
}

/// Relies on `serde_json::from_str` into a `serde_json::Value`, then
/// `Value::get` and `Value::as_str`: the string member `key` of the object that
/// `line` holds; `None` when `line` is no JSON object or that member is missing
/// or no string. An object that `serde_json` wrote with two distinct keys reads
/// back the strings that were written.
#[verifier::external_body]
fn json_member(line: &str, key: &str) -> (r: Option<String>)
    ensures
        match r {
            Some(v) => json_text_member(line@, key@) == Some(v@),
            None => json_text_member(line@, key@) is None,
        },
        forall|v1: Seq<char>, k2: Seq<char>, v2: Seq<char>|
            key@ != k2 && line@ == #[trigger] json_pair_object(key@, v1, k2, v2) ==> (r is Some
                && r->0@ == v1),
        forall|k1: Seq<char>, v1: Seq<char>, v2: Seq<char>|
            k1 != key@ && line@ == #[trigger] json_pair_object(k1, v1, key@, v2) ==> (r is Some
                && r->0@ == v2),
{
    serde_json::from_str::<serde_json::Value>(line).ok().and_then(
        |v| v.get(key).and_then(|m| m.as_str().map(String::from)),
    )
}

/// The line that stores `user` with password hash `hash`.
pub fn record_line(user: &str, hash: &str) -> (r: String)
    ensures
        r@ == record_text(user@, hash@),
{
    let mut r = String::from_str("{");
    r.append(json_quote("username").as_str());
    r.append(":");
    r.append(json_quote(user).as_str());
    r.append(",");
    r.append(json_quote("password").as_str());
    r.append(":");
    r.append(json_quote(hash).as_str());
    r.append("}");
    r
}

/// The record to append for a registration of `user` with `pass`; `None` when
/// hashing failed.
pub fn register(user: &str, pass: &str) -> (r: Option<String>)
    ensures
        r matches Some(line) ==> exists|h: Seq<char>|
            line@ == record_text(user@, h) && bcrypt_accepts(pass@, h),
{
    match bcrypt_hash(pass) {
        Some(h) => {
            let line = record_line(user, h.as_str());
            assert(line@ == record_text(user@, h@) && bcrypt_accepts(pass@, h@));
            Some(line)
        },
        None => None,
    }
}

/// Whether the stored line `line` lets `user` in with `pass`.
pub fn record_accepts(line: &str, user: &str, pass: &str) -> (r: bool)
    ensures
        r == record_matches(line@, user@, pass@),
        (exists|h: Seq<char>| line@ == record_text(user@, h) && bcrypt_accepts(pass@, h)) ==> r,
{
    proof {
        reveal_strlit("username");
        reveal_strlit("password");
    }
    assert("username"@ != "password"@) by {
        assert("username"@[0] != "password"@[0]);
    }
    let name = json_member(line, "username");
    let stored = json_member(line, "password");
    let r = match (name, stored) {
        (Some(n), Some(h)) => crate::text::same_text(n.as_str(), user) && bcrypt_check(
            pass,
            h.as_str(),
        ),
        _ => false,
    };
    proof {
        if exists|h: Seq<char>| line@ == record_text(user@, h) && bcrypt_accepts(pass@, h) {
            let h = choose|h: Seq<char>|
                line@ == record_text(user@, h) && bcrypt_accepts(pass@, h);
            assert(line@ == json_pair_object("username"@, user@, "password"@, h));
        }
    }
    r
}

/// Decides a login over the stored lines, in storage order: it succeeds when
/// some record of `user` has a hash that accepts `pass`. A line written by
/// [`register`] for `user` and `pass` always lets them in.
pub fn login(lines: &Vec<String>, user: &str, pass: &str) -> (r: bool)
    ensures
        r == login_accepts(lines_view(lines@), user@, pass@),
        holds_registration(lines_view(lines@), user@, pass@) ==> r,
{
    let ghost ls = lines_view(lines@);
    let mut i: usize = 0;
    while i < lines.len()
        invariant
            i <= lines@.len(),
            ls == lines_view(lines@),
            forall|j: int| 0 <= j < i ==> !record_matches(#[trigger] ls[j], user@, pass@),
            forall|j: int, h: Seq<char>|
                0 <= j < i && #[trigger] ls[j] == #[trigger] record_text(user@, h) ==> !bcrypt_accepts(
                    pass@,
                    h,
                ),
        decreases lines@.len() - i,
    {
        if record_accepts(lines[i].as_str(), user, pass) {
            assert(record_matches(ls[i as int], user@, pass@));
            return true;
        }
        i = i + 1;
    }
    false
}

}

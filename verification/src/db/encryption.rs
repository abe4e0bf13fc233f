//! The statements that key, encrypt and decrypt the database file.

use vstd::prelude::*;

verus! {

/// The lowercase hexadecimal digit for `nibble`.
pub open spec fn hex_digit(nibble: nat) -> char {
    if nibble == 0 {
        '0'
    } else if nibble == 1 {
        '1'
    } else if nibble == 2 {
        '2'
    } else if nibble == 3 {
        '3'
    } else if nibble == 4 {
        '4'
    } else if nibble == 5 {
        '5'
    } else if nibble == 6 {
        '6'
    } else if nibble == 7 {
        '7'
    } else if nibble == 8 {
        '8'
    } else if nibble == 9 {
        '9'
    } else if nibble == 10 {
        'a'
    } else if nibble == 11 {
        'b'
    } else if nibble == 12 {
        'c'
    } else if nibble == 13 {
        'd'
    } else if nibble == 14 {
        'e'
    } else {
        'f'
    }
}

/// `data` in lowercase hexadecimal, two digits for each byte.
pub open spec fn hex_text(data: Seq<u8>) -> Seq<char>
    decreases data.len(),
{
    if data.len() == 0 {
        Seq::empty()
    } else {
        hex_text(data.drop_last()).push(hex_digit((data.last() / 16) as nat)).push(
            hex_digit((data.last() % 16) as nat),
        )
    }
}

/// The statement that gives the database its key.
pub open spec fn key_statement(key: Seq<u8>) -> Seq<char> {
    "PRAGMA key = \"x'"@ + hex_text(key) + "'\""@
}

/// The statements that copy the open database into an encrypted file at
/// `path`, keyed with `key`.
pub open spec fn encrypt_statements(path: Seq<char>, key: Seq<u8>) -> Seq<char> {
    "ATTACH DATABASE '"@ + path + "' AS encrypted KEY \"x'"@ + hex_text(key)
        + "'\"; SELECT sqlcipher_export('encrypted'); DETACH DATABASE encrypted;"@
}

/// The statements that copy the open database into a plain file at `path`.
pub open spec fn decrypt_statements(path: Seq<char>) -> Seq<char> {
    "ATTACH DATABASE '"@ + path
        + "' AS plaintext KEY ''; SELECT sqlcipher_export('plaintext'); DETACH DATABASE plaintext;"@
}

/// Calls `hex::encode`, which writes each byte of `data` as two lowercase
/// hexadecimal digits, high digit first.
#[verifier::external_body]
fn hex_encode(data: &[u8]) -> (text: String)
    ensures
        text@ == hex_text(data@),
{
    hex::encode(data)
}

/// The statement that gives the database its key, a 256-bit key as a rule.
pub fn key_pragma(key: &[u8]) -> (sql: String)
    ensures
        sql@ == key_statement(key@),
{
    let mut sql = String::from_str("PRAGMA key = \"x'");
    sql.append(hex_encode(key).as_str());
    sql.append("'\"");
    sql
}

/// The statements that export the open database to an encrypted file.
pub fn encrypt_sql(encrypted_path: &str, key: &[u8]) -> (sql: String)
    ensures
        sql@ == encrypt_statements(encrypted_path@, key@),
{
    let mut sql = String::from_str("ATTACH DATABASE '");
    sql.append(encrypted_path);
    sql.append("' AS encrypted KEY \"x'");
    sql.append(hex_encode(key).as_str());
    sql.append("'\"; SELECT sqlcipher_export('encrypted'); DETACH DATABASE encrypted;");
    sql
}

/// The statements that export the open database to a plain file.
pub fn decrypt_sql(unencrypted_path: &str) -> (sql: String)
    ensures
        sql@ == decrypt_statements(unencrypted_path@),
{
    let mut sql = String::from_str("ATTACH DATABASE '");
    sql.append(unencrypted_path);
    sql.append(
        "' AS plaintext KEY ''; SELECT sqlcipher_export('plaintext'); DETACH DATABASE plaintext;",
    );
    sql
}

} // verus!

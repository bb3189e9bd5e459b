//! Content-addressed identifiers: a prefix followed by the SHA-256 hex digest
//! of a canonical string.
use sha2::Digest;
use vstd::prelude::*;
use vstd::string::*;

verus! {

/// Lowercase hexadecimal SHA-256 digest of the UTF-8 encoding of `s`.
pub uninterp spec fn sha256_hex(s: Seq<char>) -> Seq<char>;

/// A lowercase hexadecimal digit.
pub open spec fn is_lower_hex_digit(c: char) -> bool {
    ('0' <= c && c <= '9') || ('a' <= c && c <= 'f')
}

/// Relies on `sha2::Sha256::digest` and the `LowerHex` formatting of its
/// output: the digest depends on the input text alone, and its 32 bytes are
/// written as 64 lowercase hexadecimal digits.
#[verifier::external_body]
fn sha256_hex_of(s: &str) -> (r: String)
    ensures
        r@ == sha256_hex(s@),
        r@.len() == 64,
        forall|i: int| 0 <= i < r@.len() ==> is_lower_hex_digit(#[trigger] r@[i]),
{
    format!("{:x}", sha2::Sha256::digest(s.as_bytes()))
}

/// `prefix` followed by the hex digest of `content`.
pub open spec fn mdhash_id(content: Seq<char>, prefix: Seq<char>) -> Seq<char> {
    prefix + sha256_hex(content)
}

pub fn compute_mdhash_id(content: &str, prefix: &str) -> (r: String)
    ensures
        r@ == mdhash_id(content@, prefix@),
        r@.len() == prefix@.len() + 64,
        forall|i: int| prefix@.len() <= i < r@.len() ==> is_lower_hex_digit(#[trigger] r@[i]),
{
    let h = sha256_hex_of(content);
    let p = String::from_str(prefix);
    let r = p.concat(h.as_str());
    assert forall|i: int| prefix@.len() <= i < r@.len() implies is_lower_hex_digit(#[trigger] r@[i]) by {
        assert(r@[i] == h@[i - prefix@.len()]);
    }
    r
}

/// `a ":" b ":" c`
pub open spec fn colon3(a: Seq<char>, b: Seq<char>, c: Seq<char>) -> Seq<char> {
    a + seq![':'] + b + seq![':'] + c
}

pub fn join_colon3(a: &str, b: &str, c: &str) -> (r: String)
    ensures
        r@ == colon3(a@, b@, c@),
{
    proof {
        reveal_strlit(":");
    }
    let s = String::from_str(a);
    let s = s.concat(":");
    let s = s.concat(b);
    let s = s.concat(":");
    let r = s.concat(c);
    assert(r@ =~= colon3(a@, b@, c@));
    r
}

pub open spec fn doc_id_spec(content: Seq<char>) -> Seq<char> {
    mdhash_id(content, "doc-"@)
}

pub open spec fn chunk_id_spec(content: Seq<char>) -> Seq<char> {
    mdhash_id(content, "chunk-"@)
}

pub open spec fn entity_id_spec(doc_id: Seq<char>, name: Seq<char>, kind: Seq<char>) -> Seq<
    char,
> {
    mdhash_id(colon3(doc_id, name, kind), "entity-"@)
}

pub open spec fn relation_id_spec(doc_id: Seq<char>, source: Seq<char>, target: Seq<char>) -> Seq<
    char,
> {
    mdhash_id(colon3(doc_id, source, target), "rel-"@)
}

/// Identifier of a document: `"doc-"` and the digest of its content.
pub fn doc_id(content: &str) -> (r: String)
    ensures
        r@ == doc_id_spec(content@),
{
    compute_mdhash_id(content, "doc-")
}

/// Identifier of a chunk: `"chunk-"` and the digest of its content.
pub fn chunk_id(content: &str) -> (r: String)
    ensures
        r@ == chunk_id_spec(content@),
{
    compute_mdhash_id(content, "chunk-")
}

/// Identifier of an entity, stable for a document, a name and a type.
pub fn entity_id(doc_id: &str, name: &str, kind: &str) -> (r: String)
    ensures
        r@ == entity_id_spec(doc_id@, name@, kind@),
{
    let key = join_colon3(doc_id, name, kind);
    compute_mdhash_id(key.as_str(), "entity-")
}

/// Identifier of a relationship, stable for a document and two entity names.
pub fn relation_id(doc_id: &str, source: &str, target: &str) -> (r: String)
    ensures
        r@ == relation_id_spec(doc_id@, source@, target@),
{
    let key = join_colon3(doc_id, source, target);
    compute_mdhash_id(key.as_str(), "rel-")
}

/// Decimal digit for `d < 10`.
pub open spec fn digit_char(d: nat) -> char {
    if d < 10 {
        (('0' as u32) + d) as char
    } else {
        '?'
    }
}

/// Decimal representation of a natural number, without leading zeros.
pub open spec fn decimal(n: nat) -> Seq<char>
    decreases n,
{
    if n < 10 {
        seq![digit_char(n)]
    } else {
        decimal(n / 10).push(digit_char(n % 10))
    }
}

/// Decimal representation of an integer, with a leading `-` when negative.
pub open spec fn signed_decimal(n: int) -> Seq<char> {
    if n < 0 {
        seq!['-'] + decimal((-n) as nat)
    } else {
        decimal(n as nat)
    }
}

fn digit(d: u64) -> (c: char)
    requires
        d < 10,
    ensures
        c == digit_char(d as nat),
{
    if d == 0 { '0' }
    else if d == 1 { '1' }
    else if d == 2 { '2' }
    else if d == 3 { '3' }
    else if d == 4 { '4' }
    else if d == 5 { '5' }
    else if d == 6 { '6' }
    else if d == 7 { '7' }
    else if d == 8 { '8' }
    else { '9' }
}

fn decimal_chars(n: u64) -> (r: Vec<char>)
    ensures
        r@ == decimal(n as nat),
    decreases n,
{
    if n < 10 {
        let mut v: Vec<char> = Vec::new();
        v.push(digit(n));
        assert(v@ =~= decimal(n as nat));
        v
    } else {
        let mut v = decimal_chars(n / 10);
        v.push(digit(n % 10));
        v
    }
}

/// Decimal text of an integer.
pub fn signed_decimal_string(n: i64) -> (r: String)
    ensures
        r@ == signed_decimal(n as int),
{
    if n < 0 {
        let m: u64 = if n == i64::MIN { 9223372036854775808u64 } else { (-n) as u64 };
        let mut v: Vec<char> = Vec::new();
        v.push('-');
        let d = decimal_chars(m);
        let mut i: usize = 0;
        while i < d.len()
            invariant
                v@ == seq!['-'] + d@.subrange(0, i as int),
                i <= d@.len(),
            decreases d.len() - i,
        {
            v.push(d[i]);
            i = i + 1;
            assert(v@ =~= seq!['-'] + d@.subrange(0, i as int));
        }
        assert(d@.subrange(0, d@.len() as int) =~= d@);
        crate::text::string_of(v.as_slice())
    } else {
        let d = decimal_chars(n as u64);
        crate::text::string_of(d.as_slice())
    }
}

/// Identifier of the error record written for a failed intake:
/// `"error-"` and the digest of `"error-{track_id}-{file_name}"`.
pub open spec fn error_id_spec(track_id: Seq<char>, file_name: Seq<char>) -> Seq<char> {
    mdhash_id("error-"@ + track_id + "-"@ + file_name, "error-"@)
}

pub fn error_id(track_id: &str, file_name: &str) -> (r: String)
    ensures
        r@ == error_id_spec(track_id@, file_name@),
{
    let s = String::from_str("error-");
    let s = s.concat(track_id);
    let s = s.concat("-");
    let s = s.concat(file_name);
    compute_mdhash_id(s.as_str(), "error-")
}

/// Identifier of a job: `"job-"` and the digest of `doc_id ":" created_epoch`.
pub open spec fn job_id_spec(doc_id: Seq<char>, created_epoch: int) -> Seq<char> {
    mdhash_id(doc_id + seq![':'] + signed_decimal(created_epoch), "job-"@)
}

pub fn job_id(doc_id: &str, created_epoch: i64) -> (r: String)
    ensures
        r@ == job_id_spec(doc_id@, created_epoch as int),
{
    proof {
        reveal_strlit(":");
    }
    let e = signed_decimal_string(created_epoch);
    let s = String::from_str(doc_id);
    let s = s.concat(":");
    let s = s.concat(e.as_str());
    assert(s@ =~= doc_id@ + seq![':'] + signed_decimal(created_epoch as int));
    compute_mdhash_id(s.as_str(), "job-")
}

} // verus!

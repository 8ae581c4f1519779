//! The SHA-256 checksum ledger: sidecar generation and validation.
//!
//! Every guarded file gets a sidecar named `<subject>.sha256` in the same
//! directory, holding one line `<64 lowercase hex chars><two spaces>
//! <subject filename><newline>`. Validation parses the line back, recomputes
//! the subject's digest and compares for exact equality — ordinary
//! comparison is acceptable, since the ledger protects integrity, not
//! secrecy.

use crate::text::{ends_with_str, eq_str, push_char};
use crate::VaultError;
use vstd::prelude::*;
use vstd::string::*;

verus! {

/// The SHA-256 digest (32 bytes) of a byte sequence.
pub uninterp spec fn sha256_of(data: Seq<u8>) -> Seq<u8>;

/// The lowercase hex digit for a value below 16.
pub open spec fn hex_digit(n: int) -> char {
    if n == 0 {
        '0'
    } else if n == 1 {
        '1'
    } else if n == 2 {
        '2'
    } else if n == 3 {
        '3'
    } else if n == 4 {
        '4'
    } else if n == 5 {
        '5'
    } else if n == 6 {
        '6'
    } else if n == 7 {
        '7'
    } else if n == 8 {
        '8'
    } else if n == 9 {
        '9'
    } else if n == 10 {
        'a'
    } else if n == 11 {
        'b'
    } else if n == 12 {
        'c'
    } else if n == 13 {
        'd'
    } else if n == 14 {
        'e'
    } else {
        'f'
    }
}

/// Lowercase hex of a byte sequence: two digits per byte, high nibble first.
pub open spec fn hex_of(bytes: Seq<u8>) -> Seq<char> {
    Seq::new(
        bytes.len() * 2,
        |i: int|
            if i % 2 == 0 {
                hex_digit(bytes[i / 2] as int / 16)
            } else {
                hex_digit(bytes[i / 2] as int % 16)
            },
    )
}

/// Relies on `data_encoding::HEXLOWER.encode`: two lowercase hex digits per
/// byte, high nibble first. The length bound keeps the input below the
/// limit past which the crate's `encode_len` documents a panic.
#[verifier::external_body]
fn hex_lower(bytes: &[u8]) -> (r: String)
    requires
        bytes@.len() <= usize::MAX / 512,
    ensures
        r@ == hex_of(bytes@),
{
    data_encoding::HEXLOWER.encode(bytes)
}

#[verifier::external_type_specification]
#[verifier::external_body]
pub struct ExDigestContext(ring::digest::Context);

/// The bytes fed to a digest context so far.
pub uninterp spec fn context_bytes(context: ring::digest::Context) -> Seq<u8>;

/// Relies on `ring::digest::Context::new` with the SHA-256 algorithm: a
/// fresh context over no input.
#[verifier::external_body]
fn digest_context_new() -> (c: ring::digest::Context)
    ensures
        context_bytes(c) == Seq::<u8>::empty(),
{
    ring::digest::Context::new(&ring::digest::SHA256)
}

/// Relies on `ring::digest::Context::update`: appends the chunk to the
/// digested input. The length bound keeps the total input below SHA-256's
/// message limit, so that finishing cannot fail.
#[verifier::external_body]
fn digest_context_update(c: &mut ring::digest::Context, chunk: &[u8])
    requires
        context_bytes(*old(c)).len() + chunk@.len() < 0x2000000000000000,
    ensures
        context_bytes(*final(c)) == context_bytes(*old(c)) + chunk@,
{
    c.update(chunk);
}

/// Relies on `ring::digest::Context::finish` and `Digest::as_ref`: the
/// 32-byte SHA-256 digest of everything fed to the context.
#[verifier::external_body]
fn digest_context_finish(c: ring::digest::Context) -> (digest: Vec<u8>)
    ensures
        digest@ == sha256_of(context_bytes(c)),
        digest@.len() == 32,
{
    c.finish().as_ref().to_vec()
}

/// An incremental SHA-256 computation, so that a caller can stream a file
/// through in fixed-size chunks without ever buffering it whole.
pub struct DigestStream {
    context: ring::digest::Context,
}

impl DigestStream {
    /// The bytes fed so far.
    pub closed spec fn bytes(&self) -> Seq<u8> {
        context_bytes(self.context)
    }

    /// A fresh stream over no input.
    pub fn new() -> (s: Self)
        ensures
            s.bytes() == Seq::<u8>::empty(),
    {
        DigestStream { context: digest_context_new() }
    }

    /// Feeds one chunk. The length bound keeps the total input below
    /// SHA-256's message limit.
    pub fn update(&mut self, chunk: &[u8])
        requires
            old(self).bytes().len() + chunk@.len() < 0x2000000000000000,
        ensures
            final(self).bytes() == old(self).bytes() + chunk@,
    {
        digest_context_update(&mut self.context, chunk);
    }

    /// The 32-byte SHA-256 digest of everything fed so far.
    pub fn finish(self) -> (digest: Vec<u8>)
        ensures
            digest@ == sha256_of(self.bytes()),
            digest@.len() == 32,
    {
        digest_context_finish(self.context)
    }
}

/// The lowercase hex SHA-256 digest of a whole in-memory buffer.
pub fn digest_hex(data: &[u8]) -> (r: String)
    requires
        data@.len() < 0x2000000000000000,
    ensures
        r@ == hex_of(sha256_of(data@)),
        sha256_of(data@).len() == 32,
{
    let mut stream = DigestStream::new();
    stream.update(data);
    let digest = stream.finish();
    proof {
        assert(Seq::<u8>::empty() + data@ =~= data@);
    }
    hex_lower(digest.as_slice())
}

/// The characters of the sidecar suffix.
pub open spec fn sidecar_suffix() -> Seq<char> {
    seq!['.', 's', 'h', 'a', '2', '5', '6']
}

/// The name of the sidecar that guards `filename`, next to it in the same
/// directory.
pub open spec fn sidecar_name_of(filename: Seq<char>) -> Seq<char> {
    filename + sidecar_suffix()
}

/// The sidecar path for a subject path.
pub fn sidecar_name(path: &str) -> (r: String)
    ensures
        r@ == sidecar_name_of(path@),
{
    let mut out = String::from_str(path);
    out.append(".sha256");
    proof {
        reveal_strlit(".sha256");
        assert(out@ =~= sidecar_name_of(path@));
    }
    out
}

/// Whether a filename is itself a checksum sidecar.
pub open spec fn is_sidecar_name(filename: Seq<char>) -> bool {
    filename.len() >= 7 && filename.subrange(filename.len() - 7, filename.len() as int)
        == sidecar_suffix()
}

/// Whether the path names a checksum sidecar.
pub fn is_sidecar(path: &str) -> (r: bool)
    ensures
        r == is_sidecar_name(path@),
{
    proof {
        reveal_strlit(".sha256");
        assert((".sha256")@ =~= sidecar_suffix());
    }
    ends_with_str(path, ".sha256")
}

/// The single line of a sidecar: digest, two spaces, subject filename,
/// newline.
pub open spec fn sidecar_line_of(digest: Seq<char>, filename: Seq<char>) -> Seq<char> {
    digest + seq![' ', ' '] + filename + seq!['\n']
}

/// Builds the sidecar line guarding `data` under the subject's `filename`.
pub fn generate_line(data: &[u8], filename: &str) -> (r: String)
    requires
        data@.len() < 0x2000000000000000,
    ensures
        r@ == sidecar_line_of(hex_of(sha256_of(data@)), filename@),
        sha256_of(data@).len() == 32,
{
    let mut out = digest_hex(data);
    push_char(&mut out, ' ');
    push_char(&mut out, ' ');
    out.append(filename);
    push_char(&mut out, '\n');
    proof {
        assert(out@ =~= sidecar_line_of(hex_of(sha256_of(data@)), filename@));
    }
    out
}

/// Builds the sidecar line for a streamed subject: the digest of everything
/// fed to the stream, under the subject's `filename`.
pub fn finish_line(stream: DigestStream, filename: &str) -> (r: String)
    ensures
        r@ == sidecar_line_of(hex_of(sha256_of(stream.bytes())), filename@),
{
    let digest = stream.finish();
    let mut out = hex_lower(digest.as_slice());
    push_char(&mut out, ' ');
    push_char(&mut out, ' ');
    out.append(filename);
    push_char(&mut out, '\n');
    proof {
        assert(out@ =~= sidecar_line_of(hex_of(sha256_of(stream.bytes())), filename@));
    }
    out
}

/// Whether `expected` is the lowercase hex digest of a streamed subject.
pub fn check_digest_stream(expected: &str, stream: DigestStream) -> (r: bool)
    ensures
        r == (expected@ == hex_of(sha256_of(stream.bytes()))),
{
    let digest = stream.finish();
    let actual = hex_lower(digest.as_slice());
    eq_str(expected, actual.as_str())
}

/// The position of the first two-space separator of `line`, if any.
pub open spec fn first_sep(line: Seq<char>) -> Option<int>
    decreases line.len(),
{
    if line.len() < 2 {
        None
    } else if line[0] == ' ' && line[1] == ' ' {
        Some(0)
    } else {
        match first_sep(line.drop_first()) {
            Some(i) => Some(i + 1),
            None => None,
        }
    }
}

/// `s` with one trailing newline dropped, if it ends in one.
pub open spec fn strip_newline(s: Seq<char>) -> Seq<char> {
    if s.len() > 0 && s[s.len() - 1] == '\n' {
        s.drop_last()
    } else {
        s
    }
}

/// The parsed (digest, filename) of a sidecar line: the text before the
/// first two-space separator, and the text after it with one trailing
/// newline dropped. A line without the separator does not parse.
pub open spec fn parsed_sidecar(line: Seq<char>) -> Option<(Seq<char>, Seq<char>)> {
    match first_sep(line) {
        Some(i) => Some(
            (line.subrange(0, i), strip_newline(line.subrange(i + 2, line.len() as int))),
        ),
        None => None,
    }
}

proof fn lemma_first_sep_at(line: Seq<char>, i: int)
    requires
        0 <= i,
        i + 2 <= line.len(),
        line[i] == ' ',
        line[i + 1] == ' ',
        forall|k: int| 0 <= k < i ==> !(#[trigger] line[k] == ' ' && line[k + 1] == ' '),
    ensures
        first_sep(line) == Some(i),
    decreases i,
{
    if i > 0 {
        lemma_first_sep_at(line.drop_first(), i - 1);
    }
}

proof fn lemma_first_sep_none(line: Seq<char>)
    requires
        forall|k: int| 0 <= k < line.len() - 1 ==> !(#[trigger] line[k] == ' ' && line[k + 1] == ' '),
    ensures
        first_sep(line) is None,
    decreases line.len(),
{
    if line.len() >= 2 {
        lemma_first_sep_none(line.drop_first());
    }
}

/// One record of the checksum ledger: a digest and the subject it guards.
pub struct ChecksumRecord {
    /// 64 lowercase hex characters, as read from the sidecar.
    pub digest: String,
    /// The subject's filename, resolved relative to the sidecar's directory.
    pub filename: String,
}

/// Parses a sidecar's single line into its digest and subject filename.
///
/// Fails with [`VaultError::FormatError`] exactly when the two-space
/// separator is missing.
pub fn parse_sidecar_line(line: &str) -> (r: Result<ChecksumRecord, VaultError>)
    ensures
        r is Ok <==> parsed_sidecar(line@) is Some,
        r matches Ok(rec) ==> parsed_sidecar(line@) == Some((rec.digest@, rec.filename@)),
        r matches Err(e) ==> e == VaultError::FormatError,
{
    let n = line.unicode_len();
    let mut i: usize = 0;
    while i < n && i + 1 < n
        invariant
            i <= n == line@.len(),
            forall|k: int| 0 <= k < i ==> !(#[trigger] line@[k] == ' ' && line@[k + 1] == ' '),
        decreases n - i,
    {
        if line.get_char(i) == ' ' && line.get_char(i + 1) == ' ' {
            let digest = String::from_str(line.substring_char(0, i));
            let rest_end: usize = if n > i + 2 && line.get_char(n - 1) == '\n' {
                n - 1
            } else {
                n
            };
            let filename = String::from_str(line.substring_char(i + 2, rest_end));
            proof {
                lemma_first_sep_at(line@, i as int);
                let rest = line@.subrange(i + 2, n as int);
                if n > i + 2 && line@[n - 1] == '\n' {
                    assert(rest[rest.len() - 1] == line@[n - 1]);
                    assert(rest.drop_last() =~= line@.subrange(i + 2, n - 1));
                } else {
                    if rest.len() > 0 {
                        assert(rest[rest.len() - 1] == line@[n - 1]);
                    }
                }
                assert(parsed_sidecar(line@) == Some((digest@, filename@)));
            }
            return Ok(ChecksumRecord { digest, filename });
        }
        i += 1;
    }
    proof {
        lemma_first_sep_none(line@);
    }
    Err(VaultError::FormatError)
}

/// Whether `expected` is the lowercase hex SHA-256 digest of `data`.
pub fn check_digest(expected: &str, data: &[u8]) -> (r: bool)
    requires
        data@.len() < 0x2000000000000000,
    ensures
        r == (expected@ == hex_of(sha256_of(data@))),
{
    let actual = digest_hex(data);
    eq_str(expected, actual.as_str())
}

/// No hex digit is a space, so a digest never hides a separator.
proof fn lemma_hex_no_space(bytes: Seq<u8>, k: int)
    requires
        0 <= k < hex_of(bytes).len(),
    ensures
        hex_of(bytes)[k] != ' ',
{
}

/// Two byte sequences with the same hex form are the same: the two digits
/// of each byte recover its nibbles.
proof fn lemma_hex_of_injective(a: Seq<u8>, b: Seq<u8>)
    requires
        hex_of(a) == hex_of(b),
    ensures
        a == b,
{
    assert(hex_of(a).len() == a.len() * 2);
    assert(hex_of(b).len() == b.len() * 2);
    assert(a.len() == b.len());
    assert forall|i: int| 0 <= i < a.len() implies a[i] == b[i] by {
        assert((2 * i) % 2 == 0 && (2 * i) / 2 == i);
        assert((2 * i + 1) % 2 == 1 && (2 * i + 1) / 2 == i);
        assert(hex_of(a)[2 * i] == hex_digit(a[i] as int / 16));
        assert(hex_of(b)[2 * i] == hex_digit(b[i] as int / 16));
        assert(hex_of(a)[2 * i + 1] == hex_digit(a[i] as int % 16));
        assert(hex_of(b)[2 * i + 1] == hex_digit(b[i] as int % 16));
        assert(hex_digit(a[i] as int / 16) == hex_digit(b[i] as int / 16));
        assert(hex_digit(a[i] as int % 16) == hex_digit(b[i] as int % 16));
        assert(a[i] as int / 16 == b[i] as int / 16);
        assert(a[i] as int % 16 == b[i] as int % 16);
    }
    assert(a =~= b);
}

/// The line generated for a digest parses back to that digest and subject,
/// as long as no character of the digest is a space.
proof fn lemma_generated_line_parses(digest: Seq<char>, filename: Seq<char>)
    requires
        forall|k: int| 0 <= k < digest.len() ==> #[trigger] digest[k] != ' ',
    ensures
        parsed_sidecar(sidecar_line_of(digest, filename)) == Some((digest, filename)),
{
    let n = digest.len() as int;
    let full = sidecar_line_of(digest, filename);
    assert forall|k: int| 0 <= k < n implies !(#[trigger] full[k] == ' ' && full[k + 1]
        == ' ') by {
        assert(full[k] == digest[k]);
    }
    assert(full[n] == ' ' && full[n + 1] == ' ');
    lemma_first_sep_at(full, n);
    assert(full.subrange(0, n) =~= digest);
    let rest = full.subrange(n + 2, full.len() as int);
    assert(rest =~= filename + seq!['\n']);
    assert(strip_newline(rest) =~= filename);
}

/// The ledger round-trip law: the sidecar line generated for a buffer
/// parses back to the digest and subject it was built from, and validating
/// that digest against the unchanged buffer succeeds.
pub fn sidecar_round_trip(data: &[u8], filename: &str) -> (ok: bool)
    requires
        data@.len() < 0x2000000000000000,
    ensures
        ok,
{
    let line = generate_line(data, filename);
    proof {
        let digest = hex_of(sha256_of(data@));
        assert forall|k: int| 0 <= k < digest.len() implies #[trigger] digest[k] != ' ' by {
            lemma_hex_no_space(sha256_of(data@), k);
        }
        lemma_generated_line_parses(digest, filename@);
    }
    match parse_sidecar_line(line.as_str()) {
        Ok(rec) => check_digest(rec.digest.as_str(), data),
        Err(_) => false,
    }
}

/// The ledger's change-detection law: the sidecar line generated for one
/// buffer validates against another exactly when the two contents' SHA-256
/// digests agree — and a disagreement is reported as a plain `false`, never
/// as an error. That distinct contents have distinct digests is SHA-256's
/// collision resistance, which is no statement of this library.
pub fn sidecar_detects_change(original: &[u8], changed: &[u8], filename: &str) -> (matched: bool)
    requires
        original@.len() < 0x2000000000000000,
        changed@.len() < 0x2000000000000000,
    ensures
        matched == (sha256_of(original@) == sha256_of(changed@)),
{
    let line = generate_line(original, filename);
    proof {
        let digest = hex_of(sha256_of(original@));
        assert forall|k: int| 0 <= k < digest.len() implies #[trigger] digest[k] != ' ' by {
            lemma_hex_no_space(sha256_of(original@), k);
        }
        lemma_generated_line_parses(digest, filename@);
    }
    match parse_sidecar_line(line.as_str()) {
        Ok(rec) => {
            let matched = check_digest(rec.digest.as_str(), changed);
            proof {
                if hex_of(sha256_of(original@)) == hex_of(sha256_of(changed@)) {
                    lemma_hex_of_injective(sha256_of(original@), sha256_of(changed@));
                }
            }
            matched
        },
        Err(_) => false,
    }
}

} // verus!
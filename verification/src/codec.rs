//! The filename ⇄ metadata codec.
//!
//! A document's metadata is carried entirely by its filename: the stem is
//! split on the `_` delimiter into up to four ordered fields — date,
//! institution, title and page — and each field is decoded independently.
//! Decoding never errors; every field is optional and default substitution is
//! left to the caller. Encoding rebuilds the canonical
//! `{date}_{institution}_{title}_{page}.{ext}` form. Encoding is idempotent
//! under re-decoding only when no field itself contains the `_` delimiter;
//! that lossy edge case is deliberate.

use crate::text::push_char;
use crate::VaultError;
use vstd::prelude::*;
use vstd::string::*;

verus! {

/// An ASCII decimal digit.
pub open spec fn is_digit_char(c: char) -> bool {
    '0' <= c <= '9'
}

/// Every character of `s` is an ASCII decimal digit.
pub open spec fn all_digits(s: Seq<char>) -> bool {
    forall|i: int| 0 <= i < s.len() ==> is_digit_char(#[trigger] s[i])
}

/// The date field matches a full ISO date with separators: `DDDD-DD-DD...`.
pub open spec fn matches_iso_date(s: Seq<char>) -> bool {
    &&& s.len() >= 10
    &&& all_digits(s.subrange(0, 4))
    &&& s[4] == '-'
    &&& all_digits(s.subrange(5, 7))
    &&& s[7] == '-'
    &&& all_digits(s.subrange(8, 10))
}

/// The date field matches a full date without separators: `DDDDDDDD...`.
pub open spec fn matches_plain_date(s: Seq<char>) -> bool {
    s.len() >= 8 && all_digits(s.subrange(0, 8))
}

/// The date field starts with a four-digit year.
pub open spec fn matches_year(s: Seq<char>) -> bool {
    s.len() >= 4 && all_digits(s.subrange(0, 4))
}

/// The decoded date, in ISO form, of a date field: the patterns are tried in
/// priority order — full date with separators, full date without separators,
/// year only (month and day default to `01`) — and the first match wins.
pub open spec fn date_of(s: Seq<char>) -> Option<Seq<char>> {
    if matches_iso_date(s) {
        Some(s.subrange(0, 10))
    } else if matches_plain_date(s) {
        Some(s.subrange(0, 4) + seq!['-'] + s.subrange(4, 6) + seq!['-'] + s.subrange(6, 8))
    } else if matches_year(s) {
        Some(s.subrange(0, 4) + seq!['-', '0', '1', '-', '0', '1'])
    } else {
        None
    }
}

/// Whether the characters of `s` at positions `from..to` are all digits.
fn digits_in_range(s: &str, from: usize, to: usize) -> (r: bool)
    requires
        from <= to <= s@.len(),
    ensures
        r == all_digits(s@.subrange(from as int, to as int)),
{
    let mut i: usize = from;
    while i < to
        invariant
            from <= i <= to <= s@.len(),
            forall|k: int| from <= k < i ==> is_digit_char(#[trigger] s@[k]),
        decreases to - i,
    {
        let c = s.get_char(i);
        if c < '0' || c > '9' {
            proof {
                assert(s@.subrange(from as int, to as int)[i - from] == s@[i as int]);
            }
            return false;
        }
        i += 1;
    }
    proof {
        assert forall|j: int| 0 <= j < to - from implies is_digit_char(
            #[trigger] s@.subrange(from as int, to as int)[j],
        ) by {
            assert(s@.subrange(from as int, to as int)[j] == s@[from + j]);
        }
    }
    true
}

/// Decodes the date field of a filename, returned in ISO `YYYY-MM-DD` form.
///
/// The patterns are tried in priority order: a full date with separators, a
/// full date without separators, a bare year (month and day default to `01`).
/// No match decodes to `None`; decoding never errors.
pub fn parse_date(text: &str) -> (r: Option<String>)
    ensures
        r is Some <==> date_of(text@) is Some,
        r matches Some(d) ==> date_of(text@) == Some(d@),
{
    let n = text.unicode_len();
    if n >= 10 && digits_in_range(text, 0, 4) && text.get_char(4) == '-' && digits_in_range(
        text,
        5,
        7,
    ) && text.get_char(7) == '-' && digits_in_range(text, 8, 10) {
        Some(String::from_str(text.substring_char(0, 10)))
    } else if n >= 8 && digits_in_range(text, 0, 8) {
        let mut out = String::from_str(text.substring_char(0, 4));
        push_char(&mut out, '-');
        out.append(text.substring_char(4, 6));
        push_char(&mut out, '-');
        out.append(text.substring_char(6, 8));
        proof {
            assert(out@ =~= date_of(text@)->Some_0);
        }
        Some(out)
    } else if n >= 4 && digits_in_range(text, 0, 4) {
        let mut out = String::from_str(text.substring_char(0, 4));
        out.append("-01-01");
        proof {
            reveal_strlit("-01-01");
            assert(("-01-01")@ =~= seq!['-', '0', '1', '-', '0', '1']);
            assert(out@ =~= date_of(text@)->Some_0);
        }
        Some(out)
    } else {
        None
    }
}

/// The run of digits at the front of `s`.
pub open spec fn digit_prefix(s: Seq<char>) -> Seq<char>
    decreases s.len(),
{
    if s.len() > 0 && is_digit_char(s[0]) {
        seq![s[0]] + digit_prefix(s.drop_first())
    } else {
        Seq::empty()
    }
}

/// The decoded page of a page field: the first contiguous run of ASCII
/// digits found anywhere in the field, or `None` if the field holds no digit.
pub open spec fn page_of(s: Seq<char>) -> Option<Seq<char>>
    decreases s.len(),
{
    if s.len() == 0 {
        None
    } else if is_digit_char(s[0]) {
        Some(digit_prefix(s))
    } else {
        page_of(s.drop_first())
    }
}

proof fn lemma_page_of_no_digit(s: Seq<char>)
    requires
        forall|k: int| 0 <= k < s.len() ==> !is_digit_char(#[trigger] s[k]),
    ensures
        page_of(s) is None,
    decreases s.len(),
{
    if s.len() > 0 {
        lemma_page_of_no_digit(s.drop_first());
    }
}

proof fn lemma_page_of_first_digit(s: Seq<char>, i: int)
    requires
        0 <= i < s.len(),
        is_digit_char(s[i]),
        forall|k: int| 0 <= k < i ==> !is_digit_char(#[trigger] s[k]),
    ensures
        page_of(s) == Some(digit_prefix(s.subrange(i, s.len() as int))),
    decreases i,
{
    if i == 0 {
        assert(s.subrange(0, s.len() as int) =~= s);
    } else {
        lemma_page_of_first_digit(s.drop_first(), i - 1);
        assert(s.drop_first().subrange(i - 1, s.drop_first().len() as int) =~= s.subrange(
            i,
            s.len() as int,
        ));
    }
}

proof fn lemma_digit_prefix_range(s: Seq<char>, j: int)
    requires
        0 <= j <= s.len(),
        forall|k: int| 0 <= k < j ==> is_digit_char(#[trigger] s[k]),
        j == s.len() || !is_digit_char(s[j]),
    ensures
        digit_prefix(s) == s.subrange(0, j),
    decreases s.len(),
{
    if j == 0 {
        assert(s.subrange(0, 0) =~= Seq::<char>::empty());
    } else {
        lemma_digit_prefix_range(s.drop_first(), j - 1);
        assert(s.drop_first().subrange(0, j - 1) =~= s.subrange(1, j));
        assert(seq![s[0]] + s.subrange(1, j) =~= s.subrange(0, j));
    }
}

/// The position of the first digit of `s`, if any.
fn first_digit_index(s: &str) -> (r: Option<usize>)
    ensures
        r matches Some(i) ==> i < s@.len() && is_digit_char(s@[i as int]) && (forall|k: int|
            0 <= k < i ==> !is_digit_char(#[trigger] s@[k])),
        r is None ==> forall|k: int| 0 <= k < s@.len() ==> !is_digit_char(#[trigger] s@[k]),
{
    let n = s.unicode_len();
    let mut i: usize = 0;
    while i < n
        invariant
            i <= n == s@.len(),
            forall|k: int| 0 <= k < i ==> !is_digit_char(#[trigger] s@[k]),
        decreases n - i,
    {
        let c = s.get_char(i);
        if c >= '0' && c <= '9' {
            return Some(i);
        }
        i += 1;
    }
    None
}

/// The position right after the digit run that starts at `start`.
fn digit_run_end(s: &str, start: usize) -> (j: usize)
    requires
        start <= s@.len(),
    ensures
        start <= j <= s@.len(),
        forall|k: int| start <= k < j ==> is_digit_char(#[trigger] s@[k]),
        j == s@.len() || !is_digit_char(s@[j as int]),
{
    let n = s.unicode_len();
    let mut j: usize = start;
    while j < n
        invariant
            start <= j <= n == s@.len(),
            forall|k: int| start <= k < j ==> is_digit_char(#[trigger] s@[k]),
        decreases n - j,
    {
        let c = s.get_char(j);
        if c < '0' || c > '9' {
            return j;
        }
        j += 1;
    }
    j
}

/// Decodes the page field of a filename: the first contiguous run of ASCII
/// digits found anywhere in the field (so a value like `pg20` yields `20`),
/// or `None` if the field holds no digit. Decoding never errors.
pub fn parse_page(text: &str) -> (r: Option<String>)
    ensures
        r is Some <==> page_of(text@) is Some,
        r matches Some(p) ==> page_of(text@) == Some(p@),
{
    match first_digit_index(text) {
        None => {
            proof {
                lemma_page_of_no_digit(text@);
            }
            None
        },
        Some(i) => {
            let j = digit_run_end(text, i);
            let sub = text.substring_char(i, j);
            proof {
                lemma_page_of_first_digit(text@, i as int);
                let tail = text@.subrange(i as int, text@.len() as int);
                lemma_digit_prefix_range(tail, j - i);
                assert(tail.subrange(0, j - i) =~= text@.subrange(i as int, j as int));
            }
            Some(String::from_str(sub))
        },
    }
}

/// `s` split on the separator `sep`: splitting the empty sequence gives one
/// empty field, and each occurrence of `sep` closes a field.
pub open spec fn split_on(s: Seq<char>, sep: char) -> Seq<Seq<char>>
    decreases s.len(),
{
    if s.len() == 0 {
        seq![Seq::<char>::empty()]
    } else if s[0] == sep {
        seq![Seq::<char>::empty()] + split_on(s.drop_first(), sep)
    } else {
        let rest = split_on(s.drop_first(), sep);
        seq![seq![s[0]] + rest[0]] + rest.drop_first()
    }
}

proof fn lemma_split_len(s: Seq<char>, sep: char)
    ensures
        split_on(s, sep).len() >= 1,
    decreases s.len(),
{
    if s.len() > 0 {
        lemma_split_len(s.drop_first(), sep);
    }
}

proof fn lemma_split_no_sep(s: Seq<char>, sep: char)
    requires
        forall|k: int| 0 <= k < s.len() ==> s[k] != sep,
    ensures
        split_on(s, sep) == seq![s],
    decreases s.len(),
{
    if s.len() == 0 {
        assert(seq![Seq::<char>::empty()] =~~= seq![s]);
    } else {
        lemma_split_no_sep(s.drop_first(), sep);
        assert(seq![s[0]] + s.drop_first() =~= s);
        assert(split_on(s, sep) =~~= seq![s]);
    }
}

proof fn lemma_split_first_sep(s: Seq<char>, sep: char, i: int)
    requires
        0 <= i < s.len(),
        s[i] == sep,
        forall|k: int| 0 <= k < i ==> s[k] != sep,
    ensures
        split_on(s, sep) == seq![s.subrange(0, i)] + split_on(s.subrange(i + 1, s.len() as int), sep),
    decreases i,
{
    if i == 0 {
        assert(s.subrange(0, 0) =~= Seq::<char>::empty());
        assert(s.drop_first() =~= s.subrange(1, s.len() as int));
        assert(split_on(s, sep) =~~= seq![s.subrange(0, 0)] + split_on(
            s.subrange(1, s.len() as int),
            sep,
        ));
    } else {
        let t = s.drop_first();
        lemma_split_first_sep(t, sep, i - 1);
        lemma_split_len(t.subrange(i, t.len() as int), sep);
        assert(t.subrange(0, i - 1) =~= s.subrange(1, i));
        assert(seq![s[0]] + s.subrange(1, i) =~= s.subrange(0, i));
        assert(t.subrange(i, t.len() as int) =~= s.subrange(i + 1, s.len() as int));
        assert(split_on(s, sep) =~~= seq![s.subrange(0, i)] + split_on(
            s.subrange(i + 1, s.len() as int),
            sep,
        ));
    }
}

/// Splits `s` on the `_` delimiter.
pub fn split_fields(s: &str) -> (r: Vec<String>)
    ensures
        r.deep_view() == split_on(s@, '_'),
        r.len() >= 1,
{
    let n = s.unicode_len();
    let mut fields: Vec<String> = Vec::new();
    let mut start: usize = 0;
    let mut i: usize = 0;
    proof {
        assert(s@.subrange(0, n as int) =~= s@);
    }
    while i < n
        invariant
            start <= i <= n == s@.len(),
            forall|k: int| start <= k < i ==> s@[k] != '_',
            split_on(s@, '_') =~~= fields.deep_view() + split_on(
                s@.subrange(start as int, n as int),
                '_',
            ),
        decreases n - i,
    {
        let c = s.get_char(i);
        if c == '_' {
            let piece = String::from_str(s.substring_char(start, i));
            let ghost old_fields = fields.deep_view();
            fields.push(piece);
            proof {
                let suffix = s@.subrange(start as int, n as int);
                assert(suffix[i - start] == s@[i as int]);
                assert forall|k: int| 0 <= k < i - start implies suffix[k] != '_' by {
                    assert(suffix[k] == s@[start + k]);
                }
                lemma_split_first_sep(suffix, '_', i - start);
                assert(suffix.subrange(0, i - start) =~= s@.subrange(start as int, i as int));
                assert(suffix.subrange(i - start + 1, suffix.len() as int) =~= s@.subrange(
                    i + 1,
                    n as int,
                ));
                assert(fields.deep_view() =~~= old_fields + seq![piece@]);
                assert(split_on(s@, '_') =~~= fields.deep_view() + split_on(
                    s@.subrange(i + 1, n as int),
                    '_',
                ));
            }
            start = i + 1;
        }
        i += 1;
    }
    let piece = String::from_str(s.substring_char(start, n));
    let ghost old_fields = fields.deep_view();
    fields.push(piece);
    proof {
        lemma_split_no_sep(s@.subrange(start as int, n as int), '_');
        assert(fields.deep_view() =~~= old_fields + seq![piece@]);
        assert(split_on(s@, '_') =~~= fields.deep_view());
    }
    fields
}

/// The position of the last `.` of `name`, if any.
pub open spec fn last_dot(name: Seq<char>) -> Option<int>
    decreases name.len(),
{
    if name.len() == 0 {
        None
    } else if name[name.len() - 1] == '.' {
        Some(name.len() - 1)
    } else {
        last_dot(name.drop_last())
    }
}

/// The stem of a filename: everything before the last `.`, except that a
/// name whose only `.` is its first character (a hidden file) is its own stem.
pub open spec fn stem_of(name: Seq<char>) -> Seq<char> {
    match last_dot(name) {
        Some(i) => if i > 0 {
            name.subrange(0, i)
        } else {
            name
        },
        None => name,
    }
}

/// The extension of a filename: everything after the last `.`, or empty.
pub open spec fn extension_of(name: Seq<char>) -> Seq<char> {
    match last_dot(name) {
        Some(i) => if i > 0 {
            name.subrange(i + 1, name.len() as int)
        } else {
            Seq::empty()
        },
        None => Seq::empty(),
    }
}

proof fn lemma_last_dot_at(name: Seq<char>, i: int)
    requires
        0 <= i < name.len(),
        name[i] == '.',
        forall|k: int| i < k < name.len() ==> name[k] != '.',
    ensures
        last_dot(name) == Some(i),
    decreases name.len(),
{
    if i < name.len() - 1 {
        lemma_last_dot_at(name.drop_last(), i);
    }
}

proof fn lemma_last_dot_none(name: Seq<char>)
    requires
        forall|k: int| 0 <= k < name.len() ==> name[k] != '.',
    ensures
        last_dot(name) is None,
    decreases name.len(),
{
    if name.len() > 0 {
        lemma_last_dot_none(name.drop_last());
    }
}

/// The position of the last `.` of `s`, if any.
fn find_last_dot(s: &str) -> (r: Option<usize>)
    ensures
        r matches Some(i) ==> i < s@.len() && last_dot(s@) == Some(i as int),
        r is None ==> last_dot(s@) is None,
{
    let n = s.unicode_len();
    let mut j: usize = n;
    while j > 0
        invariant
            j <= n == s@.len(),
            forall|k: int| j <= k < n ==> s@[k] != '.',
        decreases j,
    {
        j -= 1;
        if s.get_char(j) == '.' {
            proof {
                lemma_last_dot_at(s@, j as int);
            }
            return Some(j);
        }
    }
    proof {
        lemma_last_dot_none(s@);
    }
    None
}

/// The ordered fields encoded in a filename: its stem split on `_`.
pub open spec fn decoded_fields(filename: Seq<char>) -> Seq<Seq<char>> {
    split_on(stem_of(filename), '_')
}

/// The decoded date of a filename, if field 0 exists and holds one.
pub open spec fn decoded_date(filename: Seq<char>) -> Option<Seq<char>> {
    if decoded_fields(filename).len() > 0 {
        date_of(decoded_fields(filename)[0])
    } else {
        None
    }
}

/// The decoded institution of a filename: field 1, raw, if it exists.
pub open spec fn decoded_institution(filename: Seq<char>) -> Option<Seq<char>> {
    if decoded_fields(filename).len() > 1 {
        Some(decoded_fields(filename)[1])
    } else {
        None
    }
}

/// The decoded title of a filename: field 2, raw, if it exists.
pub open spec fn decoded_title(filename: Seq<char>) -> Option<Seq<char>> {
    if decoded_fields(filename).len() > 2 {
        Some(decoded_fields(filename)[2])
    } else {
        None
    }
}

/// The decoded page of a filename, if field 3 exists and holds a digit.
pub open spec fn decoded_page(filename: Seq<char>) -> Option<Seq<char>> {
    if decoded_fields(filename).len() > 3 {
        page_of(decoded_fields(filename)[3])
    } else {
        None
    }
}

/// A document's metadata as decoded from a filename: every field is
/// independently optional, and substituting defaults is the caller's duty.
pub struct OptDoc {
    /// The decoded date in ISO form.
    pub date: Option<String>,
    /// The issuing institution, raw.
    pub institution: Option<String>,
    /// The document title, raw.
    pub name: Option<String>,
    /// The page number: a run of decimal digits.
    pub page: Option<String>,
}

/// Decodes a filename into document metadata.
///
/// The filename's stem is split on the `_` delimiter into up to four ordered
/// fields: date, institution, title and page. Decoding is best-effort and
/// never errors; each absent or unreadable field decodes to `None`.
pub fn to_document(filename: &str) -> (r: OptDoc)
    ensures
        r.date.deep_view() == decoded_date(filename@),
        r.institution.deep_view() == decoded_institution(filename@),
        r.name.deep_view() == decoded_title(filename@),
        r.page.deep_view() == decoded_page(filename@),
{
    let stem: &str = match find_last_dot(filename) {
        Some(i) => if i > 0 {
            filename.substring_char(0, i)
        } else {
            filename
        },
        None => filename,
    };
    proof {
        assert(stem@ == stem_of(filename@));
    }
    let fields = split_fields(stem);
    let date = parse_date(fields[0].as_str());
    let institution = if fields.len() > 1 {
        Some(fields[1].clone())
    } else {
        None
    };
    let name = if fields.len() > 2 {
        Some(fields[2].clone())
    } else {
        None
    };
    let page = if fields.len() > 3 {
        parse_page(fields[3].as_str())
    } else {
        None
    };
    OptDoc { date, institution, name, page }
}

/// Lower-casing of one ASCII letter; any other character is unchanged.
pub open spec fn lower_char(c: char) -> char {
    match c {
        'A' => 'a',
        'B' => 'b',
        'C' => 'c',
        'D' => 'd',
        'E' => 'e',
        'F' => 'f',
        'G' => 'g',
        'H' => 'h',
        'I' => 'i',
        'J' => 'j',
        'K' => 'k',
        'L' => 'l',
        'M' => 'm',
        'N' => 'n',
        'O' => 'o',
        'P' => 'p',
        'Q' => 'q',
        'R' => 'r',
        'S' => 's',
        'T' => 't',
        'U' => 'u',
        'V' => 'v',
        'W' => 'w',
        'X' => 'x',
        'Y' => 'y',
        'Z' => 'z',
        _ => c,
    }
}

/// `s` with every ASCII letter lower-cased.
pub open spec fn lower_chars(s: Seq<char>) -> Seq<char> {
    Seq::new(s.len(), |i: int| lower_char(s[i]))
}

fn to_lower_char(c: char) -> (r: char)
    ensures
        r == lower_char(c),
{
    match c {
        'A' => 'a',
        'B' => 'b',
        'C' => 'c',
        'D' => 'd',
        'E' => 'e',
        'F' => 'f',
        'G' => 'g',
        'H' => 'h',
        'I' => 'i',
        'J' => 'j',
        'K' => 'k',
        'L' => 'l',
        'M' => 'm',
        'N' => 'n',
        'O' => 'o',
        'P' => 'p',
        'Q' => 'q',
        'R' => 'r',
        'S' => 's',
        'T' => 't',
        'U' => 'u',
        'V' => 'v',
        'W' => 'w',
        'X' => 'x',
        'Y' => 'y',
        'Z' => 'z',
        _ => c,
    }
}

/// `s` with every ASCII letter lower-cased.
pub fn to_lower(s: &str) -> (r: String)
    ensures
        r@ == lower_chars(s@),
{
    let n = s.unicode_len();
    let mut out = String::new();
    let mut i: usize = 0;
    while i < n
        invariant
            i <= n == s@.len(),
            out@.len() == i,
            forall|k: int| 0 <= k < i ==> out@[k] == lower_char(#[trigger] s@[k]),
        decreases n - i,
    {
        let c = s.get_char(i);
        push_char(&mut out, to_lower_char(c));
        i += 1;
    }
    proof {
        assert(out@ =~= lower_chars(s@));
    }
    out
}

/// The canonical filename for the given metadata:
/// `{date}_{institution}_{title}_{page}.{ext}` with the extension
/// lower-cased; a document without an extension gets no trailing `.`.
pub open spec fn encoded_name(
    date: Seq<char>,
    institution: Seq<char>,
    title: Seq<char>,
    page: Seq<char>,
    extension: Seq<char>,
) -> Seq<char> {
    let base = date + seq!['_'] + institution + seq!['_'] + title + seq!['_'] + page;
    if extension.len() == 0 {
        base
    } else {
        base + seq!['.'] + lower_chars(extension)
    }
}

/// Encodes document metadata into the canonical filename.
pub fn encode_filename(
    date: &str,
    institution: &str,
    title: &str,
    page: &str,
    extension: &str,
) -> (r: String)
    ensures
        r@ == encoded_name(date@, institution@, title@, page@, extension@),
{
    let mut out = String::from_str(date);
    push_char(&mut out, '_');
    out.append(institution);
    push_char(&mut out, '_');
    out.append(title);
    push_char(&mut out, '_');
    out.append(page);
    if extension.unicode_len() > 0 {
        push_char(&mut out, '.');
        let lowered = to_lower(extension);
        out.append(lowered.as_str());
    }
    proof {
        assert(out@ =~= encoded_name(date@, institution@, title@, page@, extension@));
    }
    out
}

/// Encoding is idempotent under re-decoding: a canonical name built from
/// delimiter-free fields decodes back to exactly the fields it was built
/// from. A field holding the `_` delimiter shifts the split — the known
/// lossy edge case, deliberately left in place — and the cut at the last
/// `.` asks that the extension be present and `.`-free.
pub proof fn lemma_encode_decode_round_trip(
    date: Seq<char>,
    institution: Seq<char>,
    title: Seq<char>,
    page: Seq<char>,
    extension: Seq<char>,
)
    requires
        matches_iso_date(date),
        date.len() == 10,
        forall|k: int| 0 <= k < institution.len() ==> #[trigger] institution[k] != '_',
        forall|k: int| 0 <= k < title.len() ==> #[trigger] title[k] != '_',
        page.len() > 0,
        all_digits(page),
        extension.len() > 0,
        forall|k: int| 0 <= k < extension.len() ==> #[trigger] extension[k] != '.',
    ensures
        decoded_date(encoded_name(date, institution, title, page, extension)) == Some(date),
        decoded_institution(encoded_name(date, institution, title, page, extension)) == Some(
            institution,
        ),
        decoded_title(encoded_name(date, institution, title, page, extension)) == Some(title),
        decoded_page(encoded_name(date, institution, title, page, extension)) == Some(page),
{
    let base = date + seq!['_'] + institution + seq!['_'] + title + seq!['_'] + page;
    let lext = lower_chars(extension);
    let name = encoded_name(date, institution, title, page, extension);
    assert(name =~= base + seq!['.'] + lext);

    // The one dot we appended is the last dot, so the stem is `base`.
    assert forall|k: int| base.len() < k < name.len() implies name[k] != '.' by {
        let c = extension[k - base.len() - 1];
        assert(name[k] == lower_char(c));
    }
    assert(name[base.len() as int] == '.');
    lemma_last_dot_at(name, base.len() as int);
    assert(stem_of(name) =~= base);

    // No character of an ISO date, nor of a digit run, is the delimiter.
    assert forall|k: int| 0 <= k < 10 implies date[k] != '_' by {
        if k < 4 {
            assert(is_digit_char(date.subrange(0, 4)[k]));
        } else if 5 <= k < 7 {
            assert(is_digit_char(date.subrange(5, 7)[k - 5]));
        } else if 8 <= k < 10 {
            assert(is_digit_char(date.subrange(8, 10)[k - 8]));
        }
    }

    // Peel the three delimiters off, field by field.
    assert(base[10] == '_');
    assert forall|k: int| 0 <= k < 10 implies base[k] != '_' by {
        assert(base[k] == date[k]);
    }
    lemma_split_first_sep(base, '_', 10);
    assert(base.subrange(0, 10) =~= date);
    let rest1 = base.subrange(11, base.len() as int);
    assert(rest1 =~= institution + seq!['_'] + title + seq!['_'] + page);

    let n1 = institution.len() as int;
    assert(rest1[n1] == '_');
    assert forall|k: int| 0 <= k < n1 implies rest1[k] != '_' by {
        assert(rest1[k] == institution[k]);
    }
    lemma_split_first_sep(rest1, '_', n1);
    assert(rest1.subrange(0, n1) =~= institution);
    let rest2 = rest1.subrange(n1 + 1, rest1.len() as int);
    assert(rest2 =~= title + seq!['_'] + page);

    let n2 = title.len() as int;
    assert(rest2[n2] == '_');
    assert forall|k: int| 0 <= k < n2 implies rest2[k] != '_' by {
        assert(rest2[k] == title[k]);
    }
    lemma_split_first_sep(rest2, '_', n2);
    assert(rest2.subrange(0, n2) =~= title);
    let rest3 = rest2.subrange(n2 + 1, rest2.len() as int);
    assert(rest3 =~= page);

    assert forall|k: int| 0 <= k < page.len() implies page[k] != '_' by {
        assert(is_digit_char(page[k]));
    }
    lemma_split_no_sep(page, '_');

    let fields = decoded_fields(name);
    assert(fields =~~= seq![date, institution, title, page]);
    assert(fields.len() == 4);

    // Field 0 re-decodes to the date it encodes.
    assert(date_of(date) == Some(date.subrange(0, 10)));
    assert(date.subrange(0, 10) =~= date);

    // Field 3 re-decodes to the page it encodes.
    assert(is_digit_char(page[0]));
    lemma_digit_prefix_range(page, page.len() as int);
    assert(page.subrange(0, page.len() as int) =~= page);
}

/// A filename is normalized when it already decodes to a complete set of
/// metadata fields: date, institution, title and page are all present.
pub open spec fn normalized(filename: Seq<char>) -> bool {
    &&& decoded_date(filename) is Some
    &&& decoded_institution(filename) is Some
    &&& decoded_title(filename) is Some
    &&& decoded_page(filename) is Some
}

/// Whether a filename already carries a complete set of metadata fields.
pub fn is_normalized(filename: &str) -> (r: bool)
    ensures
        r == normalized(filename@),
{
    let doc = to_document(filename);
    doc.date.is_some() && doc.institution.is_some() && doc.name.is_some() && doc.page.is_some()
}

/// A view selector over documents, by normalization state.
#[derive(Clone, Copy, Debug, PartialEq, Eq, Structural)]
pub enum Filter {
    All,
    Normalized,
    Unnormalized,
}

impl Default for Filter {
    fn default() -> (r: Self)
        ensures
            r == Filter::All,
    {
        Filter::All
    }
}

impl Filter {
    /// Which filenames the filter keeps.
    pub open spec fn selects_spec(&self, filename: Seq<char>) -> bool {
        match self {
            Filter::All => true,
            Filter::Normalized => normalized(filename),
            Filter::Unnormalized => !normalized(filename),
        }
    }

    /// Whether the document with the given filename passes the filter.
    pub fn selects(&self, filename: &str) -> (r: bool)
        ensures
            r == self.selects_spec(filename@),
    {
        match self {
            Filter::All => true,
            Filter::Normalized => is_normalized(filename),
            Filter::Unnormalized => !is_normalized(filename),
        }
    }
}

/// The canonical name a file should be renamed to, or `None` when the
/// filename does not decode to the required date, institution and title.
/// A missing page defaults to `1`; the extension is kept, lower-cased.
pub open spec fn normalize_result(name: Seq<char>) -> Option<Seq<char>> {
    if decoded_date(name) is Some && decoded_institution(name) is Some && decoded_title(name)
        is Some {
        Some(
            encoded_name(
                decoded_date(name)->Some_0,
                decoded_institution(name)->Some_0,
                decoded_title(name)->Some_0,
                if decoded_page(name) is Some {
                    decoded_page(name)->Some_0
                } else {
                    seq!['1']
                },
                extension_of(name),
            ),
        )
    } else {
        None
    }
}

/// The extension of a filename, or the empty string.
fn extension_part<'a>(filename: &'a str) -> (r: &'a str)
    ensures
        r@ == extension_of(filename@),
{
    let empty: &str = "";
    proof {
        reveal_strlit("");
        assert(empty@ =~= Seq::<char>::empty());
    }
    let n = filename.unicode_len();
    match find_last_dot(filename) {
        Some(i) => {
            if i > 0 {
                filename.substring_char(i + 1, n)
            } else {
                empty
            }
        },
        None => empty,
    }
}

/// Computes the canonical filename a file should be renamed to.
///
/// Date, institution and title are required; a filename that does not decode
/// to all three is rejected with [`VaultError::FormatError`]. A missing page
/// defaults to `1`, and the extension is kept, lower-cased.
pub fn normalize_name(filename: &str) -> (r: Result<String, VaultError>)
    ensures
        r is Ok <==> normalize_result(filename@) is Some,
        r matches Ok(n) ==> normalize_result(filename@) == Some(n@),
        r matches Err(e) ==> e == VaultError::FormatError,
{
    let doc = to_document(filename);
    match (doc.date, doc.institution, doc.name) {
        (Some(date), Some(institution), Some(title)) => {
            let page = match doc.page {
                Some(p) => p,
                None => {
                    let one = String::from_str("1");
                    proof {
                        reveal_strlit("1");
                        assert(one@ =~= seq!['1']);
                    }
                    one
                },
            };
            let ext = extension_part(filename);
            Ok(
                encode_filename(
                    date.as_str(),
                    institution.as_str(),
                    title.as_str(),
                    page.as_str(),
                    ext,
                ),
            )
        },
        _ => Err(VaultError::FormatError),
    }
}

/// Whether a directory entry is a document the vault manages: its
/// extension, lower-cased, is `pdf`, `jpg`, `png` or `cocoon`.
pub open spec fn is_document_name(name: Seq<char>) -> bool {
    let e = lower_chars(extension_of(name));
    ||| e == seq!['p', 'd', 'f']
    ||| e == seq!['j', 'p', 'g']
    ||| e == seq!['p', 'n', 'g']
    ||| e == seq!['c', 'o', 'c', 'o', 'o', 'n']
}

/// Whether a directory entry is a document the vault manages.
pub fn is_document_file(name: &str) -> (r: bool)
    ensures
        r == is_document_name(name@),
{
    let ext = extension_part(name);
    let lowered = to_lower(ext);
    proof {
        reveal_strlit("pdf");
        reveal_strlit("jpg");
        reveal_strlit("png");
        reveal_strlit("cocoon");
        assert(("pdf")@ =~= seq!['p', 'd', 'f']);
        assert(("jpg")@ =~= seq!['j', 'p', 'g']);
        assert(("png")@ =~= seq!['p', 'n', 'g']);
        assert(("cocoon")@ =~= seq!['c', 'o', 'c', 'o', 'o', 'n']);
    }
    crate::text::eq_str(lowered.as_str(), "pdf") || crate::text::eq_str(lowered.as_str(), "jpg")
        || crate::text::eq_str(lowered.as_str(), "png") || crate::text::eq_str(
        lowered.as_str(),
        "cocoon",
    )
}

/// Keeps, in listing order, the entries of a directory listing that the
/// vault manages.
pub fn filter_document_files(names: &Vec<String>) -> (r: Vec<String>)
    ensures
        r.deep_view() == names.deep_view().filter(|n: Seq<char>| is_document_name(n)),
{
    let ghost keep = |n: Seq<char>| is_document_name(n);
    let mut kept: Vec<String> = Vec::new();
    let mut i: usize = 0;
    proof {
        reveal(Seq::filter);
        assert(names.deep_view().subrange(0, 0) =~= Seq::<Seq<char>>::empty());
    }
    while i < names.len()
        invariant
            i <= names.len(),
            kept.deep_view() == names.deep_view().subrange(0, i as int).filter(keep),
            keep == (|n: Seq<char>| is_document_name(n)),
        decreases names.len() - i,
    {
        let n = &names[i];
        let ghost dv = names.deep_view();
        let ghost pref = dv.subrange(0, i as int);
        let ghost old_kept = kept.deep_view();
        if is_document_file(n.as_str()) {
            kept.push(n.clone());
        }
        proof {
            reveal(Seq::filter);
            assert(dv.subrange(0, i + 1) =~= pref.push(dv[i as int]));
            assert(pref.push(dv[i as int]).drop_last() =~= pref);
            assert(dv[i as int] == n@);
            if keep(n@) {
                assert(kept.deep_view() =~~= old_kept.push(n@));
            }
        }
        i += 1;
    }
    proof {
        assert(names.deep_view().subrange(0, names.len() as int) =~= names.deep_view());
    }
    kept
}

} // verus!

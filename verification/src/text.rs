//! Verified text helpers: decimal rendering, derived display names, error
//! message sanitisation and the security error taxonomy.

use vstd::prelude::*;
use vstd::string::StringExecFns;
use vstd::string::StrSliceExecFns;

verus! {

// ---------------------------------------------------------------------------
// Decimal rendering of unsigned integers.
// ---------------------------------------------------------------------------

pub open spec fn dec_digit(d: nat) -> char {
    if d == 0 { '0' }
    else if d == 1 { '1' }
    else if d == 2 { '2' }
    else if d == 3 { '3' }
    else if d == 4 { '4' }
    else if d == 5 { '5' }
    else if d == 6 { '6' }
    else if d == 7 { '7' }
    else if d == 8 { '8' }
    else { '9' }
}

/// The usual decimal rendering, most significant digit first, no leading
/// zeros (except for zero itself).
pub open spec fn spec_dec(n: nat) -> Seq<char>
    decreases n,
{
    if n < 10 {
        seq![dec_digit(n)]
    } else {
        spec_dec(n / 10).push(dec_digit(n % 10))
    }
}

/// Digits given least significant first, rendered most significant first.
spec fn rev_chars(ds: Seq<u64>) -> Seq<char>
    decreases ds.len(),
{
    if ds.len() == 0 {
        Seq::empty()
    } else {
        rev_chars(ds.drop_first()) + seq![dec_digit((ds.first() % 10) as nat)]
    }
}

proof fn lemma_rev_chars_push(ds: Seq<u64>, d: u64)
    ensures
        rev_chars(ds.push(d)) == seq![dec_digit((d % 10) as nat)] + rev_chars(ds),
    decreases ds.len(),
{
    assert(ds.push(d).first() == if ds.len() == 0 { d } else { ds.first() });
    if ds.len() == 0 {
        assert(ds.push(d).drop_first() =~= Seq::<u64>::empty());
        assert(rev_chars(ds.push(d)) == rev_chars(ds.push(d).drop_first()) + seq![
            dec_digit((ds.push(d).first() % 10) as nat),
        ]);
        assert(rev_chars(Seq::<u64>::empty()) =~= Seq::<char>::empty());
        assert(rev_chars(ds.push(d)) =~= seq![dec_digit((d % 10) as nat)] + rev_chars(ds));
    } else {
        assert(ds.push(d).drop_first() =~= ds.drop_first().push(d));
        lemma_rev_chars_push(ds.drop_first(), d);
        assert(rev_chars(ds.push(d)) =~= seq![dec_digit((d % 10) as nat)] + rev_chars(ds));
    }
}

fn digit_str(d: u64) -> (r: &'static str)
    requires
        d < 10,
    ensures
        r@ =~= seq![dec_digit(d as nat)],
{
    proof {
        reveal_strlit("0");
        reveal_strlit("1");
        reveal_strlit("2");
        reveal_strlit("3");
        reveal_strlit("4");
        reveal_strlit("5");
        reveal_strlit("6");
        reveal_strlit("7");
        reveal_strlit("8");
        reveal_strlit("9");
    }
    if d == 0 { "0" }
    else if d == 1 { "1" }
    else if d == 2 { "2" }
    else if d == 3 { "3" }
    else if d == 4 { "4" }
    else if d == 5 { "5" }
    else if d == 6 { "6" }
    else if d == 7 { "7" }
    else if d == 8 { "8" }
    else { "9" }
}

/// Renders an unsigned integer in decimal.
pub fn u64_to_dec(n: u64) -> (r: String)
    ensures
        r@ == spec_dec(n as nat),
{
    let mut digits: Vec<u64> = Vec::new();
    let first: u64 = n % 10;
    digits.push(first);
    let mut m: u64 = n / 10;
    proof {
        assert(digits@ =~= Seq::<u64>::empty().push(first));
        lemma_rev_chars_push(Seq::<u64>::empty(), first);
        assert(rev_chars(digits@) =~= seq![dec_digit((n % 10) as nat)]);
    }
    while m > 0
        invariant
            forall|j: int| 0 <= j < digits@.len() ==> digits@[j] < 10,
            digits@.len() >= 1,
            if m == 0 {
                spec_dec(n as nat) == rev_chars(digits@)
            } else {
                spec_dec(n as nat) == spec_dec(m as nat) + rev_chars(digits@)
            },
        decreases m,
    {
        let d: u64 = m % 10;
        let ghost old_digits = digits@;
        digits.push(d);
        let ghost old_m = m;
        m = m / 10;
        proof {
            lemma_rev_chars_push(old_digits, d);
            if m == 0 {
                assert(spec_dec(old_m as nat) == seq![dec_digit((old_m % 10) as nat)]);
                assert(spec_dec(n as nat) =~= rev_chars(digits@));
            } else {
                assert(spec_dec(old_m as nat) == spec_dec(
                    (old_m / 10) as nat,
                ).push(dec_digit((old_m % 10) as nat)));
                assert(spec_dec((old_m / 10) as nat).push(dec_digit((old_m % 10) as nat))
                    =~= spec_dec((old_m / 10) as nat) + seq![dec_digit((old_m % 10) as nat)]);
                assert(spec_dec(n as nat) =~= spec_dec(m as nat) + rev_chars(digits@));
            }
        }
    }
    let mut s: String = String::new();
    let mut i: usize = digits.len();
    proof {
        assert(digits@.skip(i as int) =~= Seq::<u64>::empty());
    }
    while i > 0
        invariant
            i <= digits@.len(),
            forall|j: int| 0 <= j < digits@.len() ==> digits@[j] < 10,
            spec_dec(n as nat) == rev_chars(digits@),
            s@ == rev_chars(digits@.skip(i as int)),
        decreases i,
    {
        i = i - 1;
        let d: u64 = digits[i];
        let piece = digit_str(d);
        proof {
            assert(digits@.skip(i as int).first() == digits@[i as int]);
            assert(digits@.skip(i as int).drop_first() =~= digits@.skip(i as int + 1));
            assert(rev_chars(digits@.skip(i as int)) == rev_chars(digits@.skip(i as int + 1))
                + seq![dec_digit((digits@[i as int] % 10) as nat)]);
            assert(d % 10 == d);
        }
        s.append(piece);
    }
    proof {
        assert(digits@.skip(0) =~= digits@);
    }
    s
}

// ---------------------------------------------------------------------------
// Derived display names.
// ---------------------------------------------------------------------------

/// `base[j]`, the display name of one element of an array-typed channel.
pub open spec fn spec_indexed_name(base: Seq<char>, j: nat) -> Seq<char> {
    base + "["@ + spec_dec(j) + "]"@
}

pub fn indexed_name(base: &String, j: u64) -> (r: String)
    ensures
        r@ == spec_indexed_name(base@, j as nat),
{
    let num = u64_to_dec(j);
    let r = base.clone().concat("[").concat(num.as_str()).concat("]");
    r
}

/// The closed 4-way mapping from the header's verbosity level byte to its
/// display name; values outside 1..=3 are not an error.
pub open spec fn spec_level_name(level: u8) -> Seq<char> {
    if level == 1 { "Simple"@ }
    else if level == 2 { "Normal"@ }
    else if level == 3 { "Detailed"@ }
    else { "Unknown"@ }
}

pub fn level_name_of(level: u8) -> (r: String)
    ensures
        r@ == spec_level_name(level),
{
    if level == 1 { String::from_str("Simple") }
    else if level == 2 { String::from_str("Normal") }
    else if level == 3 { String::from_str("Detailed") }
    else { String::from_str("Unknown") }
}

/// The type-code mapping of the schema: 0 is float, 1 is int, 2 is string,
/// anything else is stored as "unknown".
pub open spec fn spec_type_name(code: u8) -> Seq<char> {
    if code == 0 { "float"@ }
    else if code == 1 { "int"@ }
    else if code == 2 { "string"@ }
    else { "unknown"@ }
}

pub fn type_name_of(code: u8) -> (r: String)
    ensures
        r@ == spec_type_name(code),
{
    if code == 0 { String::from_str("float") }
    else if code == 1 { String::from_str("int") }
    else if code == 2 { String::from_str("string") }
    else { String::from_str("unknown") }
}

// ---------------------------------------------------------------------------
// Error message sanitisation.
// ---------------------------------------------------------------------------

pub open spec fn is_path_sep(c: char) -> bool {
    c == '/' || c == '\\'
}

/// The suffix after the last path separator (the whole string if none).
pub open spec fn tail_segment(s: Seq<char>) -> Seq<char>
    decreases s.len(),
{
    if s.len() == 0 {
        Seq::empty()
    } else if is_path_sep(s[s.len() - 1]) {
        Seq::empty()
    } else {
        tail_segment(s.drop_last()).push(s[s.len() - 1])
    }
}

/// The UTF-8 encoded length of one character: one byte below U+0080, two
/// below U+0800, three below U+10000, four beyond (surrogates are not
/// `char`s).
pub open spec fn spec_utf8_len(c: char) -> int {
    if (c as u32) < 0x80 {
        1
    } else if (c as u32) < 0x800 {
        2
    } else if (c as u32) < 0x10000 {
        3
    } else {
        4
    }
}

/// The UTF-8 encoded length of a character sequence.
pub open spec fn spec_utf8_bytes(s: Seq<char>) -> int
    decreases s.len(),
{
    if s.len() == 0 {
        0
    } else {
        spec_utf8_bytes(s.drop_last()) + spec_utf8_len(s.last())
    }
}

/// The longest prefix whose UTF-8 encoding fits in `budget` bytes.
pub open spec fn spec_take_bytes(s: Seq<char>, budget: int) -> Seq<char>
    decreases s.len(),
{
    if s.len() == 0 {
        Seq::empty()
    } else if spec_utf8_len(s.first()) > budget {
        Seq::empty()
    } else {
        seq![s.first()] + spec_take_bytes(s.drop_first(), budget - spec_utf8_len(s.first()))
    }
}

/// What sanitisation produces: the path is reduced to its final segment, and
/// a segment whose UTF-8 encoding exceeds 200 bytes is cut at the last
/// character boundary at or below 200 bytes, with an ellipsis appended.
pub open spec fn spec_sanitize(s: Seq<char>) -> Seq<char> {
    let t = tail_segment(s);
    if spec_utf8_bytes(t) > 200 {
        spec_take_bytes(t, 200) + "..."@
    } else {
        t
    }
}

/// A prefix's encoding never exceeds the whole sequence's, and leaves room
/// for at least the next character.
proof fn lemma_utf8_bytes_prefix(s: Seq<char>, m: int)
    requires
        0 <= m <= s.len(),
    ensures
        spec_utf8_bytes(s.take(m)) <= spec_utf8_bytes(s),
        m < s.len() ==> spec_utf8_bytes(s.take(m)) + spec_utf8_len(s[m]) <= spec_utf8_bytes(s),
    decreases s.len(),
{
    if m == s.len() {
        assert(s.take(m) =~= s);
    } else if m == s.len() - 1 {
        assert(s.take(m) =~= s.drop_last());
    } else {
        lemma_utf8_bytes_prefix(s.drop_last(), m);
        assert(s.drop_last().take(m) =~= s.take(m));
        assert(s.drop_last()[m] == s[m]);
    }
}

proof fn lemma_tail_segment(s: Seq<char>, k: int)
    requires
        -1 <= k < s.len(),
        k >= 0 ==> is_path_sep(s[k]),
        forall|j: int| k < j < s.len() ==> !is_path_sep(s[j]),
    ensures
        tail_segment(s) == s.subrange(k + 1, s.len() as int),
    decreases s.len(),
{
    if s.len() == 0 {
        assert(tail_segment(s) =~= s.subrange(k + 1, s.len() as int));
    } else if k == s.len() - 1 {
        assert(tail_segment(s) =~= s.subrange(k + 1, s.len() as int));
    } else {
        lemma_tail_segment(s.drop_last(), k);
        assert(s.drop_last().subrange(k + 1, s.drop_last().len() as int).push(s[s.len() - 1])
            =~= s.subrange(k + 1, s.len() as int));
    }
}

fn utf8_len_of(c: char) -> (r: usize)
    ensures
        r as int == spec_utf8_len(c),
{
    let u: u32 = c as u32;
    if u < 0x80 {
        1
    } else if u < 0x800 {
        2
    } else if u < 0x10000 {
        3
    } else {
        4
    }
}

/// Strips directory components from an error message, keeping only what
/// follows the last path separator, and caps the result at its last
/// character boundary at or below 200 bytes.
pub fn sanitize_error_message(error: &str) -> (r: String)
    ensures
        r@ == spec_sanitize(error@),
{
    let n: usize = error.unicode_len();
    let mut start: usize = 0;
    let mut i: usize = 0;
    while i < n
        invariant
            n == error@.len(),
            i <= n,
            start <= i,
            start >= 1 ==> is_path_sep(error@[start as int - 1]),
            forall|j: int| start <= j < i ==> !is_path_sep(error@[j]),
        decreases n - i,
    {
        let c = error.get_char(i);
        if c == '/' || c == '\\' {
            start = i + 1;
        }
        i = i + 1;
    }
    proof {
        lemma_tail_segment(error@, start as int - 1);
    }
    let tail = error.substring_char(start, n);
    let tail_len: usize = n - start;
    proof {
        assert(tail@.len() == tail_len);
        assert(tail@.take(0) =~= Seq::<char>::empty());
        assert(tail@.skip(0) =~= tail@);
        assert(Seq::<char>::empty() + spec_take_bytes(tail@, 200) =~= spec_take_bytes(
            tail@,
            200,
        ));
    }
    // Walk the tail accumulating encoded bytes: stop either at its end or
    // just before the character that would cross the 200-byte budget.
    let mut k: usize = 0;
    let mut acc: usize = 0;
    loop
        invariant
            tail@.len() == tail_len,
            k <= tail_len,
            acc <= 200,
            acc == spec_utf8_bytes(tail@.take(k as int)),
            spec_take_bytes(tail@, 200) == tail@.take(k as int) + spec_take_bytes(
                tail@.skip(k as int),
                200 - acc,
            ),
        ensures
            k <= tail_len,
            tail@.len() == tail_len,
            k == tail_len ==> spec_utf8_bytes(tail@) <= 200,
            k < tail_len ==> spec_utf8_bytes(tail@) > 200 && spec_take_bytes(tail@, 200)
                == tail@.take(k as int),
        decreases tail_len - k,
    {
        if k >= tail_len {
            proof {
                assert(tail@.take(k as int) =~= tail@);
            }
            break;
        }
        let c = tail.get_char(k);
        let l = utf8_len_of(c);
        proof {
            assert(tail@.skip(k as int).first() == tail@[k as int]);
        }
        if acc + l > 200 {
            proof {
                assert(spec_take_bytes(tail@.skip(k as int), 200 - acc)
                    =~= Seq::<char>::empty());
                assert(tail@.take(k as int) + Seq::<char>::empty() =~= tail@.take(k as int));
                lemma_utf8_bytes_prefix(tail@, k as int);
            }
            break;
        }
        proof {
            assert(tail@.skip(k as int).drop_first() =~= tail@.skip(k as int + 1));
            assert(spec_take_bytes(tail@.skip(k as int), 200 - acc) == seq![tail@[k as int]]
                + spec_take_bytes(tail@.skip(k as int + 1), 200 - acc - l));
            assert(tail@.take(k as int + 1).drop_last() =~= tail@.take(k as int));
            assert(tail@.take(k as int + 1).last() == tail@[k as int]);
            assert(spec_utf8_bytes(tail@.take(k as int + 1)) == acc + l);
            assert(tail@.take(k as int) + (seq![tail@[k as int]] + spec_take_bytes(
                tail@.skip(k as int + 1),
                200 - acc - l,
            )) =~= tail@.take(k as int + 1) + spec_take_bytes(
                tail@.skip(k as int + 1),
                200 - acc - l,
            ));
        }
        acc = acc + l;
        k = k + 1;
    }
    if k < tail_len {
        let cut = tail.substring_char(0, k);
        let r = cut.to_owned().concat("...");
        proof {
            assert(tail@.subrange(0, k as int) =~= tail@.take(k as int));
        }
        r
    } else {
        tail.to_owned()
    }
}

// ---------------------------------------------------------------------------
// Security error taxonomy.
// ---------------------------------------------------------------------------

/// Maximum file size the collaborating validation layer accepts (500MB).
pub const MAX_FILE_SIZE: u64 = 500 * 1024 * 1024;

/// Why a candidate file path was rejected before decoding.
#[derive(Debug)]
pub enum SecurityError {
    InvalidPath(String),
    PathTraversal(String),
    FileTooBig(u64),
    FileNotFound(String),
    InvalidExtension(String),
    PermissionDenied(String),
}

/// Ghost counterpart of `SecurityError`.
pub enum SecurityErrorV {
    InvalidPath(Seq<char>),
    PathTraversal(Seq<char>),
    FileTooBig(u64),
    FileNotFound(Seq<char>),
    InvalidExtension(Seq<char>),
    PermissionDenied(Seq<char>),
}

impl View for SecurityError {
    type V = SecurityErrorV;

    open spec fn view(&self) -> SecurityErrorV {
        match self {
            SecurityError::InvalidPath(m) => SecurityErrorV::InvalidPath(m@),
            SecurityError::PathTraversal(m) => SecurityErrorV::PathTraversal(m@),
            SecurityError::FileTooBig(size) => SecurityErrorV::FileTooBig(*size),
            SecurityError::FileNotFound(m) => SecurityErrorV::FileNotFound(m@),
            SecurityError::InvalidExtension(m) => SecurityErrorV::InvalidExtension(m@),
            SecurityError::PermissionDenied(m) => SecurityErrorV::PermissionDenied(m@),
        }
    }
}

/// The rendering of each error, as a human-readable line.
pub open spec fn spec_security_error_message(e: SecurityErrorV) -> Seq<char> {
    match e {
        SecurityErrorV::InvalidPath(m) => "Invalid path: "@ + m,
        SecurityErrorV::PathTraversal(m) => "Path traversal detected: "@ + m,
        SecurityErrorV::FileTooBig(size) => "File too large: "@ + spec_dec(size as nat)
            + " bytes (max: "@ + spec_dec(MAX_FILE_SIZE as nat) + " bytes)"@,
        SecurityErrorV::FileNotFound(m) => "File not found: "@ + m,
        SecurityErrorV::InvalidExtension(m) => "Invalid file extension: "@ + m,
        SecurityErrorV::PermissionDenied(m) => "Permission denied: "@ + m,
    }
}

impl SecurityError {
    /// Human-readable description of the error.
    pub fn message(&self) -> (r: String)
        ensures
            r@ == spec_security_error_message(self@),
    {
        match self {
            SecurityError::InvalidPath(m) => String::from_str("Invalid path: ").concat(
                m.as_str(),
            ),
            SecurityError::PathTraversal(m) => String::from_str(
                "Path traversal detected: ",
            ).concat(m.as_str()),
            SecurityError::FileTooBig(size) => {
                let s1 = u64_to_dec(*size);
                let s2 = u64_to_dec(MAX_FILE_SIZE);
                String::from_str("File too large: ").concat(s1.as_str()).concat(
                    " bytes (max: ",
                ).concat(s2.as_str()).concat(" bytes)")
            },
            SecurityError::FileNotFound(m) => String::from_str("File not found: ").concat(
                m.as_str(),
            ),
            SecurityError::InvalidExtension(m) => String::from_str(
                "Invalid file extension: ",
            ).concat(m.as_str()),
            SecurityError::PermissionDenied(m) => String::from_str(
                "Permission denied: ",
            ).concat(m.as_str()),
        }
    }
}

} // verus!

//! Character and byte level text utilities shared by the diff and
//! suggestion engines.

use vstd::prelude::*;
use vstd::seq_lib::*;
use vstd::string::StrSliceExecFns;
use vstd::utf8::*;

verus! {

/// The characters this library trims: Unicode whitespace, the same class
/// `str::trim` strips.
pub open spec fn is_blank(c: char) -> bool {
    ||| ('\u{09}' <= c && c <= '\u{0D}')
    ||| c == ' '
    ||| c == '\u{85}'
    ||| c == '\u{A0}'
    ||| c == '\u{1680}'
    ||| ('\u{2000}' <= c && c <= '\u{200A}')
    ||| c == '\u{2028}'
    ||| c == '\u{2029}'
    ||| c == '\u{202F}'
    ||| c == '\u{205F}'
    ||| c == '\u{3000}'
}

/// The input without its leading blank characters.
pub open spec fn trim_start_spec(s: Seq<char>) -> Seq<char>
    decreases s.len(),
{
    if s.len() == 0 {
        s
    } else if is_blank(s[0]) {
        trim_start_spec(s.drop_first())
    } else {
        s
    }
}

/// The input without its trailing blank characters.
pub open spec fn trim_end_spec(s: Seq<char>) -> Seq<char>
    decreases s.len(),
{
    if s.len() == 0 {
        s
    } else if is_blank(s.last()) {
        trim_end_spec(s.drop_last())
    } else {
        s
    }
}

/// The input without leading and trailing blank characters.
pub open spec fn trim_spec(s: Seq<char>) -> Seq<char> {
    trim_end_spec(trim_start_spec(s))
}

proof fn lemma_trim_start_skip(s: Seq<char>, k: int)
    requires
        0 <= k <= s.len(),
        forall|i: int| 0 <= i < k ==> is_blank(s[i]),
        k < s.len() ==> !is_blank(s[k]),
    ensures
        trim_start_spec(s) == s.skip(k),
    decreases k,
{
    if k == 0 {
        assert(s.skip(0) =~= s);
    } else {
        lemma_trim_start_skip(s.drop_first(), k - 1);
        assert(s.drop_first().skip(k - 1) =~= s.skip(k));
    }
}

proof fn lemma_trim_end_take(s: Seq<char>, h: int)
    requires
        0 <= h <= s.len(),
        forall|i: int| h <= i < s.len() ==> is_blank(s[i]),
        h > 0 ==> !is_blank(s[h - 1]),
    ensures
        trim_end_spec(s) == s.take(h),
    decreases s.len() - h,
{
    if h == s.len() {
        assert(s.take(h) =~= s);
    } else {
        lemma_trim_end_take(s.drop_last(), h);
        assert(s.drop_last().take(h) =~= s.take(h));
    }
}

/// Trim whitespace from both ends of a string.
pub fn trim_blank(s: &str) -> (r: String)
    ensures
        r@ == trim_spec(s@),
{
    let n: usize = s.unicode_len();
    let mut lo: usize = 0;
    while lo < n && is_blank_exec(s.get_char(lo))
        invariant
            0 <= lo <= n,
            n == s@.len(),
            forall|i: int| 0 <= i < lo ==> is_blank(s@[i]),
        decreases n - lo,
    {
        lo = lo + 1;
    }
    let mut hi: usize = n;
    while hi > lo && is_blank_exec(s.get_char(hi - 1))
        invariant
            lo <= hi <= n,
            n == s@.len(),
            forall|i: int| 0 <= i < lo ==> is_blank(s@[i]),
            lo < n ==> !is_blank(s@[lo as int]),
            forall|i: int| hi <= i < n ==> is_blank(s@[i]),
        decreases hi,
    {
        hi = hi - 1;
    }
    proof {
        lemma_trim_start_skip(s@, lo as int);
        if hi == lo {
            lemma_trim_end_take(s@.skip(lo as int), 0);
        } else {
            lemma_trim_end_take(s@.skip(lo as int), hi - lo);
        }
        assert(s@.skip(lo as int).take(hi - lo) =~= s@.subrange(lo as int, hi as int));
    }
    s.substring_char(lo, hi).to_owned()
}

/// Executable check for the trimmed character class.
pub fn is_blank_exec(c: char) -> (r: bool)
    ensures
        r == is_blank(c),
{
    ('\u{09}' <= c && c <= '\u{0D}') || c == ' ' || c == '\u{85}' || c == '\u{A0}' || c
        == '\u{1680}' || ('\u{2000}' <= c && c <= '\u{200A}') || c == '\u{2028}' || c
        == '\u{2029}' || c == '\u{202F}' || c == '\u{205F}' || c == '\u{3000}'
}

/// One trailing newline removed, together with a carriage return
/// immediately before it.
pub open spec fn trim_eol_spec(s: Seq<char>) -> Seq<char> {
    if s.len() > 0 && s.last() == '\n' {
        let t = s.drop_last();
        if t.len() > 0 && t.last() == '\r' {
            t.drop_last()
        } else {
            t
        }
    } else {
        s
    }
}

/// The decimal digit character for a value below ten.
pub open spec fn dec_digit(d: nat) -> char {
    ((48 + d) as u8) as char
}

/// The decimal digit byte for a value below ten.
pub open spec fn dec_digit_byte(d: nat) -> u8 {
    (48 + d) as u8
}

/// Decimal representation of a number, as characters.
pub open spec fn dec_str(n: nat) -> Seq<char>
    decreases n,
{
    if n < 10 {
        seq![dec_digit(n)]
    } else {
        dec_str(n / 10).push(dec_digit(n % 10))
    }
}

/// Decimal representation of a number, as ASCII bytes.
pub open spec fn dec_bytes(n: nat) -> Seq<u8>
    decreases n,
{
    if n < 10 {
        seq![dec_digit_byte(n)]
    } else {
        dec_bytes(n / 10).push(dec_digit_byte(n % 10))
    }
}

proof fn lemma_dec_bytes_encodes(n: nat)
    ensures
        is_ascii_chars(dec_str(n)),
        encode_utf8(dec_str(n)) == dec_bytes(n),
    decreases n,
{
    broadcast use is_ascii_chars_encode_utf8;

    if n < 10 {
        assert(is_ascii_chars(dec_str(n))) by {
            assert(dec_str(n)[0] == dec_digit(n));
            assert((dec_digit(n) as nat) < 128);
        }
        assert(encode_utf8(dec_str(n)) =~= dec_bytes(n)) by {
            assert(encode_utf8(dec_str(n)) =~= Seq::new(
                dec_str(n).len(),
                |i: int| dec_str(n)[i] as u8,
            ));
        }
    } else {
        lemma_dec_bytes_encodes(n / 10);
        assert(is_ascii_chars(dec_str(n))) by {
            assert(forall|i: int|
                0 <= i < dec_str(n).len() ==> (dec_str(n)[i] as nat) < 128) by {
                assert(forall|i: int|
                    0 <= i < dec_str(n / 10).len() ==> #[trigger] (dec_str(n / 10)[i] as nat)
                        < 128);
                assert(dec_str(n).last() == dec_digit(n % 10));
                assert((dec_digit(n % 10) as nat) < 128);
                assert(forall|i: int|
                    0 <= i < dec_str(n).len() - 1 ==> dec_str(n)[i] == dec_str(n / 10)[i]);
            }
        }
        assert(encode_utf8(dec_str(n)) =~= Seq::new(
            dec_str(n).len(),
            |i: int| dec_str(n)[i] as u8,
        ));
        assert(encode_utf8(dec_str(n / 10)) =~= Seq::new(
            dec_str(n / 10).len(),
            |i: int| dec_str(n / 10)[i] as u8,
        ));
        assert(encode_utf8(dec_str(n)) =~= dec_bytes(n));
    }
}

/// Relies on `String::from_utf8`: a vector of valid UTF-8 bytes decodes to
/// the string holding exactly those bytes.
#[verifier::external_body]
pub fn string_from_utf8(v: Vec<u8>) -> (r: String)
    requires
        valid_utf8(v@),
    ensures
        r@ == decode_utf8(v@),
{
    match String::from_utf8(v) {
        Ok(s) => s,
        Err(_) => String::new(),
    }
}

/// Relies on `str::from_utf8`: succeeds exactly on valid UTF-8, and the
/// resulting string decodes those bytes.
#[verifier::external_body]
pub fn try_decode_utf8(bytes: &[u8]) -> (r: Option<String>)
    ensures
        match r {
            Some(s) => valid_utf8(bytes@) && s@ == decode_utf8(bytes@),
            None => !valid_utf8(bytes@),
        },
{
    match std::str::from_utf8(bytes) {
        Ok(s) => Some(s.to_owned()),
        Err(_) => None,
    }
}

/// What `String::from_utf8_lossy` returns: a function of the bytes alone.
pub uninterp spec fn lossy_decode(bytes: Seq<u8>) -> Seq<char>;

/// Relies on `String::from_utf8_lossy`: invalid sequences are substituted
/// with the replacement character; valid UTF-8 input decodes unchanged.
#[verifier::external_body]
pub fn decode_lossy(bytes: &[u8]) -> (r: String)
    ensures
        r@ == lossy_decode(bytes@),
        valid_utf8(bytes@) ==> r@ == decode_utf8(bytes@),
{
    String::from_utf8_lossy(bytes).into_owned()
}

/// Render a number in decimal.
pub fn u32_string(n: u32) -> (r: String)
    ensures
        r@ == dec_str(n as nat),
{
    let mut digits: Vec<u8> = Vec::new();
    let first: u8 = (n % 10) as u8 + 48;
    digits.push(first);
    let mut m: u32 = n / 10;
    proof {
        assert(digits@.reverse() =~= seq![first]);
        if n >= 10 {
            assert(dec_bytes(n as nat) == dec_bytes((n / 10) as nat).push(first));
            assert(dec_bytes((n / 10) as nat).push(first) =~= dec_bytes((n / 10) as nat)
                + digits@.reverse());
        } else {
            assert(dec_bytes(n as nat) =~= digits@.reverse());
        }
    }
    while m != 0
        invariant
            if m == 0 {
                dec_bytes(n as nat) == digits@.reverse()
            } else {
                dec_bytes(n as nat) == dec_bytes(m as nat) + digits@.reverse()
            },
        decreases m,
    {
        let d: u8 = (m % 10) as u8 + 48;
        let ghost prev = digits@;
        digits.push(d);
        proof {
            assert(digits@.reverse() =~= seq![d] + prev.reverse());
            if m >= 10 {
                assert(dec_bytes(m as nat) == dec_bytes((m / 10) as nat).push(d));
                assert(dec_bytes((m / 10) as nat).push(d) + prev.reverse() =~= dec_bytes(
                    (m / 10) as nat,
                ) + (seq![d] + prev.reverse()));
            } else {
                assert(dec_bytes(m as nat) =~= seq![d]);
                assert(seq![d] + prev.reverse() =~= dec_bytes(m as nat) + prev.reverse());
            }
        }
        m = m / 10;
    }
    let mut out: Vec<u8> = Vec::new();
    let mut i: usize = digits.len();
    while i > 0
        invariant
            0 <= i <= digits@.len(),
            out@ =~= digits@.subrange(i as int, digits@.len() as int).reverse(),
        decreases i,
    {
        i = i - 1;
        let ghost prev_out = out@;
        out.push(digits[i]);
        proof {
            assert(digits@.subrange(i as int, digits@.len() as int).reverse() =~= prev_out.push(
                digits@[i as int],
            ));
        }
    }
    proof {
        assert(digits@.subrange(0, digits@.len() as int) =~= digits@);
        assert(out@ == dec_bytes(n as nat));
        lemma_dec_bytes_encodes(n as nat);
        broadcast use encode_utf8_valid_utf8, encode_utf8_decode_utf8;

        assert(valid_utf8(out@));
        assert(decode_utf8(out@) == dec_str(n as nat));
    }
    string_from_utf8(out)
}

/// Strict lexicographic order on byte sequences.
pub open spec fn lex_lt(a: Seq<u8>, b: Seq<u8>) -> bool
    decreases a.len(),
{
    if b.len() == 0 {
        false
    } else if a.len() == 0 {
        true
    } else if a[0] < b[0] {
        true
    } else if a[0] > b[0] {
        false
    } else {
        lex_lt(a.drop_first(), b.drop_first())
    }
}

/// Compare two byte vectors in lexicographic order.
pub fn bytes_lt(a: &Vec<u8>, b: &Vec<u8>) -> (r: bool)
    ensures
        r == lex_lt(a@, b@),
{
    let mut i: usize = 0;
    proof {
        assert(a@.skip(0) =~= a@);
        assert(b@.skip(0) =~= b@);
    }
    loop
        invariant
            0 <= i <= a@.len(),
            i <= b@.len(),
            forall|j: int| 0 <= j < i ==> a@[j] == b@[j],
            lex_lt(a@, b@) == lex_lt(a@.skip(i as int), b@.skip(i as int)),
        decreases a@.len() - i,
    {
        if i == b.len() {
            return false;
        }
        if i == a.len() {
            return true;
        }
        let x = a[i];
        let y = b[i];
        if x < y {
            return true;
        }
        if x > y {
            return false;
        }
        proof {
            assert(a@.skip(i as int).drop_first() =~= a@.skip(i + 1));
            assert(b@.skip(i as int).drop_first() =~= b@.skip(i + 1));
        }
        i = i + 1;
    }
}

/// Whether two strings hold the same characters.
pub fn str_eq(a: &str, b: &str) -> (r: bool)
    ensures
        r == (a@ == b@),
{
    let n: usize = a.unicode_len();
    if n != b.unicode_len() {
        proof {
            assert(a@.len() != b@.len());
        }
        return false;
    }
    let mut i: usize = 0;
    while i < n
        invariant
            0 <= i <= n,
            n == a@.len(),
            n == b@.len(),
            forall|j: int| 0 <= j < i ==> a@[j] == b@[j],
        decreases n - i,
    {
        if a.get_char(i) != b.get_char(i) {
            return false;
        }
        i = i + 1;
    }
    proof {
        assert(a@ =~= b@);
    }
    true
}

} // verus!

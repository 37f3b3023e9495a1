//! Character-level helpers shared by the lexer and the parser: UTF-8 byte
//! offsets of characters, character classes, and conversions between
//! `String`s and character vectors.
use vstd::prelude::*;
use vstd::utf8::*;
use vstd::string::*;

verus! {

/// Number of bytes that `c` takes in UTF-8.
pub open spec fn utf8_len(c: char) -> nat {
    encode_scalar(c as u32).len()
}

/// Byte length of the UTF-8 encoding of `s`.
pub open spec fn bytes_len(s: Seq<char>) -> nat
    decreases s.len(),
{
    if s.len() == 0 {
        0
    } else {
        bytes_len(s.drop_last()) + utf8_len(s.last())
    }
}

/// The byte offset at which the character with index `i` of `s` starts.
pub open spec fn byte_offset(s: Seq<char>, i: int) -> nat {
    bytes_len(s.take(i))
}

pub proof fn lemma_utf8_len_bounds(c: char)
    ensures
        1 <= utf8_len(c) <= 4,
        (c as u32) <= 0x7F ==> utf8_len(c) == 1,
        (c as u32) > 0x7F ==> utf8_len(c) >= 2,
{
    char_is_scalar(c);
}

pub proof fn lemma_bytes_len_prepend(c: char, s: Seq<char>)
    ensures
        bytes_len(seq![c] + s) == utf8_len(c) + bytes_len(s),
    decreases s.len(),
{
    let t = seq![c] + s;
    if s.len() == 0 {
        assert(t.drop_last() =~= Seq::<char>::empty());
        assert(t.last() == c);
        assert(bytes_len(t.drop_last()) == 0);
        assert(bytes_len(s) == 0);
    } else {
        assert(t.drop_last() =~= seq![c] + s.drop_last());
        assert(t.last() == s.last());
        lemma_bytes_len_prepend(c, s.drop_last());
        assert(bytes_len(t) == bytes_len(t.drop_last()) + utf8_len(t.last()));
        assert(bytes_len(s) == bytes_len(s.drop_last()) + utf8_len(s.last()));
    }
}

/// The byte length of a character sequence is the length of its UTF-8 encoding.
pub proof fn lemma_bytes_len_encode(s: Seq<char>)
    ensures
        bytes_len(s) == encode_utf8(s).len(),
    decreases s.len(),
{
    if s.len() > 0 {
        lemma_bytes_len_encode(s.drop_first());
        assert(s =~= seq![s[0]] + s.drop_first());
        lemma_bytes_len_prepend(s[0], s.drop_first());
    }
}

/// Byte offsets grow by the width of each character.
pub proof fn lemma_byte_offset_step(s: Seq<char>, i: int)
    requires
        0 <= i < s.len(),
    ensures
        byte_offset(s, i + 1) == byte_offset(s, i) + utf8_len(s[i]),
{
    assert(s.take(i + 1).drop_last() =~= s.take(i));
}

proof fn lemma_byte_offset_grows(s: Seq<char>, i: int, j: int)
    requires
        0 <= i <= j <= s.len(),
    ensures
        byte_offset(s, i) + (j - i) <= byte_offset(s, j),
    decreases j - i,
{
    if i < j {
        lemma_byte_offset_step(s, i);
        lemma_utf8_len_bounds(s[i]);
        lemma_byte_offset_grows(s, i + 1, j);
    }
}

/// Byte offsets are strictly increasing and bounded by the total byte length.
pub proof fn lemma_byte_offset_mono(s: Seq<char>, i: int, j: int)
    requires
        0 <= i <= j <= s.len(),
    ensures
        byte_offset(s, i) + (j - i) <= byte_offset(s, j),
        byte_offset(s, j) <= bytes_len(s),
{
    lemma_byte_offset_grows(s, i, j);
    lemma_byte_offset_grows(s, j, s.len() as int);
    assert(s.take(s.len() as int) =~= s);
}

/// Two character indices with the same byte offset are equal.
pub proof fn lemma_byte_offset_injective(s: Seq<char>, i: int, j: int)
    requires
        0 <= i <= s.len(),
        0 <= j <= s.len(),
        byte_offset(s, i) == byte_offset(s, j),
    ensures
        i == j,
{
    if i < j {
        lemma_byte_offset_mono(s, i, j);
    } else if j < i {
        lemma_byte_offset_mono(s, j, i);
    }
}

/// The UTF-8 width of a character.
pub fn char_utf8_len(c: char) -> (n: usize)
    ensures
        n == utf8_len(c),
        1 <= n <= 4,
{
    let v = c as u32;
    proof {
        char_is_scalar(c);
    }
    if v <= 0x7F {
        1
    } else if v <= 0x7FF {
        2
    } else if v <= 0xFFFF {
        3
    } else {
        4
    }
}

/// The characters of a string slice.
pub fn chars_of(s: &str) -> (r: Vec<char>)
    ensures
        r@ == s@,
{
    let mut r: Vec<char> = Vec::new();
    for c in it: s.chars()
        invariant
            r@ == it.seq().take(it.index() as int),
    {
        r.push(c);
    }
    r
}

/// `String::len` of a string whose characters are `s`.
pub fn str_byte_len(s: &str) -> (n: usize)
    requires
        bytes_len(s@) <= usize::MAX,
    ensures
        n == bytes_len(s@),
{
    proof {
        lemma_bytes_len_encode(s@);
        assert(s.spec_bytes() == encode_utf8(s@));
    }
    s.len()
}

/// Builds a `String` out of characters (`FromIterator<&char>` for `String`).
/// Trusted: the resulting string holds exactly the given characters, in order.
#[verifier::external_body]
pub(crate) fn string_from_chars(cs: &[char]) -> (r: String)
    ensures
        r@ == cs@,
{
    cs.iter().collect()
}

/// Whether `c` is an ASCII letter (`char::is_ascii_alphabetic`).
pub open spec fn is_ascii_alpha(c: char) -> bool {
    ('a' <= c && c <= 'z') || ('A' <= c && c <= 'Z')
}

pub fn char_is_ascii_alpha(c: char) -> (r: bool)
    ensures
        r == is_ascii_alpha(c),
{
    ('a' <= c && c <= 'z') || ('A' <= c && c <= 'Z')
}

/// Whether `c` is an ASCII decimal digit (`char::is_ascii_digit`).
pub open spec fn is_ascii_digit(c: char) -> bool {
    '0' <= c && c <= '9'
}

/// What `char::is_numeric` returns: whether the Unicode general category of
/// the character is one of the number categories (Nd, Nl, No).
pub uninterp spec fn is_numeric(c: char) -> bool;

/// `char::is_numeric`. Trusted: the result is `is_numeric(c)`; among ASCII
/// characters exactly the decimal digits are in a number category.
#[verifier::external_body]
pub(crate) fn char_is_numeric(c: char) -> (r: bool)
    ensures
        r == is_numeric(c),
        (c as u32) <= 0x7F ==> (r <==> is_ascii_digit(c)),
{
    c.is_numeric()
}

/// Characters that the lexer skips between tokens.
pub open spec fn is_blank(c: char) -> bool {
    c == ' ' || c == '\0' || c == '\n' || c == '\r' || c == '\t'
}

/// Whether `s` begins with `p`.
pub open spec fn seq_starts_with(s: Seq<char>, p: Seq<char>) -> bool {
    p.len() <= s.len() && s.take(p.len() as int) == p
}

/// Whether the characters of `cs` at index `at` spell out `p`.
pub fn chars_start_with(cs: &Vec<char>, at: usize, p: &Vec<char>) -> (r: bool)
    requires
        at <= cs.len(),
    ensures
        r == seq_starts_with(cs@.skip(at as int), p@),
{
    if p.len() > cs.len() - at {
        return false;
    }
    let mut i: usize = 0;
    while i < p.len()
        invariant
            i <= p.len(),
            at + p.len() <= cs.len(),
            forall|k: int| 0 <= k < i ==> cs@[at + k] == p@[k],
        decreases p.len() - i,
    {
        if cs[at + i] != p[i] {
            assert(cs@.skip(at as int).take(p.len() as int)[i as int] != p@[i as int]);
            return false;
        }
        i += 1;
    }
    assert(cs@.skip(at as int).take(p.len() as int) =~= p@);
    true
}

} // verus!

verus! {

/// The decimal digit for `d < 10`.
pub open spec fn digit_char(d: nat) -> char {
    if d == 0 { '0' } else if d == 1 { '1' } else if d == 2 { '2' } else if d == 3 { '3' } else if d == 4 { '4' }
    else if d == 5 { '5' } else if d == 6 { '6' } else if d == 7 { '7' } else if d == 8 { '8' } else { '9' }
}

/// The decimal representation of `n`, as `Display` for integers writes it.
pub open spec fn decimal(n: nat) -> Seq<char>
    decreases n,
{
    if n < 10 {
        seq![digit_char(n)]
    } else {
        decimal(n / 10).push(digit_char(n % 10))
    }
}

} // verus!

verus! {

/// The representation of a number has at least one digit, and two from 10 on.
pub proof fn lemma_decimal_len(n: nat)
    ensures
        decimal(n).len() >= 1,
        n >= 10 ==> decimal(n).len() >= 2,
    decreases n,
{
    if n >= 10 {
        lemma_decimal_len(n / 10);
    }
}

/// Different numbers have different decimal representations.
pub proof fn lemma_decimal_injective(a: nat, b: nat)
    requires
        decimal(a) == decimal(b),
    ensures
        a == b,
    decreases a,
{
    lemma_decimal_len(a);
    lemma_decimal_len(b);
    if a < 10 && b < 10 {
        assert(decimal(a)[0] == digit_char(a));
        assert(decimal(b)[0] == digit_char(b));
    } else if a < 10 || b < 10 {
        assert(decimal(a).len() != decimal(b).len());
    } else {
        let da = decimal(a / 10);
        let db = decimal(b / 10);
        assert(decimal(a) == da.push(digit_char(a % 10)));
        assert(decimal(b) == db.push(digit_char(b % 10)));
        assert(decimal(a).last() == digit_char(a % 10));
        assert(decimal(b).last() == digit_char(b % 10));
        assert(decimal(a).drop_last() =~= da);
        assert(decimal(b).drop_last() =~= db);
        assert(a % 10 == b % 10);
        lemma_decimal_injective(a / 10, b / 10);
    }
}

/// The text of the digit `d`.
fn digit_text(d: usize) -> (r: &'static str)
    requires
        d < 10,
    ensures
        r@ == seq![digit_char(d as nat)],
{
    match d {
        0 => {
            proof {
                reveal_strlit("0");
            }
            "0"
        },
        1 => {
            proof {
                reveal_strlit("1");
            }
            "1"
        },
        2 => {
            proof {
                reveal_strlit("2");
            }
            "2"
        },
        3 => {
            proof {
                reveal_strlit("3");
            }
            "3"
        },
        4 => {
            proof {
                reveal_strlit("4");
            }
            "4"
        },
        5 => {
            proof {
                reveal_strlit("5");
            }
            "5"
        },
        6 => {
            proof {
                reveal_strlit("6");
            }
            "6"
        },
        7 => {
            proof {
                reveal_strlit("7");
            }
            "7"
        },
        8 => {
            proof {
                reveal_strlit("8");
            }
            "8"
        },
        _ => {
            proof {
                reveal_strlit("9");
            }
            "9"
        },
    }
}

/// The decimal representation of `n`, as `Display` writes it.
pub(crate) fn usize_to_string(n: usize) -> (r: String)
    ensures
        r@ == decimal(n as nat),
    decreases n,
{
    if n < 10 {
        digit_text(n).to_owned()
    } else {
        let mut r = usize_to_string(n / 10);
        r.append(digit_text(n % 10));
        r
    }
}

} // verus!

verus! {

/// Whether a string holds the text `b`.
pub fn text_eq(a: &String, b: &str) -> (r: bool)
    ensures
        r == (a@ == b@),
{
    let t = b.to_owned();
    *a == t
}

} // verus!

verus! {

/// The end of the run of ASCII digits in `s` that starts at `i`.
pub open spec fn digit_run_end(s: Seq<char>, i: int) -> int
    decreases s.len() - i,
{
    if 0 <= i < s.len() && is_ascii_digit(s[i]) {
        digit_run_end(s, i + 1)
    } else {
        i
    }
}

/// The code of `c` in lower case, for ASCII letters.
pub open spec fn lower_code(c: char) -> u32 {
    if 'A' <= c && c <= 'Z' {
        ((c as u32) + 32) as u32
    } else {
        c as u32
    }
}

/// Whether `s`, with ASCII letters in lower case, is `word`.
pub open spec fn equals_ignoring_case(s: Seq<char>, word: Seq<char>) -> bool {
    s.len() == word.len() && forall|i: int| 0 <= i < s.len() ==> lower_code(#[trigger] s[i]) == word[i] as u32
}

/// The text after an optional leading sign.
pub open spec fn unsigned_part(s: Seq<char>) -> Seq<char> {
    if s.len() > 0 && (s[0] == '+' || s[0] == '-') {
        s.skip(1)
    } else {
        s
    }
}

/// Whether `t` is a decimal number: digits with at most one `.` and at least
/// one digit, then an optional exponent `e`, an optional sign and digits.
pub open spec fn is_decimal_number(t: Seq<char>) -> bool {
    let a = digit_run_end(t, 0);
    let dot = a < t.len() && t[a] == '.';
    let b = if dot { digit_run_end(t, a + 1) } else { a };
    let mantissa_digits = if dot { a + (b - (a + 1)) } else { a };
    &&& mantissa_digits >= 1
    &&& (b == t.len() || ({
        let c = if b + 1 < t.len() && (t[b + 1] == '+' || t[b + 1] == '-') { b + 2 } else { b + 1 };
        let d = digit_run_end(t, c);
        &&& (t[b] == 'e' || t[b] == 'E')
        &&& d > c
        &&& d == t.len()
    }))
}

/// Whether `s` is text that `f64::from_str` accepts: an optional sign, then
/// `inf`, `infinity` or `nan` in any case, or a decimal number.
pub open spec fn is_float_literal(s: Seq<char>) -> bool {
    let t = unsigned_part(s);
    equals_ignoring_case(t, "inf"@) || equals_ignoring_case(t, "infinity"@) || equals_ignoring_case(t, "nan"@)
        || is_decimal_number(t)
}

proof fn lemma_digit_run_end_bounds(s: Seq<char>, i: int)
    requires
        0 <= i <= s.len(),
    ensures
        i <= digit_run_end(s, i) <= s.len(),
        forall|j: int| i <= j < digit_run_end(s, i) ==> is_ascii_digit(#[trigger] s[j]),
        digit_run_end(s, i) < s.len() ==> !is_ascii_digit(s[digit_run_end(s, i)]),
    decreases s.len() - i,
{
    if i < s.len() && is_ascii_digit(s[i]) {
        lemma_digit_run_end_bounds(s, i + 1);
    }
}

/// The end of the run of ASCII digits in `cs` that starts at `i`.
fn digit_run_end_exec(cs: &Vec<char>, i: usize) -> (r: usize)
    requires
        i <= cs@.len(),
    ensures
        r as int == digit_run_end(cs@, i as int),
{
    let mut j = i;
    while j < cs.len() && cs[j] >= '0' && cs[j] <= '9'
        invariant
            i <= j <= cs@.len(),
            digit_run_end(cs@, i as int) == digit_run_end(cs@, j as int),
        decreases cs.len() - j,
    {
        j += 1;
    }
    j
}

/// Whether `cs[from..]`, with ASCII letters in lower case, is `word`.
fn tail_equals_ignoring_case(cs: &Vec<char>, from: usize, word: &str) -> (r: bool)
    requires
        from <= cs@.len(),
    ensures
        r == equals_ignoring_case(cs@.skip(from as int), word@),
{
    let w = chars_of(word);
    let n = cs.len();
    if n - from != w.len() {
        return false;
    }
    let mut i: usize = 0;
    while i < w.len()
        invariant
            i <= w@.len(),
            w@ == word@,
            n == cs@.len(),
            from <= n,
            n - from == w@.len(),
            forall|j: int| 0 <= j < i ==> lower_code(#[trigger] cs@.skip(from as int)[j]) == w@[j] as u32,
        decreases w.len() - i,
    {
        let c = cs[from + i];
        let target = w[i];
        let code: u32 = if c >= 'A' && c <= 'Z' { (c as u32) + 32 } else { c as u32 };
        let same = code == (target as u32);
        proof {
            assert(cs@.skip(from as int)[i as int] == c);
        }
        if !same {
            return false;
        }
        i += 1;
    }
    true
}

/// Whether `cs[from..]` is a decimal number (see `is_decimal_number`).
#[verifier::rlimit(30)]
fn decimal_number_at(cs: &Vec<char>, from: usize) -> (r: bool)
    requires
        from <= cs@.len(),
    ensures
        r == is_decimal_number(cs@.skip(from as int)),
{
    let ghost t = cs@.skip(from as int);
    let n = cs.len();
    let a = digit_run_end_exec(cs, from);
    proof {
        lemma_digit_run_end_shift(cs@, from as int, from as int);
        lemma_digit_run_end_bounds(cs@, from as int);
        assert(t.len() == n - from);
    }
    let dot = a < n && cs[a] == '.';
    proof {
        if a < n {
            assert(t[a - from] == cs@[a as int]);
        }
    }
    let b = if dot { digit_run_end_exec(cs, a + 1) } else { a };
    proof {
        if dot {
            lemma_digit_run_end_shift(cs@, from as int, a + 1);
            lemma_digit_run_end_bounds(cs@, a + 1);
        }
    }
    let mantissa_digits = if dot { (a - from) + (b - (a + 1)) } else { a - from };
    if mantissa_digits < 1 {
        return false;
    }
    if b == n {
        return true;
    }
    proof {
        assert(t[b - from] == cs@[b as int]);
        if b + 1 < n {
            assert(t[b + 1 - from] == cs@[b + 1]);
        }
    }
    if !(cs[b] == 'e' || cs[b] == 'E') {
        return false;
    }
    let c = if b + 1 < n && (cs[b + 1] == '+' || cs[b + 1] == '-') { b + 2 } else { b + 1 };
    let d = digit_run_end_exec(cs, c);
    proof {
        lemma_digit_run_end_shift(cs@, from as int, c as int);
    }
    d > c && d == n
}

/// Whether `f64::from_str` accepts the text `s` (see `is_float_literal`).
pub fn is_float_text(s: &String) -> (r: bool)
    ensures
        r == is_float_literal(s@),
{
    let cs = chars_of(s.as_str());
    let from: usize = if cs.len() > 0 && (cs[0] == '+' || cs[0] == '-') { 1 } else { 0 };
    proof {
        assert(unsigned_part(cs@) =~= cs@.skip(from as int)) by {
            if from == 0 {
                assert(cs@.skip(0) =~= cs@);
            }
        }
    }
    tail_equals_ignoring_case(&cs, from, "inf") || tail_equals_ignoring_case(&cs, from, "infinity")
        || tail_equals_ignoring_case(&cs, from, "nan") || decimal_number_at(&cs, from)
}

/// Digit runs in a tail of a text are the runs of the text, shifted.
proof fn lemma_digit_run_end_shift(s: Seq<char>, from: int, i: int)
    requires
        0 <= from <= i <= s.len(),
    ensures
        digit_run_end(s.skip(from), i - from) == digit_run_end(s, i) - from,
    decreases s.len() - i,
{
    if i < s.len() && is_ascii_digit(s[i]) {
        assert(s.skip(from)[i - from] == s[i]);
        lemma_digit_run_end_shift(s, from, i + 1);
    }
}

} // verus!

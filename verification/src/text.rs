//! Character-level text handling used throughout the crate: whitespace
//! trimming, line splitting, prefix and substring tests, decimal integer
//! parsing and printing.  Strings are modelled by their `Seq<char>` view.
use vstd::prelude::*;
use vstd::std_specs::iter::IteratorSpec;
use vstd::utf8::{decode_utf8, valid_utf8};

verus! {

broadcast use vstd::string::group_string_axioms;

// ------------------------------------------------------------------
// Conversions between `str`/`String` and character vectors
// ------------------------------------------------------------------

/// The characters of a string slice, in order.
pub fn chars_of(s: &str) -> (r: Vec<char>)
    ensures
        r@ == s@,
{
    let mut out: Vec<char> = Vec::new();
    for c in it: s.chars()
        invariant
            it.seq() == s@,
            out@ == s@.take(it.index()),
    {
        out.push(c);
        assert(s@.take(it.index()).push(c) =~= s@.take(it.index() + 1));
    }
    assert(out@ =~= s@);
    out
}

/// Appends one character to a string (`String::push`).
#[verifier::external_body]
fn push_char(s: &mut String, c: char)
    ensures
        final(s)@ == old(s)@.push(c),
{
    s.push(c);
}

/// Builds a string from a sequence of characters.
pub fn string_of(v: &Vec<char>) -> (r: String)
    ensures
        r@ == v@,
{
    let mut out = String::new();
    let mut i: usize = 0;
    while i < v.len()
        invariant
            i <= v.len(),
            out@ == v@.take(i as int),
        decreases v.len() - i,
    {
        push_char(&mut out, v[i]);
        assert(v@.take(i as int).push(v@[i as int]) =~= v@.take(i + 1));
        i += 1;
    }
    assert(v@.take(v.len() as int) =~= v@);
    out
}

/// The characters `v[from..to]` as a new vector.
pub fn slice_chars(v: &Vec<char>, from: usize, to: usize) -> (r: Vec<char>)
    requires
        from <= to <= v.len(),
    ensures
        r@ == v@.subrange(from as int, to as int),
{
    let mut out: Vec<char> = Vec::new();
    let mut i = from;
    while i < to
        invariant
            from <= i <= to <= v.len(),
            out@ == v@.subrange(from as int, i as int),
        decreases to - i,
    {
        out.push(v[i]);
        assert(v@.subrange(from as int, i as int).push(v@[i as int]) =~= v@.subrange(
            from as int,
            i + 1,
        ));
        i += 1;
    }
    out
}

/// Appends all characters of `w` to `v`.
pub fn extend_chars(v: &mut Vec<char>, w: &Vec<char>)
    ensures
        final(v)@ == old(v)@ + w@,
{
    let mut i: usize = 0;
    while i < w.len()
        invariant
            i <= w.len(),
            v@ == old(v)@ + w@.take(i as int),
        decreases w.len() - i,
    {
        v.push(w[i]);
        assert(old(v)@ + w@.take(i as int).push(w@[i as int]) =~= old(v)@ + w@.take(i + 1));
        i += 1;
    }
    assert(w@.take(w.len() as int) =~= w@);
}

/// Concatenation of the two strings.
pub fn concat_str(a: &str, b: &str) -> (r: String)
    ensures
        r@ == a@ + b@,
{
    let mut v = chars_of(a);
    let w = chars_of(b);
    extend_chars(&mut v, &w);
    string_of(&v)
}

/// Whether two character vectors hold the same characters.
pub fn chars_equal(a: &Vec<char>, b: &Vec<char>) -> (r: bool)
    ensures
        r == (a@ == b@),
{
    if a.len() != b.len() {
        return false;
    }
    let mut i: usize = 0;
    while i < a.len()
        invariant
            a.len() == b.len(),
            i <= a.len(),
            forall|k: int| 0 <= k < i ==> a@[k] == b@[k],
        decreases a.len() - i,
    {
        if a[i] != b[i] {
            return false;
        }
        i += 1;
    }
    assert(a@ =~= b@);
    true
}

// ------------------------------------------------------------------
// Bytes to text
// ------------------------------------------------------------------

/// `String::from_utf8`: the text that the bytes encode, when they are
/// valid UTF-8.
#[verifier::external_body]
pub(crate) fn utf8_string(bytes: Vec<u8>) -> (r: Option<String>)
    ensures
        r is Some <==> valid_utf8(bytes@),
        r matches Some(s) ==> s@ == decode_utf8(bytes@),
{
    match String::from_utf8(bytes) {
        Ok(s) => Some(s),
        Err(_) => None,
    }
}

/// What `String::from_utf8_lossy` yields on `bytes`: their text, with
/// U+FFFD in place of every invalid sequence.
pub uninterp spec fn lossy_utf8(bytes: Seq<u8>) -> Seq<char>;

/// `String::from_utf8_lossy`, taken as given by `lossy_utf8`; on valid
/// UTF-8 it is the decoded text, as the documentation states.
#[verifier::external_body]
pub(crate) fn utf8_lossy(bytes: &[u8]) -> (r: String)
    ensures
        r@ == lossy_utf8(bytes@),
        valid_utf8(bytes@) ==> r@ == decode_utf8(bytes@),
{
    String::from_utf8_lossy(bytes).into_owned()
}

// ------------------------------------------------------------------
// Whitespace and trimming
// ------------------------------------------------------------------

/// Unicode `White_Space` characters, the set that `char::is_whitespace`
/// and `str::trim` use.
pub open spec fn is_ws(c: char) -> bool {
    let u = c as u32;
    ||| 9 <= u <= 13
    ||| u == 32
    ||| u == 0x85
    ||| u == 0xa0
    ||| u == 0x1680
    ||| 0x2000 <= u <= 0x200a
    ||| u == 0x2028
    ||| u == 0x2029
    ||| u == 0x202f
    ||| u == 0x205f
    ||| u == 0x3000
}

/// Whether `c` is a Unicode whitespace character.
pub fn is_whitespace(c: char) -> (r: bool)
    ensures
        r == is_ws(c),
{
    let u = c as u32;
    (9 <= u && u <= 13) || u == 32 || u == 0x85 || u == 0xa0 || u == 0x1680 || (0x2000 <= u && u
        <= 0x200a) || u == 0x2028 || u == 0x2029 || u == 0x202f || u == 0x205f || u == 0x3000
}

/// `s` without its leading whitespace.
pub open spec fn trim_front(s: Seq<char>) -> Seq<char>
    decreases s.len(),
{
    if s.len() > 0 && is_ws(s[0]) {
        trim_front(s.drop_first())
    } else {
        s
    }
}

/// `s` without its trailing whitespace.
pub open spec fn trim_back(s: Seq<char>) -> Seq<char>
    decreases s.len(),
{
    if s.len() > 0 && is_ws(s.last()) {
        trim_back(s.drop_last())
    } else {
        s
    }
}

/// `s` without leading and trailing whitespace (`str::trim`).
pub open spec fn trimmed(s: Seq<char>) -> Seq<char> {
    trim_back(trim_front(s))
}

/// Removes leading and trailing whitespace.
pub fn trim_chars(v: &Vec<char>) -> (r: Vec<char>)
    ensures
        r@ == trimmed(v@),
{
    let n = v.len();
    let mut i: usize = 0;
    assert(v@.skip(0) =~= v@);
    while i < n && is_whitespace(v[i])
        invariant
            i <= n == v.len(),
            trim_front(v@) == trim_front(v@.skip(i as int)),
        decreases n - i,
    {
        assert(v@.skip(i as int).drop_first() =~= v@.skip(i + 1));
        i += 1;
    }
    assert(trim_front(v@) == v@.subrange(i as int, n as int)) by {
        assert(v@.skip(i as int) =~= v@.subrange(i as int, n as int));
    }
    let mut j: usize = n;
    while j > i && is_whitespace(v[j - 1])
        invariant
            i <= j <= n == v.len(),
            trim_back(v@.subrange(i as int, n as int)) == trim_back(
                v@.subrange(i as int, j as int),
            ),
        decreases j - i,
    {
        assert(v@.subrange(i as int, j as int).drop_last() =~= v@.subrange(i as int, j - 1));
        j -= 1;
    }
    slice_chars(v, i, j)
}

/// `str::trim`: the string without leading and trailing whitespace.
pub fn trim(s: &str) -> (r: String)
    ensures
        r@ == trimmed(s@),
{
    let v = chars_of(s);
    let t = trim_chars(&v);
    string_of(&t)
}

/// `s` without all trailing occurrences of `c` (`str::trim_end_matches`).
pub open spec fn strip_trailing(s: Seq<char>, c: char) -> Seq<char>
    decreases s.len(),
{
    if s.len() > 0 && s.last() == c {
        strip_trailing(s.drop_last(), c)
    } else {
        s
    }
}

/// Removes every trailing occurrence of `c`.
pub fn strip_trailing_chars(v: &Vec<char>, c: char) -> (r: Vec<char>)
    ensures
        r@ == strip_trailing(v@, c),
{
    let mut j: usize = v.len();
    assert(v@.subrange(0, j as int) =~= v@);
    while j > 0 && v[j - 1] == c
        invariant
            j <= v.len(),
            strip_trailing(v@, c) == strip_trailing(v@.subrange(0, j as int), c),
        decreases j,
    {
        assert(v@.subrange(0, j as int).drop_last() =~= v@.subrange(0, j - 1));
        j -= 1;
    }
    slice_chars(v, 0, j)
}

// ------------------------------------------------------------------
// Lines
// ------------------------------------------------------------------

/// Index of the first `c` in `s`, or `s.len()` when there is none.
pub open spec fn first_index(s: Seq<char>, c: char) -> int
    decreases s.len(),
{
    if s.len() == 0 {
        0
    } else if s[0] == c {
        0
    } else {
        1 + first_index(s.drop_first(), c)
    }
}

pub proof fn lemma_first_index_bounds(s: Seq<char>, c: char)
    ensures
        0 <= first_index(s, c) <= s.len(),
        first_index(s, c) < s.len() ==> s[first_index(s, c)] == c,
        forall|k: int| 0 <= k < first_index(s, c) ==> s[k] != c,
    decreases s.len(),
{
    if s.len() > 0 && s[0] != c {
        lemma_first_index_bounds(s.drop_first(), c);
        assert forall|k: int| 0 <= k < first_index(s, c) implies s[k] != c by {
            if k > 0 {
                assert(s[k] == s.drop_first()[k - 1]);
            }
        }
    }
}

pub proof fn lemma_first_index_is(s: Seq<char>, c: char, j: int)
    requires
        0 <= j <= s.len(),
        forall|k: int| 0 <= k < j ==> s[k] != c,
        j < s.len() ==> s[j] == c,
    ensures
        first_index(s, c) == j,
    decreases j,
{
    if j > 0 {
        assert(s[0] != c);
        lemma_first_index_is(s.drop_first(), c, j - 1);
    }
}

/// A line without its carriage return, as `str::lines` removes it
/// before a line feed.
pub open spec fn strip_cr(l: Seq<char>) -> Seq<char> {
    if l.len() > 0 && l.last() == '\r' {
        l.drop_last()
    } else {
        l
    }
}

/// The lines of `s` as `str::lines` yields them: split at `\n` or
/// `\r\n`; the final line ending is optional; no lines for "".
pub open spec fn lines_of(s: Seq<char>) -> Seq<Seq<char>>
    decreases s.len(),
{
    if s.len() == 0 {
        seq![]
    } else {
        let i = first_index(s, '\n');
        if i < s.len() {
            proof {
                lemma_first_index_bounds(s, '\n');
            }
            seq![strip_cr(s.take(i))] + lines_of(s.skip(i + 1))
        } else {
            seq![s]
        }
    }
}

/// Splits text into lines (`str::lines`).
pub fn split_lines(s: &str) -> (r: Vec<String>)
    ensures
        r@.len() == lines_of(s@).len(),
        forall|i: int| 0 <= i < r@.len() ==> #[trigger] r@[i]@ == lines_of(s@)[i],
{
    let v = chars_of(s);
    let n = v.len();
    let mut out: Vec<String> = Vec::new();
    let ghost mut done: Seq<Seq<char>> = seq![];
    let mut start: usize = 0;
    assert(v@.skip(0) =~= v@);
    while start < n
        invariant
            start <= n == v.len(),
            v@ == s@,
            out@.len() == done.len(),
            forall|i: int| 0 <= i < out@.len() ==> #[trigger] out@[i]@ == done[i],
            lines_of(s@) == done + lines_of(v@.skip(start as int)),
        decreases n - start,
    {
        let mut j = start;
        while j < n && v[j] != '\n'
            invariant
                start <= j <= n == v.len(),
                forall|k: int| start <= k < j ==> v@[k] != '\n',
            decreases n - j,
        {
            j += 1;
        }
        let ghost rest = v@.skip(start as int);
        proof {
            lemma_first_index_is(rest, '\n', j - start);
        }
        let mut line = slice_chars(&v, start, j);
        assert(line@ == rest.take(j - start));
        if j < n {
            if line.len() > 0 && line[line.len() - 1] == '\r' {
                line.pop();
            }
            assert(rest.skip(j - start + 1) =~= v@.skip(j + 1));
            proof {
                done = done.push(strip_cr(rest.take(j - start)));
            }
            out.push(string_of(&line));
            start = j + 1;
        } else {
            assert(rest.take(j - start) =~= rest);
            assert(v@.skip(n as int) =~= Seq::<char>::empty());
            proof {
                done = done.push(rest);
            }
            out.push(string_of(&line));
            start = n;
        }
        assert(done =~= done.drop_last().push(done.last()));
    }
    assert(v@.skip(start as int) =~= Seq::<char>::empty());
    assert(done + lines_of(v@.skip(start as int)) =~= done);
    out
}

// ------------------------------------------------------------------
// Prefixes and substrings
// ------------------------------------------------------------------

/// `s` begins with `p`.
pub open spec fn starts_with(s: Seq<char>, p: Seq<char>) -> bool {
    p.len() <= s.len() && s.take(p.len() as int) == p
}

/// `p` occurs in `s` at position `i`.
pub open spec fn occurs_at(s: Seq<char>, p: Seq<char>, i: int) -> bool {
    0 <= i && i + p.len() <= s.len() && s.subrange(i, i + p.len()) == p
}

/// `p` occurs somewhere in `s` (`str::contains`); the empty pattern
/// occurs in every string.
pub open spec fn contains(s: Seq<char>, p: Seq<char>) -> bool {
    exists|i: int| #[trigger] occurs_at(s, p, i)
}

/// Whether `p` occurs in `v` at position `at`.
pub fn chars_occur_at(v: &Vec<char>, p: &Vec<char>, at: usize) -> (r: bool)
    ensures
        r == occurs_at(v@, p@, at as int),
{
    if at > v.len() || p.len() > v.len() - at {
        return false;
    }
    let mut k: usize = 0;
    while k < p.len()
        invariant
            at + p.len() <= v.len(),
            k <= p.len(),
            forall|m: int| 0 <= m < k ==> v@[at + m] == p@[m],
        decreases p.len() - k,
    {
        if v[at + k] != p[k] {
            assert(v@.subrange(at as int, at + p.len())[k as int] != p@[k as int]);
            return false;
        }
        k += 1;
    }
    assert(v@.subrange(at as int, at + p.len()) =~= p@);
    true
}

/// Whether `v` begins with `p`.
pub fn chars_start_with(v: &Vec<char>, p: &Vec<char>) -> (r: bool)
    ensures
        r == starts_with(v@, p@),
{
    let r = chars_occur_at(v, p, 0);
    assert(v@.take(p@.len() as int) =~= v@.subrange(0, p@.len() as int));
    r
}

/// Whether `p` occurs in `v`.
pub fn chars_contain(v: &Vec<char>, p: &Vec<char>) -> (r: bool)
    ensures
        r == contains(v@, p@),
{
    if p.len() > v.len() {
        assert forall|i: int| !#[trigger] occurs_at(v@, p@, i) by {}
        return false;
    }
    let last = v.len() - p.len();
    let mut i: usize = 0;
    loop
        invariant
            last == v.len() - p.len(),
            i <= last,
            forall|k: int| 0 <= k < i ==> !#[trigger] occurs_at(v@, p@, k),
        ensures
            forall|k: int| 0 <= k <= last ==> !#[trigger] occurs_at(v@, p@, k),
        decreases last - i,
    {
        if chars_occur_at(v, p, i) {
            return true;
        }
        if i == last {
            break;
        }
        i += 1;
    }
    assert forall|k: int| !#[trigger] occurs_at(v@, p@, k) by {
        if 0 <= k <= last {
        }
    }
    false
}

// ------------------------------------------------------------------
// Decimal integers
// ------------------------------------------------------------------

pub open spec fn is_digit(c: char) -> bool {
    48 <= (c as u32) <= 57
}

pub open spec fn digit_value(c: char) -> int {
    (c as u32) - 48
}

pub open spec fn all_digits(d: Seq<char>) -> bool {
    forall|i: int| 0 <= i < d.len() ==> is_digit(#[trigger] d[i])
}

/// The number that a run of decimal digits denotes.
pub open spec fn digits_value(d: Seq<char>) -> int
    decreases d.len(),
{
    if d.len() == 0 {
        0
    } else {
        digits_value(d.drop_last()) * 10 + digit_value(d.last())
    }
}

/// The integer that `s` spells in the decimal syntax of `i64::from_str`:
/// an optional `+` or `-`, then one or more ASCII digits.
pub open spec fn int_text_value(s: Seq<char>) -> Option<int> {
    if s.len() > 0 && (s[0] == '+' || s[0] == '-') {
        let d = s.drop_first();
        if d.len() > 0 && all_digits(d) {
            Some(
                if s[0] == '-' {
                    -digits_value(d)
                } else {
                    digits_value(d)
                },
            )
        } else {
            None
        }
    } else if s.len() > 0 && all_digits(s) {
        Some(digits_value(s))
    } else {
        None
    }
}

/// What `s.parse::<i64>()` gives, as an option.
pub open spec fn i64_of_text(s: Seq<char>) -> Option<i64> {
    match int_text_value(s) {
        Some(v) => if i64::MIN <= v <= i64::MAX {
            Some(v as i64)
        } else {
            None
        },
        None => None,
    }
}

/// The number that `s` spells in the syntax of `usize::from_str`:
/// an optional `+`, then one or more ASCII digits.
pub open spec fn nat_text_value(s: Seq<char>) -> Option<int> {
    if s.len() > 0 && s[0] == '+' {
        let d = s.drop_first();
        if d.len() > 0 && all_digits(d) {
            Some(digits_value(d))
        } else {
            None
        }
    } else if s.len() > 0 && all_digits(s) {
        Some(digits_value(s))
    } else {
        None
    }
}

/// What `s.parse::<usize>()` gives, as an option.
pub open spec fn usize_of_text(s: Seq<char>) -> Option<usize> {
    match nat_text_value(s) {
        Some(v) => if v <= usize::MAX {
            Some(v as usize)
        } else {
            None
        },
        None => None,
    }
}

pub proof fn lemma_digits_value_nonneg(d: Seq<char>)
    requires
        all_digits(d),
    ensures
        digits_value(d) >= 0,
    decreases d.len(),
{
    if d.len() > 0 {
        assert(is_digit(d[d.len() - 1]));
        lemma_digits_value_nonneg(d.drop_last());
    }
}

/// Appending digits never makes the value smaller.
pub proof fn lemma_digits_value_grows(d: Seq<char>, k: int)
    requires
        all_digits(d),
        0 <= k <= d.len(),
    ensures
        digits_value(d.take(k)) <= digits_value(d),
    decreases d.len() - k,
{
    if k < d.len() {
        assert(d.take(k) =~= d.drop_last().take(k));
        assert(is_digit(d[d.len() - 1]));
        lemma_digits_value_grows(d.drop_last(), k);
        lemma_digits_value_nonneg(d.drop_last());
    } else {
        assert(d.take(k) =~= d);
    }
}

/// Reads the run of digits `v[from..]` as a number no larger than
/// `bound`; `None` when a character is no digit or the value exceeds it.
fn digits_up_to(v: &Vec<char>, from: usize, bound: u64) -> (r: Option<u64>)
    requires
        from <= v.len(),
    ensures
        match r {
            Some(x) => all_digits(v@.skip(from as int)) && x == digits_value(v@.skip(from as int))
                && x <= bound,
            None => !all_digits(v@.skip(from as int)) || digits_value(v@.skip(from as int))
                > bound,
        },
{
    let ghost d = v@.skip(from as int);
    let mut acc: u64 = 0;
    let mut i = from;
    assert(d.take(0) =~= Seq::<char>::empty());
    while i < v.len()
        invariant
            from <= i <= v.len(),
            d == v@.skip(from as int),
            all_digits(d.take(i - from)),
            acc == digits_value(d.take(i - from)),
            acc <= bound,
        decreases v.len() - i,
    {
        let c = v[i];
        let u = c as u32;
        if u < 48 || u > 57 {
            assert(d[i - from] == c);
            return None;
        }
        let dv = (u - 48) as u64;
        assert(d.take(i - from + 1).drop_last() =~= d.take(i - from));
        assert(d.take(i - from + 1).last() == c);
        assert(all_digits(d.take(i - from + 1)));
        let m = acc.checked_mul(10);
        match m {
            Some(m) => {
                match m.checked_add(dv) {
                    Some(next) => {
                        if next > bound {
                            proof {
                                if all_digits(d) {
                                    lemma_digits_value_grows(d, i - from + 1);
                                }
                            }
                            return None;
                        }
                        acc = next;
                    },
                    None => {
                        proof {
                            if all_digits(d) {
                                lemma_digits_value_grows(d, i - from + 1);
                            }
                        }
                        return None;
                    },
                }
            },
            None => {
                proof {
                    lemma_digits_value_nonneg(d.take(i - from));
                    if all_digits(d) {
                        lemma_digits_value_grows(d, i - from + 1);
                    }
                }
                return None;
            },
        }
        i += 1;
    }
    assert(d.take(i - from) =~= d);
    Some(acc)
}

/// `s.parse::<i64>().ok()` on a character vector.
pub fn parse_i64_chars(v: &Vec<char>) -> (r: Option<i64>)
    ensures
        r == i64_of_text(v@),
{
    if v.len() == 0 {
        return None;
    }
    let signed = v[0] == '+' || v[0] == '-';
    if signed {
        assert(v@.drop_first() =~= v@.skip(1));
        if v.len() == 1 {
            return None;
        }
        let neg = v[0] == '-';
        match digits_up_to(v, 1, 9223372036854775808u64) {
            Some(m) => {
                if neg {
                    if m == 9223372036854775808u64 {
                        Some(i64::MIN)
                    } else {
                        Some(-(m as i64))
                    }
                } else if m > 9223372036854775807u64 {
                    None
                } else {
                    Some(m as i64)
                }
            },
            None => None,
        }
    } else {
        assert(v@.skip(0) =~= v@);
        match digits_up_to(v, 0, 9223372036854775807u64) {
            Some(m) => Some(m as i64),
            None => None,
        }
    }
}

/// `s.parse::<usize>().ok()` on a character vector.
pub fn parse_usize_chars(v: &Vec<char>) -> (r: Option<usize>)
    ensures
        r == usize_of_text(v@),
{
    if v.len() == 0 {
        return None;
    }
    let from: usize = if v[0] == '+' {
        1
    } else {
        0
    };
    if from == 1 {
        assert(v@.drop_first() =~= v@.skip(1));
        if v.len() == 1 {
            return None;
        }
    } else {
        assert(v@.skip(0) =~= v@);
    }
    match digits_up_to(v, from, usize::MAX as u64) {
        Some(m) => Some(m as usize),
        None => None,
    }
}

/// The digit character for `d` in `0..10`.
pub open spec fn digit_char(d: int) -> char {
    (d + 48) as char
}

/// Decimal digits of `n` without leading zeros (`"0"` for zero).
pub open spec fn nat_decimal(n: nat) -> Seq<char>
    decreases n,
{
    if n < 10 {
        seq![digit_char(n as int)]
    } else {
        nat_decimal(n / 10) + seq![digit_char((n % 10) as int)]
    }
}

/// Decimal text of `n` as `to_string` prints it: a `-` before the
/// digits of a negative number.
pub open spec fn int_decimal(n: int) -> Seq<char> {
    if n < 0 {
        seq!['-'] + nat_decimal((-n) as nat)
    } else {
        nat_decimal(n as nat)
    }
}

fn digit_to_char(d: u64) -> (c: char)
    requires
        d < 10,
    ensures
        c == digit_char(d as int),
{
    let b = (48 + d) as u8;
    b as char
}

/// Decimal digits of an unsigned number.
pub fn u64_decimal(n: u64) -> (r: Vec<char>)
    ensures
        r@ == nat_decimal(n as nat),
{
    let mut m = n;
    let mut out: Vec<char> = Vec::new();
    assert(nat_decimal(n as nat) =~= nat_decimal(m as nat) + out@);
    while m >= 10
        invariant
            nat_decimal(n as nat) == nat_decimal(m as nat) + out@,
        decreases m,
    {
        let d = m % 10;
        out.insert(0, digit_to_char(d));
        assert(nat_decimal(m as nat) == nat_decimal((m / 10) as nat) + seq![digit_char(d as int)]);
        assert(nat_decimal(n as nat) =~= nat_decimal((m / 10) as nat) + out@);
        m = m / 10;
    }
    out.insert(0, digit_to_char(m));
    assert(nat_decimal(n as nat) =~= out@);
    out
}

/// Decimal text of a signed number (`i64::to_string`).
pub fn i64_decimal(n: i64) -> (r: Vec<char>)
    ensures
        r@ == int_decimal(n as int),
{
    if n < 0 {
        let m: u64 = if n == i64::MIN {
            9223372036854775808u64
        } else {
            (-n) as u64
        };
        let digits = u64_decimal(m);
        let mut out: Vec<char> = Vec::new();
        out.push('-');
        extend_chars(&mut out, &digits);
        out
    } else {
        u64_decimal(n as u64)
    }
}

/// `n.to_string()` for a signed number.
pub fn i64_to_string(n: i64) -> (r: String)
    ensures
        r@ == int_decimal(n as int),
{
    string_of(&i64_decimal(n))
}

/// `n.to_string()` for an unsigned number.
pub fn usize_to_string(n: usize) -> (r: String)
    ensures
        r@ == nat_decimal(n as nat),
{
    string_of(&u64_decimal(n as u64))
}

/// The decimal digits of `n` are digits and spell `n`.
pub proof fn lemma_nat_decimal_value(n: nat)
    ensures
        nat_decimal(n).len() > 0,
        all_digits(nat_decimal(n)),
        digits_value(nat_decimal(n)) == n,
    decreases n,
{
    if n >= 10 {
        lemma_nat_decimal_value(n / 10);
        let d = nat_decimal(n);
        assert(d.drop_last() =~= nat_decimal(n / 10));
        assert(is_digit(digit_char((n % 10) as int)));
        assert(digit_value(digit_char((n % 10) as int)) == n % 10);
        assert(d.last() == digit_char((n % 10) as int));
        assert(digits_value(d) == digits_value(d.drop_last()) * 10 + digit_value(d.last()));
        assert(n == (n / 10) * 10 + n % 10);
        assert forall|i: int| 0 <= i < d.len() implies is_digit(#[trigger] d[i]) by {
            if i < d.len() - 1 {
                assert(d[i] == nat_decimal(n / 10)[i]);
            }
        }
    } else {
        assert(is_digit(digit_char(n as int)));
        assert(digit_value(digit_char(n as int)) == n);
        assert(nat_decimal(n).drop_last() =~= Seq::<char>::empty());
        assert(digits_value(Seq::<char>::empty()) == 0);
    }
}

/// The decimal text of an `i64` reads back as that number.
pub proof fn lemma_int_decimal_reads_back(n: i64)
    ensures
        i64_of_text(int_decimal(n as int)) == Some(n),
        int_decimal(n as int).len() > 0,
        !is_ws(int_decimal(n as int)[0]),
        !is_ws(int_decimal(n as int).last()),
{
    if n < 0 {
        let m = (-n) as nat;
        lemma_nat_decimal_value(m);
        let t = int_decimal(n as int);
        assert(t.drop_first() =~= nat_decimal(m));
        assert(is_digit(t.last()));
    } else {
        let m = n as nat;
        lemma_nat_decimal_value(m);
        let t = nat_decimal(m);
        assert(is_digit(t[0]));
        assert(is_digit(t.last()));
    }
}

proof fn lemma_trim_front_skips(a: Seq<char>, t: Seq<char>)
    requires
        forall|i: int| 0 <= i < a.len() ==> is_ws(#[trigger] a[i]),
        t.len() > 0,
        !is_ws(t[0]),
    ensures
        trim_front(a + t) == t,
    decreases a.len(),
{
    if a.len() > 0 {
        assert((a + t).drop_first() =~= a.drop_first() + t);
        lemma_trim_front_skips(a.drop_first(), t);
    } else {
        assert(a + t =~= t);
    }
}

proof fn lemma_trim_back_skips(t: Seq<char>, b: Seq<char>)
    requires
        forall|i: int| 0 <= i < b.len() ==> is_ws(#[trigger] b[i]),
        t.len() > 0,
        !is_ws(t.last()),
    ensures
        trim_back(t + b) == t,
    decreases b.len(),
{
    if b.len() > 0 {
        assert((t + b).drop_last() =~= t + b.drop_last());
        lemma_trim_back_skips(t, b.drop_last());
    } else {
        assert(t + b =~= t);
    }
}

/// Trimming text that has no whitespace at its ends, with whitespace put
/// around it, gives the text back.
pub proof fn lemma_trimmed_padding(a: Seq<char>, t: Seq<char>, b: Seq<char>)
    requires
        forall|i: int| 0 <= i < a.len() ==> is_ws(#[trigger] a[i]),
        forall|i: int| 0 <= i < b.len() ==> is_ws(#[trigger] b[i]),
        t.len() > 0,
        !is_ws(t[0]),
        !is_ws(t.last()),
    ensures
        trimmed(a + t + b) == t,
{
    assert(a + t + b =~= a + (t + b));
    assert((t + b)[0] == t[0]);
    lemma_trim_front_skips(a, t + b);
    lemma_trim_back_skips(t, b);
}

} // verus!

//! The remembered connection target and its file, `.svnguitool.json`:
//! a JSON object `{ "last_target": "..." }`, where the value may also be
//! `null`.
use vstd::prelude::*;

use crate::text::{chars_of, string_of};

verus! {

/// What the browser remembers between runs.
pub struct Config {
    /// The last repository URL or working copy path connected to.
    pub last_target: Option<String>,
}

// ------------------------------------------------------------------
// The grammar
// ------------------------------------------------------------------

pub open spec fn is_json_ws(c: char) -> bool {
    c == ' ' || c == '\t' || c == '\n' || c == '\r'
}

/// The first position from `i` on that holds no JSON whitespace.
pub open spec fn skip_ws(s: Seq<char>, i: int) -> int
    decreases s.len() - i,
{
    if 0 <= i < s.len() && is_json_ws(s[i]) {
        skip_ws(s, i + 1)
    } else {
        i
    }
}

pub open spec fn hex_value(c: char) -> Option<int> {
    if '0' <= c <= '9' {
        Some(c as int - '0' as int)
    } else if 'a' <= c <= 'f' {
        Some(c as int - 'a' as int + 10)
    } else if 'A' <= c <= 'F' {
        Some(c as int - 'A' as int + 10)
    } else {
        None
    }
}

/// The number the four hexadecimal digits at `i` write.
pub open spec fn hex4_at(s: Seq<char>, i: int) -> Option<int> {
    if 0 <= i && i + 4 <= s.len() {
        match (hex_value(s[i]), hex_value(s[i + 1]), hex_value(s[i + 2]), hex_value(s[i + 3])) {
            (Some(a), Some(b), Some(c), Some(d)) => Some(((a * 16 + b) * 16 + c) * 16 + d),
            _ => None,
        }
    } else {
        None
    }
}

/// The character of a `\uXXXX` escape starting at `i`, and the position
/// after it.  A high surrogate must be followed by the `\uXXXX` escape of
/// a low surrogate; the pair stands for one character.
pub open spec fn unicode_escape_at(s: Seq<char>, i: int) -> Option<(char, int)> {
    match hex4_at(s, i + 2) {
        Some(hi) => if 0xD800 <= hi < 0xDC00 {
            if 0 <= i && i + 7 < s.len() && s[i + 6] == '\\' && s[i + 7] == 'u' {
                match hex4_at(s, i + 8) {
                    Some(lo) => if 0xDC00 <= lo < 0xE000 {
                        Some((((hi - 0xD800) * 1024 + (lo - 0xDC00) + 0x10000) as char, i + 12))
                    } else {
                        None
                    },
                    None => None,
                }
            } else {
                None
            }
        } else if 0xDC00 <= hi < 0xE000 {
            None
        } else {
            Some((hi as char, i + 6))
        },
        None => None,
    }
}

/// The character a one-letter escape `\c` stands for.
pub open spec fn short_escape(c: char) -> Option<char> {
    if c == '"' {
        Some('"')
    } else if c == '\\' {
        Some('\\')
    } else if c == '/' {
        Some('/')
    } else if c == 'b' {
        Some('\x08')
    } else if c == 'f' {
        Some('\x0c')
    } else if c == 'n' {
        Some('\n')
    } else if c == 'r' {
        Some('\r')
    } else if c == 't' {
        Some('\t')
    } else {
        None
    }
}

/// The escape at `i` (where `s[i]` is a backslash): the character it
/// stands for and the position after it.
pub open spec fn escape_at(s: Seq<char>, i: int) -> Option<(char, int)> {
    if 0 <= i && i + 1 < s.len() {
        if s[i + 1] == 'u' {
            unicode_escape_at(s, i)
        } else {
            match short_escape(s[i + 1]) {
                Some(c) => Some((c, i + 2)),
                None => None,
            }
        }
    } else {
        None
    }
}

/// The rest of a JSON string from `i` (just after its opening quote):
/// its text and the position after the closing quote.  Control
/// characters (below U+0020) must be escaped.
pub open spec fn string_body(s: Seq<char>, i: int) -> Option<(Seq<char>, int)>
    decreases s.len() - i,
{
    if 0 <= i < s.len() {
        if s[i] == '"' {
            Some((seq![], i + 1))
        } else if s[i] == '\\' {
            match escape_at(s, i) {
                Some((c, j)) => if i < j {
                    match string_body(s, j) {
                        Some((t, k)) => Some((seq![c] + t, k)),
                        None => None,
                    }
                } else {
                    None
                },
                None => None,
            }
        } else if '\x1f' >= s[i] {
            None
        } else {
            match string_body(s, i + 1) {
                Some((t, k)) => Some((seq![s[i]] + t, k)),
                None => None,
            }
        }
    } else {
        None
    }
}

/// A string or `null` at `i`: its value and the position after it.
pub open spec fn value_at(s: Seq<char>, i: int) -> Option<(Option<Seq<char>>, int)> {
    if 0 <= i < s.len() && s[i] == '"' {
        match string_body(s, i + 1) {
            Some((t, j)) => Some((Some(t), j)),
            None => None,
        }
    } else if 0 <= i && i + 4 <= s.len() && s[i] == 'n' && s[i + 1] == 'u' && s[i + 2] == 'l'
        && s[i + 3] == 'l' {
        Some((None, i + 4))
    } else {
        None
    }
}

pub open spec fn key_text() -> Seq<char> {
    seq!['l', 'a', 's', 't', '_', 't', 'a', 'r', 'g', 'e', 't']
}

/// `s[i]` is the character `c`.
pub open spec fn char_at(s: Seq<char>, i: int, c: char) -> bool {
    0 <= i < s.len() && s[i] == c
}

/// The remembered target a configuration text holds: `Some(v)` for a
/// document `{}` (then `v` is `None`) or `{ "last_target": v }` with a
/// string or `null` value, whitespace allowed between the tokens;
/// `None` for any other text.
pub open spec fn config_of(s: Seq<char>) -> Option<Option<Seq<char>>> {
    let a = skip_ws(s, 0);
    let b = skip_ws(s, a + 1);
    if !char_at(s, a, '{') {
        None
    } else if char_at(s, b, '}') {
        if skip_ws(s, b + 1) == s.len() {
            Some(None)
        } else {
            None
        }
    } else if char_at(s, b, '"') {
        match string_body(s, b + 1) {
            Some((key, c)) => {
                let d = skip_ws(s, c);
                if key == key_text() && char_at(s, d, ':') {
                    match value_at(s, skip_ws(s, d + 1)) {
                        Some((v, e)) => {
                            let f = skip_ws(s, e);
                            if char_at(s, f, '}') && skip_ws(s, f + 1) == s.len() {
                                Some(v)
                            } else {
                                None
                            }
                        },
                        None => None,
                    }
                } else {
                    None
                }
            },
            None => None,
        }
    } else {
        None
    }
}

// ------------------------------------------------------------------
// Reading
// ------------------------------------------------------------------

proof fn lemma_skip_ws_bounds(s: Seq<char>, i: int)
    requires
        0 <= i <= s.len(),
    ensures
        i <= skip_ws(s, i) <= s.len(),
    decreases s.len() - i,
{
    if i < s.len() && is_json_ws(s[i]) {
        lemma_skip_ws_bounds(s, i + 1);
    }
}

fn skip_ws_in(v: &Vec<char>, i: usize) -> (r: usize)
    requires
        i <= v@.len(),
    ensures
        r == skip_ws(v@, i as int),
        i <= r <= v@.len(),
{
    let mut j = i;
    while j < v.len() && (v[j] == ' ' || v[j] == '\t' || v[j] == '\n' || v[j] == '\r')
        invariant
            i <= j <= v@.len(),
            skip_ws(v@, i as int) == skip_ws(v@, j as int),
        decreases v.len() - j,
    {
        j += 1;
    }
    j
}

fn hex_value_of(c: char) -> (r: Option<u32>)
    ensures
        match hex_value(c) {
            Some(n) => r matches Some(m) && m as int == n,
            None => r is None,
        },
{
    if '0' <= c && c <= '9' {
        Some((c as u32) - ('0' as u32))
    } else if 'a' <= c && c <= 'f' {
        Some((c as u32) - ('a' as u32) + 10)
    } else if 'A' <= c && c <= 'F' {
        Some((c as u32) - ('A' as u32) + 10)
    } else {
        None
    }
}

fn hex4_in(v: &Vec<char>, i: usize) -> (r: Option<u32>)
    ensures
        match hex4_at(v@, i as int) {
            Some(n) => r matches Some(m) && m as int == n,
            None => r is None,
        },
{
    if i > v.len() || v.len() - i < 4 {
        return None;
    }
    match (hex_value_of(v[i]), hex_value_of(v[i + 1]), hex_value_of(v[i + 2]), hex_value_of(v[i + 3])) {
        (Some(a), Some(b), Some(c), Some(d)) => Some(((a * 16 + b) * 16 + c) * 16 + d),
        _ => None,
    }
}

/// `char::from_u32`: the character with the given code point, if it is a
/// Unicode scalar value.
#[verifier::external_body]
fn char_from_code(code: u32) -> (r: Option<char>)
    ensures
        r is Some <==> (code < 0xD800 || 0xE000 <= code <= 0x10FFFF),
        r matches Some(c) ==> c as int == code as int,
{
    char::from_u32(code)
}

fn unicode_escape_in(v: &Vec<char>, i: usize) -> (r: Option<(char, usize)>)
    requires
        i + 2 <= v.len(),
    ensures
        match unicode_escape_at(v@, i as int) {
            Some((c, j)) => r matches Some((d, k)) && d == c && k == j,
            None => r is None,
        },
{
    let hi = match hex4_in(v, i + 2) {
        Some(h) => h,
        None => return None,
    };
    assert(i + 6 <= v.len());
    if 0xD800 <= hi && hi < 0xDC00 {
        if v.len() - i > 7 && v[i + 6] == '\\' && v[i + 7] == 'u' {
            match hex4_in(v, i + 8) {
                Some(lo) => {
                    if 0xDC00 <= lo && lo < 0xE000 {
                        let code = (hi - 0xD800) * 1024 + (lo - 0xDC00) + 0x10000;
                        match char_from_code(code) {
                            Some(c) => {
                                assert(c == (code as int) as char);
                                Some((c, i + 12))
                            },
                            None => None,
                        }
                    } else {
                        None
                    }
                },
                None => None,
            }
        } else {
            None
        }
    } else if 0xDC00 <= hi && hi < 0xE000 {
        None
    } else {
        match char_from_code(hi) {
            Some(c) => {
                assert(c == (hi as int) as char);
                Some((c, i + 6))
            },
            None => None,
        }
    }
}

fn escape_in(v: &Vec<char>, i: usize) -> (r: Option<(char, usize)>)
    requires
        i < v@.len(),
    ensures
        match escape_at(v@, i as int) {
            Some((c, j)) => r matches Some((d, k)) && d == c && k == j,
            None => r is None,
        },
{
    if v.len() - i < 2 {
        return None;
    }
    let e = v[i + 1];
    if e == 'u' {
        unicode_escape_in(v, i)
    } else if e == '"' {
        Some(('"', i + 2))
    } else if e == '\\' {
        Some(('\\', i + 2))
    } else if e == '/' {
        Some(('/', i + 2))
    } else if e == 'b' {
        Some(('\x08', i + 2))
    } else if e == 'f' {
        Some(('\x0c', i + 2))
    } else if e == 'n' {
        Some(('\n', i + 2))
    } else if e == 'r' {
        Some(('\r', i + 2))
    } else if e == 't' {
        Some(('\t', i + 2))
    } else {
        None
    }
}

/// Reads the rest of a JSON string from `i`.
fn string_body_in(v: &Vec<char>, i: usize) -> (r: Option<(Vec<char>, usize)>)
    ensures
        match string_body(v@, i as int) {
            Some((t, k)) => r matches Some((u, m)) && u@ == t && m == k,
            None => r is None,
        },
{
    let mut out: Vec<char> = Vec::new();
    let mut j = i;
    while j < v.len() && v[j] != '"'
        invariant
            i <= j,
            string_body(v@, i as int) == match string_body(v@, j as int) {
                Some((t, k)) => Some((out@ + t, k)),
                None => None,
            },
        decreases v.len() - j,
    {
        let c = v[j];
        if c == '\\' {
            match escape_in(v, j) {
                Some((d, k)) => {
                    if k <= j {
                        return None;
                    }
                    proof {
                        match string_body(v@, k as int) {
                            Some((t, m)) => {
                                assert(out@.push(d) + t =~= out@ + (seq![d] + t));
                            },
                            None => {},
                        }
                    }
                    out.push(d);
                    j = k;
                },
                None => return None,
            }
        } else if '\x1f' >= c {
            return None;
        } else {
            proof {
                match string_body(v@, j + 1) {
                    Some((t, m)) => {
                        assert(out@.push(c) + t =~= out@ + (seq![c] + t));
                    },
                    None => {},
                }
            }
            out.push(c);
            j = j + 1;
        }
    }
    if j < v.len() {
        assert(out@ + seq![] =~= out@);
        Some((out, j + 1))
    } else {
        None
    }
}

fn value_in(v: &Vec<char>, i: usize) -> (r: Option<(Option<Vec<char>>, usize)>)
    ensures
        match value_at(v@, i as int) {
            Some((Some(t), j)) => r matches Some((Some(u), k)) && u@ == t && k == j,
            Some((None, j)) => r matches Some((None, k)) && k == j,
            None => r is None,
        },
{
    if i < v.len() && v[i] == '"' {
        match string_body_in(v, i + 1) {
            Some((t, j)) => Some((Some(t), j)),
            None => None,
        }
    } else if i <= v.len() && v.len() - i >= 4 && v[i] == 'n' && v[i + 1] == 'u' && v[i + 2] == 'l'
        && v[i + 3] == 'l' {
        Some((None, i + 4))
    } else {
        None
    }
}

fn is_key(t: &Vec<char>) -> (r: bool)
    ensures
        r == (t@ == key_text()),
{
    let k = chars_of("last_target");
    proof {
        reveal_strlit("last_target");
    }
    assert(k@ =~= key_text());
    crate::text::chars_equal(t, &k)
}

impl Config {
    /// Reads a configuration file's text; a text that is no configuration
    /// document remembers nothing.
    pub fn from_text(text: &str) -> (c: Config)
        ensures
            c.last_target is Some <==> (config_of(text@) matches Some(Some(_))),
            config_of(text@) matches Some(Some(t)) ==> (c.last_target matches Some(u) && u@ == t),
    {
        let v = chars_of(text);
        let none = Config { last_target: None };
        let a = skip_ws_in(&v, 0);
        if !(a < v.len() && v[a] == '{') {
            return none;
        }
        let b = skip_ws_in(&v, a + 1);
        if b < v.len() && v[b] == '}' {
            return none;
        }
        if !(b < v.len() && v[b] == '"') {
            return none;
        }
        let (key, c) = match string_body_in(&v, b + 1) {
            Some(kc) => kc,
            None => return none,
        };
        proof {
            lemma_string_body_bounds(v@, b + 1);
        }
        let d = skip_ws_in(&v, c);
        if !(is_key(&key) && d < v.len() && v[d] == ':') {
            return none;
        }
        let (val, e) = match value_in(&v, skip_ws_in(&v, d + 1)) {
            Some(ve) => ve,
            None => return none,
        };
        proof {
            lemma_value_bounds(v@, skip_ws(v@, d + 1));
        }
        let f = skip_ws_in(&v, e);
        if !(f < v.len() && v[f] == '}' && skip_ws_in(&v, f + 1) == v.len()) {
            return none;
        }
        match val {
            Some(t) => Config { last_target: Some(string_of(&t)) },
            None => none,
        }
    }
}

proof fn lemma_string_body_bounds(s: Seq<char>, i: int)
    ensures
        string_body(s, i) matches Some((t, k)) ==> i < k <= s.len(),
    decreases s.len() - i,
{
    if 0 <= i < s.len() && s[i] != '"' {
        if s[i] == '\\' {
            match escape_at(s, i) {
                Some((c, j)) => {
                    if i < j {
                        lemma_string_body_bounds(s, j);
                    }
                },
                None => {},
            }
        } else {
            lemma_string_body_bounds(s, i + 1);
        }
    }
}

proof fn lemma_value_bounds(s: Seq<char>, i: int)
    ensures
        value_at(s, i) matches Some((v, k)) ==> i < k <= s.len(),
{
    lemma_string_body_bounds(s, i + 1);
}

// ------------------------------------------------------------------
// Writing
// ------------------------------------------------------------------

/// The hexadecimal digit of `n` (below 16), lower case.
pub open spec fn hex_digit(n: int) -> char {
    if n < 10 {
        ('0' as int + n) as char
    } else {
        ('a' as int + n - 10) as char
    }
}

/// How a character is written inside a JSON string: quote, backslash,
/// newline, carriage return and tab by their short escapes, the other
/// control characters as `\u00XX`, everything else as itself.
pub open spec fn escaped_char(c: char) -> Seq<char> {
    if c == '"' {
        seq!['\\', '"']
    } else if c == '\\' {
        seq!['\\', '\\']
    } else if c == '\n' {
        seq!['\\', 'n']
    } else if c == '\r' {
        seq!['\\', 'r']
    } else if c == '\t' {
        seq!['\\', 't']
    } else if '\x1f' >= c {
        seq!['\\', 'u', '0', '0', hex_digit(c as int / 16), hex_digit(c as int % 16)]
    } else {
        seq![c]
    }
}

/// The text as it is written inside a JSON string.
pub open spec fn escaped(t: Seq<char>) -> Seq<char>
    decreases t.len(),
{
    if t.len() == 0 {
        seq![]
    } else {
        escaped_char(t[0]) + escaped(t.drop_first())
    }
}

pub open spec fn text_head() -> Seq<char> {
    seq!['{', ' ', '"'] + key_text() + seq!['"', ':', ' ', '"']
}

pub open spec fn text_tail() -> Seq<char> {
    seq!['"', ' ', '}', '\n']
}

/// The file text written for a remembered target:
/// `{ "last_target": "..." }` and a newline, or `{}` and a newline when
/// nothing is remembered.
pub open spec fn config_text(target: Option<Seq<char>>) -> Seq<char> {
    match target {
        Some(t) => text_head() + escaped(t) + text_tail(),
        None => seq!['{', '}', '\n'],
    }
}

pub open spec fn target_view(t: Option<String>) -> Option<Seq<char>> {
    match t {
        Some(s) => Some(s@),
        None => None,
    }
}

proof fn lemma_escaped_append(a: Seq<char>, c: char)
    ensures
        escaped(a.push(c)) == escaped(a) + escaped_char(c),
    decreases a.len(),
{
    if a.len() == 0 {
        assert(a.push(c).drop_first() =~= Seq::<char>::empty());
        assert(escaped(a.push(c)) =~= escaped_char(c) + escaped(Seq::<char>::empty()));
        assert(escaped(a) + escaped_char(c) =~= escaped_char(c));
    } else {
        lemma_escaped_append(a.drop_first(), c);
        assert(a.push(c).drop_first() =~= a.drop_first().push(c));
        assert(escaped(a.push(c)) =~= escaped_char(a[0]) + escaped(a.drop_first().push(c)));
        assert(escaped(a) =~= escaped_char(a[0]) + escaped(a.drop_first()));
        assert(escaped(a.push(c)) =~= escaped(a) + escaped_char(c));
    }
}

fn hex_digit_char(n: u32) -> (c: char)
    requires
        n < 16,
    ensures
        c == hex_digit(n as int),
{
    if n < 10 {
        let b: u8 = 48 + n as u8;
        b as char
    } else {
        let b: u8 = 87 + n as u8;
        b as char
    }
}

fn push_escaped(out: &mut Vec<char>, c: char)
    ensures
        final(out)@ == old(out)@ + escaped_char(c),
{
    let ghost before = out@;
    if c == '"' {
        out.push('\\');
        out.push('"');
    } else if c == '\\' {
        out.push('\\');
        out.push('\\');
    } else if c == '\n' {
        out.push('\\');
        out.push('n');
    } else if c == '\r' {
        out.push('\\');
        out.push('r');
    } else if c == '\t' {
        out.push('\\');
        out.push('t');
    } else if '\x1f' >= c {
        let code = c as u32;
        assert(code as int == c as int);
        out.push('\\');
        out.push('u');
        out.push('0');
        out.push('0');
        out.push(hex_digit_char(code / 16));
        out.push(hex_digit_char(code % 16));
    } else {
        out.push(c);
    }
    assert(out@ =~= before + escaped_char(c));
}

impl Config {
    /// The text of the configuration file.
    pub fn to_text(&self) -> (r: String)
        ensures
            r@ == config_text(target_view(self.last_target)),
    {
        match &self.last_target {
            Some(t) => {
                let mut out = chars_of("{ \"last_target\": \"");
                proof {
                    reveal_strlit("{ \"last_target\": \"");
                }
                assert(out@ =~= text_head());
                let tv = chars_of(t.as_str());
                let mut i: usize = 0;
                while i < tv.len()
                    invariant
                        i <= tv@.len(),
                        out@ == text_head() + escaped(tv@.take(i as int)),
                    decreases tv.len() - i,
                {
                    proof {
                        lemma_escaped_append(tv@.take(i as int), tv@[i as int]);
                        assert(tv@.take(i as int).push(tv@[i as int]) =~= tv@.take(i + 1));
                    }
                    let ghost before = out@;
                    push_escaped(&mut out, tv[i]);
                    assert(out@ =~= text_head() + escaped(tv@.take(i + 1)));
                    i += 1;
                }
                assert(tv@.take(tv@.len() as int) =~= tv@);
                out.push('"');
                out.push(' ');
                out.push('}');
                out.push('\n');
                assert(out@ =~= text_head() + escaped(t@) + text_tail());
                string_of(&out)
            },
            None => {
                let mut out: Vec<char> = Vec::new();
                out.push('{');
                out.push('}');
                out.push('\n');
                assert(out@ =~= seq!['{', '}', '\n']);
                string_of(&out)
            },
        }
    }
}

// ------------------------------------------------------------------
// Reading back what was written
// ------------------------------------------------------------------

proof fn lemma_hex_digit_value(n: int)
    requires
        0 <= n < 16,
    ensures
        hex_value(hex_digit(n)) == Some(n),
{
    if n < 10 {
        assert((('0' as int + n) as char) as int == '0' as int + n);
    } else {
        assert((('a' as int + n - 10) as char) as int == 'a' as int + n - 10);
    }
}

/// How the reader takes the written form of one character.
proof fn lemma_read_escaped_char(s: Seq<char>, p: int, c: char)
    requires
        0 <= p,
        p + escaped_char(c).len() <= s.len(),
        forall|k: int| 0 <= k < escaped_char(c).len() ==> s[p + k] == escaped_char(c)[k],
    ensures
        escaped_char(c).len() > 1 ==> s[p] == '\\' && escape_at(s, p) == Some(
            (c, p + escaped_char(c).len()),
        ),
        escaped_char(c).len() == 1 ==> s[p] == c && c != '"' && c != '\\' && !('\x1f' >= c),
{
    let e = escaped_char(c);
    assert(s[p] == e[0]);
    if c == '"' || c == '\\' || c == '\n' || c == '\r' || c == '\t' {
        assert(s[p + 1] == e[1]);
    } else if '\x1f' >= c {
        let code = c as int;
        assert(0 <= code <= 0x1f);
        lemma_hex_digit_value(code / 16);
        lemma_hex_digit_value(code % 16);
        assert(s[p + 1] == 'u');
        assert(s[p + 2] == '0' && s[p + 3] == '0');
        assert(s[p + 4] == hex_digit(code / 16) && s[p + 5] == hex_digit(code % 16));
        assert(hex_value('0') == Some(0int));
        assert(hex4_at(s, p + 2) == Some(code));
        assert((code as char) == c);
        assert(unicode_escape_at(s, p) == Some((c, p + 6)));
    }
}

/// The escaped text followed by a quote reads back as the text.
proof fn lemma_read_escaped(s: Seq<char>, p: int, t: Seq<char>)
    requires
        0 <= p,
        p + escaped(t).len() + 1 <= s.len(),
        s.subrange(p, p + escaped(t).len() + 1) == escaped(t).push('"'),
    ensures
        string_body(s, p) == Some((t, p + escaped(t).len() + 1)),
    decreases t.len(),
{
    if t.len() == 0 {
        assert(s[p] == s.subrange(p, p + 1)[0]);
    } else {
        let c = t[0];
        let e = escaped_char(c);
        let m = e.len() as int;
        let rest = escaped(t.drop_first());
        let whole = s.subrange(p, p + escaped(t).len() + 1);
        assert(escaped(t) == e + rest);
        assert forall|k: int| 0 <= k < m implies s[p + k] == e[k] by {
            assert(s[p + k] == whole[k]);
        }
        assert(s.subrange(p + m, p + m + rest.len() + 1) =~= rest.push('"')) by {
            assert forall|k: int| 0 <= k < rest.len() + 1 implies s.subrange(
                p + m,
                p + m + rest.len() + 1,
            )[k] == rest.push('"')[k] by {
                assert(s[p + m + k] == whole[m + k]);
            }
        }
        lemma_read_escaped(s, p + m, t.drop_first());
        lemma_read_escaped_char(s, p, c);
        assert(seq![c] + t.drop_first() =~= t);
    }
}

/// What is written is read back: the configuration text of a
/// remembered target (or of none) holds exactly that target.
pub proof fn lemma_config_round_trip(target: Option<Seq<char>>)
    ensures
        config_of(config_text(target)) == Some(target),
{
    let s = config_text(target);
    match target {
        Some(t) => {
            let h = text_head();
            let et = escaped(t);
            let n = et.len() as int;
            assert(s.len() == 18 + n + 4);
            assert(s[0] == '{');
            assert(skip_ws(s, 0) == 0);
            assert(s[1] == ' ' && s[2] == '"');
            assert(skip_ws(s, 2) == 2);
            assert(skip_ws(s, 1) == 2);
            assert(escaped(key_text()) == key_text()) by {
                reveal_with_fuel(escaped, 12);
                assert(escaped(key_text()) =~= key_text());
            }
            assert(s.subrange(3, 15) =~= key_text().push('"'));
            lemma_read_escaped(s, 3, key_text());
            assert(s[15] == ':');
            assert(skip_ws(s, 15) == 15);
            assert(s[16] == ' ' && s[17] == '"');
            assert(skip_ws(s, 17) == 17);
            assert(skip_ws(s, 16) == 17);
            assert(s.subrange(18, 18 + n + 1) =~= et.push('"')) by {
                assert forall|k: int| 0 <= k < n + 1 implies s.subrange(18, 18 + n + 1)[k]
                    == et.push('"')[k] by {
                    if k < n {
                        assert(s[18 + k] == et[k]);
                    } else {
                        assert(s[18 + n] == text_tail()[0]);
                    }
                }
            }
            lemma_read_escaped(s, 18, t);
            assert(value_at(s, 17) == Some((Some(t), 18 + n + 1)));
            assert(s[18 + n + 1] == ' ' && s[18 + n + 2] == '}' && s[18 + n + 3] == '\n');
            assert(skip_ws(s, 18 + n + 2) == 18 + n + 2);
            assert(skip_ws(s, 18 + n + 1) == 18 + n + 2);
            assert(skip_ws(s, 18 + n + 4) == s.len());
            assert(skip_ws(s, 18 + n + 3) == s.len());
        },
        None => {
            assert(skip_ws(s, 0) == 0);
            assert(skip_ws(s, 1) == 1);
            assert(skip_ws(s, 3) == 3);
            assert(skip_ws(s, 2) == 3);
        },
    }
}

} // verus!

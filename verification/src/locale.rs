//! Locale string tables and the small YAML subset they are written in.
//!
//! A locale file has three top-level keys, `locale`, `version` and
//! `strings`; `strings` is either `{}` or followed by an indented block of
//! `key: value` lines.  Values may be bare or double-quoted; inside quotes
//! `\"` stands for a quote.  Blank lines and `#` comments are ignored.

use vstd::prelude::*;

use crate::strmap::StrMap;
use crate::text::{chars_of, decimal, push_all, push_decimal, push_str, string_from_chars};

verus! {

// ─── Character classes and trimming ────────────────────────────────────

/// Unicode `White_Space`, the set that `str::trim` removes.
pub open spec fn is_ws(c: char) -> bool {
    ||| ('\u{9}' <= c && c <= '\u{d}')
    ||| c == ' '
    ||| c == '\u{85}'
    ||| c == '\u{a0}'
    ||| c == '\u{1680}'
    ||| ('\u{2000}' <= c && c <= '\u{200a}')
    ||| c == '\u{2028}'
    ||| c == '\u{2029}'
    ||| c == '\u{202f}'
    ||| c == '\u{205f}'
    ||| c == '\u{3000}'
}

fn is_ws_exec(c: char) -> (r: bool)
    ensures
        r == is_ws(c),
{
    ('\u{9}' <= c && c <= '\u{d}') || c == ' ' || c == '\u{85}' || c == '\u{a0}' || c == '\u{1680}'
        || ('\u{2000}' <= c && c <= '\u{200a}') || c == '\u{2028}' || c == '\u{2029}' || c
        == '\u{202f}' || c == '\u{205f}' || c == '\u{3000}'
}

/// `s` without its leading whitespace.
pub open spec fn trim_start(s: Seq<char>) -> Seq<char>
    decreases s.len(),
{
    if s.len() > 0 && is_ws(s[0]) {
        trim_start(s.drop_first())
    } else {
        s
    }
}

/// `s` without its trailing whitespace.
pub open spec fn trim_end(s: Seq<char>) -> Seq<char>
    decreases s.len(),
{
    if s.len() > 0 && is_ws(s.last()) {
        trim_end(s.drop_last())
    } else {
        s
    }
}

/// `s` without leading or trailing whitespace.
pub open spec fn trim(s: Seq<char>) -> Seq<char> {
    trim_end(trim_start(s))
}

proof fn lemma_trim_start_skip(s: Seq<char>, i: int)
    requires
        0 <= i <= s.len(),
        forall|k: int| 0 <= k < i ==> is_ws(#[trigger] s[k]),
    ensures
        trim_start(s) == trim_start(s.skip(i)),
    decreases i,
{
    if i > 0 {
        assert(s.skip(1) =~= s.drop_first());
        lemma_trim_start_skip(s.drop_first(), i - 1);
        assert(s.drop_first().skip(i - 1) =~= s.skip(i));
    } else {
        assert(s.skip(0) =~= s);
    }
}

proof fn lemma_trim_end_take(s: Seq<char>, j: int)
    requires
        0 <= j <= s.len(),
        forall|k: int| j <= k < s.len() ==> is_ws(#[trigger] s[k]),
    ensures
        trim_end(s) == trim_end(s.take(j)),
    decreases s.len() - j,
{
    if j < s.len() {
        assert(s.take(s.len() - 1) =~= s.drop_last());
        lemma_trim_end_take(s.drop_last(), j);
        assert(s.drop_last().take(j) =~= s.take(j));
    } else {
        assert(s.take(j) =~= s);
    }
}

/// Removes leading and trailing whitespace.
pub fn trim_chars(s: &[char]) -> (r: Vec<char>)
    ensures
        r@ == trim(s@),
{
    let mut i: usize = 0;
    while i < s.len() && is_ws_exec(s[i])
        invariant
            i <= s@.len(),
            forall|k: int| 0 <= k < i ==> is_ws(#[trigger] s@[k]),
        decreases s@.len() - i,
    {
        i = i + 1;
    }
    proof {
        lemma_trim_start_skip(s@, i as int);
    }
    let mut j: usize = s.len();
    while j > i && is_ws_exec(s[j - 1])
        invariant
            i <= j <= s@.len(),
            forall|k: int| j <= k < s@.len() ==> is_ws(#[trigger] s@[k]),
        decreases j,
    {
        j = j - 1;
    }
    let ghost t = s@.skip(i as int);
    proof {
        assert(trim_start(t) == t);
        assert forall|k: int| j - i <= k < t.len() implies is_ws(#[trigger] t[k]) by {
            assert(t[k] == s@[k + i]);
        }
        lemma_trim_end_take(t, j - i);
        let u = t.take(j - i);
        if u.len() > 0 {
            assert(u.last() == s@[j - 1]);
        }
        assert(trim_end(u) == u);
    }
    let mut r: Vec<char> = Vec::new();
    let mut k: usize = i;
    while k < j
        invariant
            i <= k <= j <= s@.len(),
            r@ == s@.subrange(i as int, k as int),
        decreases j - k,
    {
        r.push(s[k]);
        k = k + 1;
        proof {
            assert(s@.subrange(i as int, k as int) =~= s@.subrange(i as int, k - 1).push(s@[k - 1]));
        }
    }
    proof {
        assert(r@ =~= t.take(j - i));
    }
    r
}

// ─── Lines ─────────────────────────────────────────────────────────────

/// `l` without one trailing carriage return.
pub open spec fn strip_cr(l: Seq<char>) -> Seq<char> {
    if l.len() > 0 && l.last() == '\r' {
        l.drop_last()
    } else {
        l
    }
}

/// The lines of `s` given that `cur` holds the unterminated text read so
/// far: lines end at `\n` (a `\r` right before it is dropped), and a final
/// line ending adds no empty line.
pub open spec fn lines_from(s: Seq<char>, cur: Seq<char>) -> Seq<Seq<char>>
    decreases s.len(),
{
    if s.len() == 0 {
        if cur.len() == 0 {
            Seq::empty()
        } else {
            seq![cur]
        }
    } else if s[0] == '\n' {
        seq![strip_cr(cur)] + lines_from(s.drop_first(), Seq::empty())
    } else {
        lines_from(s.drop_first(), cur.push(s[0]))
    }
}

/// The lines of `s`, as `str::lines` splits them.
pub open spec fn lines_of(s: Seq<char>) -> Seq<Seq<char>> {
    lines_from(s, Seq::empty())
}

fn strip_cr_exec(l: Vec<char>) -> (r: Vec<char>)
    ensures
        r@ == strip_cr(l@),
{
    let mut l = l;
    if l.len() > 0 && l[l.len() - 1] == '\r' {
        l.pop();
    }
    l
}

/// Splits `s` into lines.
pub fn split_lines(s: &[char]) -> (out: Vec<Vec<char>>)
    ensures
        out@.map_values(|l: Vec<char>| l@) == lines_of(s@),
{
    let mut out: Vec<Vec<char>> = Vec::new();
    let mut cur: Vec<char> = Vec::new();
    let mut i: usize = 0;
    proof {
        assert(s@.skip(0) =~= s@);
        assert(out@.map_values(|l: Vec<char>| l@) =~= Seq::<Seq<char>>::empty());
        assert(Seq::<Seq<char>>::empty() + lines_of(s@) =~= lines_of(s@));
    }
    while i < s.len()
        invariant
            i <= s@.len(),
            out@.map_values(|l: Vec<char>| l@) + lines_from(s@.skip(i as int), cur@) == lines_of(s@),
        decreases s@.len() - i,
    {
        let ghost rest = s@.skip(i as int);
        let ghost before = out@.map_values(|l: Vec<char>| l@);
        let ghost cur0 = cur@;
        proof {
            assert(rest.drop_first() =~= s@.skip(i + 1));
            assert(rest[0] == s@[i as int]);
        }
        if s[i] == '\n' {
            let line = strip_cr_exec(cur);
            let ghost lv = line@;
            out.push(line);
            cur = Vec::new();
            proof {
                assert(out@.map_values(|l: Vec<char>| l@) =~= before.push(lv));
                assert(lines_from(rest, cur0) == seq![lv] + lines_from(rest.drop_first(), Seq::empty()));
                assert(before.push(lv) + lines_from(s@.skip(i + 1), cur@) =~= before + (seq![lv]
                    + lines_from(rest.drop_first(), Seq::empty())));
            }
        } else {
            cur.push(s[i]);
            proof {
                assert(out@.map_values(|l: Vec<char>| l@) == before);
                assert(lines_from(rest, cur0) == lines_from(rest.drop_first(), cur@));
            }
        }
        i = i + 1;
    }
    proof {
        assert(s@.skip(s@.len() as int) =~= Seq::<char>::empty());
    }
    let ghost before = out@.map_values(|l: Vec<char>| l@);
    if cur.len() > 0 {
        let ghost cv = cur@;
        out.push(cur);
        proof {
            assert(out@.map_values(|l: Vec<char>| l@) =~= before + seq![cv]);
        }
    } else {
        proof {
            assert(before + Seq::<Seq<char>>::empty() =~= before);
        }
    }
    out
}


// ─── Keys, values and scalars ──────────────────────────────────────────

/// Index of the first `c` in `s`, if any.
pub open spec fn first_index(s: Seq<char>, c: char) -> Option<int>
    decreases s.len(),
{
    if s.len() == 0 {
        None
    } else if s[0] == c {
        Some(0)
    } else {
        match first_index(s.drop_first(), c) {
            Some(i) => Some(i + 1),
            None => None,
        }
    }
}

proof fn lemma_first_index(s: Seq<char>, c: char)
    ensures
        first_index(s, c) is None <==> forall|k: int| 0 <= k < s.len() ==> #[trigger] s[k] != c,
        first_index(s, c) matches Some(i) ==> 0 <= i < s.len() && s[i] == c && forall|k: int|
            0 <= k < i ==> #[trigger] s[k] != c,
    decreases s.len(),
{
    if s.len() > 0 {
        lemma_first_index(s.drop_first(), c);
        assert forall|k: int| 0 < k < s.len() implies s[k] == s.drop_first()[k - 1] by {}
        if first_index(s, c) is None {
            assert forall|k: int| 0 <= k < s.len() implies #[trigger] s[k] != c by {
                if k > 0 {
                    assert(s[k] == s.drop_first()[k - 1]);
                }
            }
        }
    }
}

/// Finds the first `c` in `s`.
pub fn find_char(s: &[char], c: char) -> (r: Option<usize>)
    ensures
        match r {
            Some(i) => first_index(s@, c) == Some(i as int),
            None => first_index(s@, c) is None,
        },
{
    proof {
        lemma_first_index(s@, c);
    }
    let mut i: usize = 0;
    while i < s.len()
        invariant
            i <= s@.len(),
            forall|k: int| 0 <= k < i ==> #[trigger] s@[k] != c,
        decreases s@.len() - i,
    {
        if s[i] == c {
            proof {
                lemma_first_index(s@, c);
                let j = first_index(s@, c)->0;
                if j < i {
                    assert(s@[j] != c);
                } else if j > i {
                    assert(s@[i as int] != c);
                }
            }
            return Some(i);
        }
        i = i + 1;
    }
    None
}

/// The message `line <n>: <msg>`.
pub open spec fn line_error(n: nat, msg: Seq<char>) -> Seq<char> {
    "line "@ + decimal(n) + ": "@ + msg
}

fn line_error_exec(n: usize, msg: &str) -> (r: String)
    ensures
        r@ == line_error(n as nat, msg@),
{
    let mut m: Vec<char> = Vec::new();
    push_str(&mut m, "line ");
    push_decimal(n as u64, &mut m);
    push_str(&mut m, ": ");
    push_str(&mut m, msg);
    proof {
        assert(m@ =~= line_error(n as nat, msg@));
    }
    string_from_chars(m.as_slice())
}

/// A trimmed line split at its first `:` into trimmed key and value.
pub open spec fn key_value(line: Seq<char>) -> Option<(Seq<char>, Seq<char>)> {
    match first_index(line, ':') {
        Some(i) => Some((trim(line.take(i)), trim(line.skip(i + 1)))),
        None => None,
    }
}

/// Replaces each `\"` by `"`, scanning left to right.
pub open spec fn unescape(s: Seq<char>) -> Seq<char>
    decreases s.len(),
{
    if s.len() == 0 {
        Seq::empty()
    } else if s.len() >= 2 && s[0] == '\\' && s[1] == '"' {
        seq!['"'] + unescape(s.skip(2))
    } else {
        seq![s[0]] + unescape(s.drop_first())
    }
}

/// The text a scalar value stands for: empty stays empty, a quoted value
/// loses its quotes and escapes, a bare value is taken as written.
pub open spec fn scalar(v: Seq<char>, n: nat) -> Result<Seq<char>, Seq<char>> {
    if v.len() == 0 {
        Ok(Seq::empty())
    } else if v[0] == '"' {
        if v.last() != '"' || v.len() < 2 {
            Err(line_error(n, "unterminated quoted string"@))
        } else {
            Ok(unescape(v.subrange(1, v.len() - 1)))
        }
    } else {
        Ok(v)
    }
}

fn unescape_exec(s: &[char]) -> (r: Vec<char>)
    ensures
        r@ == unescape(s@),
{
    let mut out: Vec<char> = Vec::new();
    let mut i: usize = 0;
    proof {
        assert(s@.skip(0) =~= s@);
    }
    while i < s.len()
        invariant
            i <= s@.len(),
            out@ + unescape(s@.skip(i as int)) == unescape(s@),
        decreases s@.len() - i,
    {
        let ghost rest = s@.skip(i as int);
        let ghost o = out@;
        if i + 1 < s.len() && s[i] == '\\' && s[i + 1] == '"' {
            out.push('"');
            proof {
                assert(rest.skip(2) =~= s@.skip(i + 2));
                assert(rest[0] == s@[i as int] && rest[1] == s@[i + 1]);
                assert(out@ + unescape(s@.skip(i + 2)) =~= o + (seq!['"'] + unescape(rest.skip(2))));
            }
            i = i + 2;
        } else {
            out.push(s[i]);
            proof {
                assert(rest.drop_first() =~= s@.skip(i + 1));
                assert(rest[0] == s@[i as int]);
                if rest.len() >= 2 {
                    assert(rest[1] == s@[i + 1]);
                }
                assert(out@ + unescape(s@.skip(i + 1)) =~= o + (seq![s@[i as int]] + unescape(rest.drop_first())));
            }
            i = i + 1;
        }
    }
    proof {
        assert(s@.skip(s@.len() as int) =~= Seq::<char>::empty());
        assert(out@ + Seq::<char>::empty() =~= out@);
    }
    out
}

/// Splits a trimmed line into its trimmed key and value at the first `:`.
pub fn key_value_chars(line: &[char], line_number: usize) -> (r: Result<(Vec<char>, Vec<char>), String>)
    ensures
        match (r, key_value(line@)) {
            (Ok((k, v)), Some((sk, sv))) => k@ == sk && v@ == sv,
            (Err(e), None) => e@ == line_error(line_number as nat, "expected key: value"@),
            _ => false,
        },
{
    match find_char(line, ':') {
        Some(i) => {
            proof {
                lemma_first_index(line@, ':');
            }
            let mut k: Vec<char> = Vec::new();
            let mut j: usize = 0;
            while j < i
                invariant
                    i < line@.len(),
                    j <= i,
                    k@ == line@.take(j as int),
                decreases i - j,
            {
                k.push(line[j]);
                j = j + 1;
                proof {
                    assert(line@.take(j as int) =~= line@.take(j - 1).push(line@[j - 1]));
                }
            }
            let mut v: Vec<char> = Vec::new();
            assert(i < line.len());
            let mut j: usize = i + 1;
            while j < line.len()
                invariant
                    i < line@.len(),
                    i + 1 <= j <= line@.len(),
                    v@ == line@.subrange(i + 1, j as int),
                decreases line@.len() - j,
            {
                v.push(line[j]);
                j = j + 1;
                proof {
                    assert(line@.subrange(i + 1, j as int) =~= line@.subrange(i + 1, j - 1).push(line@[j - 1]));
                }
            }
            proof {
                assert(v@ =~= line@.skip(i + 1));
            }
            Ok((trim_chars(k.as_slice()), trim_chars(v.as_slice())))
        },
        None => Err(line_error_exec(line_number, "expected key: value")),
    }
}

/// Splits `line` into its trimmed key and value at the first `:`.
pub fn parse_key_value(line: &str, line_number: usize) -> (r: Result<(String, String), String>)
    ensures
        match (r, key_value(line@)) {
            (Ok((k, v)), Some((sk, sv))) => k@ == sk && v@ == sv,
            (Err(e), None) => e@ == line_error(line_number as nat, "expected key: value"@),
            _ => false,
        },
{
    let l = chars_of(line);
    match key_value_chars(l.as_slice(), line_number) {
        Ok((k, v)) => Ok((string_from_chars(k.as_slice()), string_from_chars(v.as_slice()))),
        Err(e) => Err(e),
    }
}

/// The text a scalar stands for, on characters.
pub fn scalar_chars(value: &[char], line_number: usize) -> (r: Result<Vec<char>, String>)
    ensures
        match (r, scalar(value@, line_number as nat)) {
            (Ok(x), Ok(sx)) => x@ == sx,
            (Err(e), Err(se)) => e@ == se,
            _ => false,
        },
{
    if value.len() == 0 {
        return Ok(Vec::new());
    }
    if value[0] == '"' {
        if value[value.len() - 1] != '"' || value.len() < 2 {
            return Err(line_error_exec(line_number, "unterminated quoted string"));
        }
        let mut inner: Vec<char> = Vec::new();
        let mut j: usize = 1;
        while j < value.len() - 1
            invariant
                2 <= value@.len(),
                1 <= j <= value@.len() - 1,
                inner@ == value@.subrange(1, j as int),
            decreases value@.len() - j,
        {
            inner.push(value[j]);
            j = j + 1;
            proof {
                assert(value@.subrange(1, j as int) =~= value@.subrange(1, j - 1).push(value@[j - 1]));
            }
        }
        return Ok(unescape_exec(inner.as_slice()));
    }
    let mut out: Vec<char> = Vec::new();
    push_all(&mut out, value);
    Ok(out)
}

/// The text a scalar value stands for: empty stays empty, a quoted value
/// loses its quotes and `\"` escapes, a bare value is taken as written.
pub fn parse_scalar(value: &str, line_number: usize) -> (r: Result<String, String>)
    ensures
        match (r, scalar(value@, line_number as nat)) {
            (Ok(x), Ok(sx)) => x@ == sx,
            (Err(e), Err(se)) => e@ == se,
            _ => false,
        },
{
    let v = chars_of(value);
    match scalar_chars(v.as_slice(), line_number) {
        Ok(x) => Ok(string_from_chars(x.as_slice())),
        Err(e) => Err(e),
    }
}

// ─── Unsigned integer literals ─────────────────────────────────────────

/// Whether `c` is an ASCII digit.
pub open spec fn is_digit(c: char) -> bool {
    '0' <= c && c <= '9'
}

/// The number written by a string of ASCII digits.
pub open spec fn digits_value(s: Seq<char>) -> nat
    decreases s.len(),
{
    if s.len() == 0 {
        0
    } else {
        digits_value(s.drop_last()) * 10 + ((s.last() as nat) - 48) as nat
    }
}

/// Whether `s` is accepted as a `u32` in decimal: an optional `+`, then
/// at least one ASCII digit, with a value that fits in 32 bits.
pub open spec fn u32_literal(s: Seq<char>) -> bool {
    &&& s.len() > 0
    &&& digits_part(s).len() > 0
    &&& all_digits(digits_part(s))
    &&& digits_value(digits_part(s)) <= u32::MAX
}

/// `s` without one leading `+`.
pub open spec fn digits_part(s: Seq<char>) -> Seq<char> {
    if s.len() > 0 && s[0] == '+' {
        s.drop_first()
    } else {
        s
    }
}

/// Every character of `s` is an ASCII digit.
pub open spec fn all_digits(s: Seq<char>) -> bool {
    forall|k: int| 0 <= k < s.len() ==> is_digit(#[trigger] s[k])
}

proof fn lemma_digits_monotone(s: Seq<char>, i: int)
    requires
        0 <= i <= s.len(),
        forall|k: int| 0 <= k < s.len() ==> is_digit(#[trigger] s[k]),
    ensures
        digits_value(s.take(i)) <= digits_value(s),
    decreases s.len() - i,
{
    if i < s.len() {
        assert(s.take(s.len() - 1) =~= s.drop_last());
        lemma_digits_monotone(s.drop_last(), i);
        assert(s.drop_last().take(i) =~= s.take(i));
    } else {
        assert(s.take(i) =~= s);
    }
}

/// Checks whether `s` is accepted as a `u32` in decimal.
pub fn is_u32_literal(s: &[char]) -> (r: bool)
    ensures
        r == u32_literal(s@),
{
    if s.len() == 0 {
        return false;
    }
    let start: usize = if s[0] == '+' { 1 } else { 0 };
    let ghost d = digits_part(s@);
    proof {
        assert(d =~= s@.skip(start as int));
    }
    if start >= s.len() {
        return false;
    }
    let mut value: u64 = 0;
    let mut i: usize = start;
    while i < s.len()
        invariant
            start <= i <= s@.len(),
            d == s@.skip(start as int),
            d == digits_part(s@),
            s@.len() > 0,
            forall|k: int| 0 <= k < i - start ==> is_digit(#[trigger] d[k]),
            value == digits_value(d.take(i - start)),
            value <= u32::MAX,
        decreases s@.len() - i,
    {
        let c = s[i];
        if !('0' <= c && c <= '9') {
            assert(d[i - start] == c);
            assert(!all_digits(d));
            return false;
        }
        let dv: u64 = ((c as u32) - 48) as u64;
        let nv: u64 = value * 10 + dv;
        proof {
            assert(d.take(i + 1 - start).drop_last() =~= d.take(i - start));
            assert(d.take(i + 1 - start).last() == c);
        }
        if nv > 0xFFFF_FFFF {
            proof {
                if all_digits(d) {
                    lemma_digits_monotone(d, i + 1 - start);
                }
            }
            return false;
        }
        value = nv;
        i = i + 1;
    }
    proof {
        assert(d.take(d.len() as int) =~= d);
    }
    true
}


// ─── The locale document ───────────────────────────────────────────────

/// What the reader has gathered so far.
pub struct ReadState {
    pub id: Option<Seq<char>>,
    pub strings: Map<Seq<char>, Seq<char>>,
    pub in_strings: bool,
}

/// The reader state before the first line.
pub open spec fn initial_state() -> ReadState {
    ReadState { id: None, strings: Map::empty(), in_strings: false }
}

/// Reads one raw line numbered `n`.
pub open spec fn read_line(st: ReadState, raw: Seq<char>, n: nat) -> Result<ReadState, Seq<char>> {
    let t = trim(raw);
    if t.len() == 0 || t[0] == '#' {
        Ok(st)
    } else if raw.len() > 0 && (raw[0] == ' ' || raw[0] == '\t') {
        if !st.in_strings {
            Err(line_error(n, "indented entry outside strings section"@))
        } else {
            match key_value(t) {
                None => Err(line_error(n, "expected key: value"@)),
                Some((k, v)) => if k.len() == 0 {
                    Err(line_error(n, "empty string key"@))
                } else {
                    match scalar(v, n) {
                        Err(e) => Err(e),
                        Ok(x) => Ok(ReadState { strings: st.strings.insert(k, x), ..st }),
                    }
                },
            }
        }
    } else {
        match key_value(t) {
            None => Err(line_error(n, "expected key: value"@)),
            Some((k, v)) => if k == "locale"@ {
                match scalar(v, n) {
                    Err(e) => Err(e),
                    Ok(x) => Ok(ReadState { id: Some(x), in_strings: false, ..st }),
                }
            } else if k == "version"@ {
                match scalar(v, n) {
                    Err(e) => Err(e),
                    Ok(x) => if !u32_literal(x) {
                        Err(line_error(n, "version must be an integer"@))
                    } else {
                        Ok(ReadState { in_strings: false, ..st })
                    },
                }
            } else if k == "strings"@ {
                if v == "{}"@ {
                    Ok(ReadState { in_strings: false, ..st })
                } else if v.len() == 0 {
                    Ok(ReadState { in_strings: true, ..st })
                } else {
                    Err(line_error(n, "strings must be followed by a block or {}"@))
                }
            } else {
                Err(line_error(n, "unsupported top-level key "@ + k))
            },
        }
    }
}

/// Reads lines `i..` in order, stopping at the first error.
pub open spec fn read_lines(lines: Seq<Seq<char>>, i: nat, st: ReadState) -> Result<ReadState, Seq<char>>
    decreases lines.len() - i,
{
    if i >= lines.len() {
        Ok(st)
    } else {
        match read_line(st, lines[i as int], i + 1) {
            Err(e) => Err(e),
            Ok(next) => read_lines(lines, i + 1, next),
        }
    }
}

/// The locale a document describes: its id and string table, or the
/// message for the first problem found.
pub open spec fn read_locale(doc: Seq<char>) -> Result<(Seq<char>, Map<Seq<char>, Seq<char>>), Seq<char>> {
    match read_lines(lines_of(doc), 0, initial_state()) {
        Err(e) => Err(e),
        Ok(st) => match st.id {
            None => Err("missing locale field"@),
            Some(id) => Ok((id, st.strings)),
        },
    }
}

/// The text held by an optional character buffer.
pub open spec fn opt_chars(o: &Option<Vec<char>>) -> Option<Seq<char>> {
    match o {
        Some(v) => Some(v@),
        None => None,
    }
}

/// A loaded locale: its id and its key → text table.
#[derive(Debug, PartialEq, Eq)]
pub struct Locale {
    pub id: String,
    pub strings: StrMap<String>,
}

impl Locale {
    /// The string table as text.
    pub open spec fn table(&self) -> Map<Seq<char>, Seq<char>> {
        self.strings@.map_values(|v: String| v@)
    }

    /// The text for `key`, or `key` itself when the table has no entry.
    pub fn get<'a>(&'a self, key: &'a str) -> (r: &'a str)
        ensures
            r@ == if self.strings@.contains_key(key@) {
                self.strings@[key@]@
            } else {
                key@
            },
    {
        match self.strings.get(key) {
            Some(v) => v.as_str(),
            None => key,
        }
    }

    /// Reads a locale document.
    pub fn load_yaml(yaml_str: &str) -> (r: Result<Self, String>)
        ensures
            match (r, read_locale(yaml_str@)) {
                (Ok(loc), Ok((id, table))) => loc.id@ == id && loc.table() == table,
                (Err(e), Err(se)) => e@ == se,
                _ => false,
            },
    {
        let doc = chars_of(yaml_str);
        let lines = split_lines(doc.as_slice());
        let ghost ls = lines@.map_values(|l: Vec<char>| l@);
        let mut locale_id: Option<Vec<char>> = None;
        let mut strings: StrMap<String> = StrMap::new();
        let mut in_strings = false;
        let mut index: usize = 0;
        proof {
            assert(strings@.map_values(|v: String| v@) =~= Map::<Seq<char>, Seq<char>>::empty());
        }
        while index < lines.len()
            invariant
                ls == lines_of(yaml_str@),
                ls == lines@.map_values(|l: Vec<char>| l@),
                index <= lines@.len(),
                read_lines(ls, 0, initial_state()) == read_lines(
                    ls,
                    index as nat,
                    ReadState {
                        id: opt_chars(&locale_id),
                        strings: strings@.map_values(|v: String| v@),
                        in_strings,
                    },
                ),
            decreases lines@.len() - index,
        {
            let ghost st = ReadState {
                id: opt_chars(&locale_id),
                strings: strings@.map_values(|v: String| v@),
                in_strings,
            };
            let raw = &lines[index];
            let line_number = index + 1;
            proof {
                assert(ls[index as int] == raw@);
            }
            let trimmed = trim_chars(raw.as_slice());
            if trimmed.len() == 0 || trimmed[0] == '#' {
                index = index + 1;
                continue;
            }
            if raw.len() > 0 && (raw[0] == ' ' || raw[0] == '\t') {
                if !in_strings {
                    return Err(line_error_exec(line_number, "indented entry outside strings section"));
                }
                let (key, value) = match key_value_chars(trimmed.as_slice(), line_number) {
                    Ok(kv) => kv,
                    Err(e) => return Err(e),
                };
                if key.len() == 0 {
                    return Err(line_error_exec(line_number, "empty string key"));
                }
                let x = match scalar_chars(value.as_slice(), line_number) {
                    Ok(x) => x,
                    Err(e) => return Err(e),
                };
                let ghost old_strings = strings@;
                let xs = string_from_chars(x.as_slice());
                let ks = string_from_chars(key.as_slice());
                strings.insert(ks, xs);
                proof {
                    assert(strings@.map_values(|v: String| v@) =~= st.strings.insert(key@, x@));
                }
                index = index + 1;
                continue;
            }
            let (key, value) = match key_value_chars(trimmed.as_slice(), line_number) {
                Ok(kv) => kv,
                Err(e) => return Err(e),
            };
            let key_s = string_from_chars(key.as_slice());
            proof {
                reveal_strlit("locale");
                reveal_strlit("version");
                reveal_strlit("strings");
                reveal_strlit("{}");
            }
            if key_s == "locale".to_owned() {
                let x = match scalar_chars(value.as_slice(), line_number) {
                    Ok(x) => x,
                    Err(e) => return Err(e),
                };
                locale_id = Some(x);
                in_strings = false;
            } else if key_s == "version".to_owned() {
                let x = match scalar_chars(value.as_slice(), line_number) {
                    Ok(x) => x,
                    Err(e) => return Err(e),
                };
                if !is_u32_literal(x.as_slice()) {
                    return Err(line_error_exec(line_number, "version must be an integer"));
                }
                in_strings = false;
            } else if key_s == "strings".to_owned() {
                let vs = string_from_chars(value.as_slice());
                if vs == "{}".to_owned() {
                    in_strings = false;
                } else if value.len() == 0 {
                    in_strings = true;
                } else {
                    return Err(line_error_exec(line_number, "strings must be followed by a block or {}"));
                }
            } else {
                let mut m: Vec<char> = Vec::new();
                push_str(&mut m, "unsupported top-level key ");
                push_all(&mut m, key.as_slice());
                let e = line_error_exec(line_number, string_from_chars(m.as_slice()).as_str());
                return Err(e);
            }
            index = index + 1;
        }
        match locale_id {
            None => {
                proof {
                    reveal_strlit("missing locale field");
                }
                Err("missing locale field".to_owned())
            },
            Some(id) => {
                let r = Locale { id: string_from_chars(id.as_slice()), strings };
                Ok(r)
            },
        }
    }
}

} // verus!

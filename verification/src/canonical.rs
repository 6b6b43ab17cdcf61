//! Canonical JSON: keys sorted at every level, no whitespace, integers
//! without decimal points, no nulls (null members of objects are left
//! out), and no floats.  Saved and hashed state uses this form.

use vstd::prelude::*;

use crate::strmap::{lemma_text_order_total, str_less, lex_lt, text_order};
use crate::text::{decimal, push_decimal, push_signed, push_str, signed_decimal, string_from_chars};
use vstd::relations::sorted_by;
use vstd::seq_lib::{lemma_sorted_unique, to_multiset_build, to_multiset_insert};
use vstd::string::StringSliceAdditionalSpecFns;
use vstd::utf8::encode_utf8;

verus! {

/// A JSON number as it was written: a signed or an unsigned integer, or
/// any other number, kept as its text.
#[derive(Debug, Clone, PartialEq, Eq)]
pub enum JsonNumber {
    Int(i64),
    UInt(u64),
    Other(String),
}

/// A JSON value.  Object members keep the order they were read in.
#[derive(Debug)]
pub enum JsonValue {
    Null,
    Bool(bool),
    Number(JsonNumber),
    String(String),
    Array(Vec<JsonValue>),
    Object(Vec<(String, JsonValue)>),
}

/// Why a value has no canonical form.
#[derive(Debug, Clone, PartialEq, Eq)]
pub enum CanonicalJsonError {
    /// A number that is not an integer; it carries the number's text.
    FloatForbidden(String),
    /// A null outside an object member.
    NullForbidden,
    /// The value could not be turned into JSON at all.
    Serde(String),
}

/// The lowercase hexadecimal digit for `d` (`0 <= d < 16`).
pub open spec fn hex_digit(d: nat) -> char {
    if d < 10 {
        (48 + d) as char
    } else {
        (87 + d) as char
    }
}

/// How one character is written inside a JSON string.
pub open spec fn escape_char(c: char) -> Seq<char> {
    if c == '"' {
        seq!['\\', '"']
    } else if c == '\\' {
        seq!['\\', '\\']
    } else if c == '\n' {
        seq!['\\', 'n']
    } else if c == '\r' {
        seq!['\\', 'r']
    } else if c == '\t' {
        seq!['\\', 't']
    } else if c == '\u{08}' {
        seq!['\\', 'b']
    } else if c == '\u{0c}' {
        seq!['\\', 'f']
    } else if (c as u32) < 0x20 {
        seq!['\\', 'u', '0', '0', hex_digit((c as nat) / 16), hex_digit((c as nat) % 16)]
    } else {
        seq![c]
    }
}

/// The characters of `s`, each escaped.
pub open spec fn escaped(s: Seq<char>) -> Seq<char>
    decreases s.len(),
{
    if s.len() == 0 {
        Seq::empty()
    } else {
        escaped(s.drop_last()) + escape_char(s.last())
    }
}

/// `s` written as a JSON string literal.
pub open spec fn json_string(s: Seq<char>) -> Seq<char> {
    seq!['"'] + escaped(s) + seq!['"']
}

fn hex_char(d: u32) -> (c: char)
    requires
        d < 16,
    ensures
        c == hex_digit(d as nat),
{
    if d < 10 {
        ((48 + d) as u8) as char
    } else {
        ((87 + d) as u8) as char
    }
}

/// Appends one escaped character.
fn push_escaped_char(c: char, out: &mut Vec<char>)
    ensures
        final(out)@ == old(out)@ + escape_char(c),
{
    if c == '"' {
        out.push('\\');
        out.push('"');
    } else if c == '\\' {
        out.push('\\');
        out.push('\\');
    } else if c == '\n' {
        out.push('\\');
        out.push('n');
    } else if c == '\r' {
        out.push('\\');
        out.push('r');
    } else if c == '\t' {
        out.push('\\');
        out.push('t');
    } else if c == '\u{08}' {
        out.push('\\');
        out.push('b');
    } else if c == '\u{0c}' {
        out.push('\\');
        out.push('f');
    } else if (c as u32) < 0x20 {
        let n = c as u32;
        out.push('\\');
        out.push('u');
        out.push('0');
        out.push('0');
        out.push(hex_char(n / 16));
        out.push(hex_char(n % 16));
    } else {
        out.push(c);
    }
    proof {
        assert(out@ =~= old(out)@ + escape_char(c));
    }
}

/// Appends `s` as a JSON string literal.
pub fn write_json_string(s: &str, out: &mut Vec<char>)
    ensures
        final(out)@ == old(out)@ + json_string(s@),
{
    let v = crate::text::chars_of(s);
    out.push('"');
    let ghost start = out@;
    let mut i: usize = 0;
    while i < v.len()
        invariant
            v@ == s@,
            i <= v@.len(),
            out@ == start + escaped(v@.take(i as int)),
        decreases v@.len() - i,
    {
        proof {
            assert(v@.take(i + 1).drop_last() =~= v@.take(i as int));
        }
        push_escaped_char(v[i], out);
        i = i + 1;
    }
    out.push('"');
    proof {
        assert(v@.take(v@.len() as int) =~= v@);
        assert(out@ =~= old(out)@ + json_string(s@));
    }
}

/// The texts of a list of strings.
pub open spec fn texts(v: Seq<String>) -> Seq<Seq<char>> {
    v.map_values(|t: String| t@)
}

/// The keys of the members that are not null, in member order.
pub open spec fn live_keys(es: Seq<(String, JsonValue)>) -> Seq<Seq<char>>
    decreases es.len(),
{
    if es.len() == 0 {
        Seq::empty()
    } else if es.last().1 is Null {
        live_keys(es.drop_last())
    } else {
        live_keys(es.drop_last()).push(es.last().0@)
    }
}

/// Position of the first member with key `k`, or -1.
pub open spec fn key_index(es: Seq<(String, JsonValue)>, k: Seq<char>) -> int
    decreases es.len(),
{
    if es.len() == 0 {
        -1
    } else if es[0].0@ == k {
        0
    } else {
        let r = key_index(es.drop_first(), k);
        if r < 0 {
            -1
        } else {
            r + 1
        }
    }
}

/// The canonical text of a value, or why it has none.  Arrays keep their
/// order; objects list their non-null members by key in text order.
pub open spec fn canon(v: JsonValue) -> Result<Seq<char>, CanonicalJsonError>
    decreases v, 0nat,
{
    match v {
        JsonValue::Null => Err(CanonicalJsonError::NullForbidden),
        JsonValue::Bool(b) => Ok(
            if b {
                "true"@
            } else {
                "false"@
            },
        ),
        JsonValue::Number(JsonNumber::Int(i)) => Ok(signed_decimal(i as int)),
        JsonValue::Number(JsonNumber::UInt(u)) => Ok(decimal(u as nat)),
        JsonValue::Number(JsonNumber::Other(t)) => Err(CanonicalJsonError::FloatForbidden(t)),
        JsonValue::String(t) => Ok(json_string(t@)),
        JsonValue::Array(items) => match canon_items(items@) {
            Ok(body) => Ok(seq!['['] + body + seq![']']),
            Err(e) => Err(e),
        },
        JsonValue::Object(es) => match canon_members(es@, live_keys(es@).sort_by(text_order())) {
            Ok(body) => Ok(seq!['{'] + body + seq!['}']),
            Err(e) => Err(e),
        },
    }
}

/// The canonical texts of `items`, comma-separated, or the first error.
pub open spec fn canon_items(items: Seq<JsonValue>) -> Result<Seq<char>, CanonicalJsonError>
    decreases items, 0nat,
{
    if items.len() == 0 {
        Ok(Seq::empty())
    } else {
        match canon_items(items.drop_last()) {
            Err(e) => Err(e),
            Ok(prefix) => match canon(items[items.len() - 1]) {
                Err(e) => Err(e),
                Ok(t) => Ok(
                    if items.len() == 1 {
                        t
                    } else {
                        prefix + seq![','] + t
                    },
                ),
            },
        }
    }
}

/// The members with keys `ks`, written `"key":value` and comma-separated,
/// each key taking the value of its first member; or the first error.
pub open spec fn canon_members(es: Seq<(String, JsonValue)>, ks: Seq<Seq<char>>) -> Result<
    Seq<char>,
    CanonicalJsonError,
>
    decreases es, ks.len(),
{
    if ks.len() == 0 {
        Ok(Seq::empty())
    } else {
        match canon_members(es, ks.drop_last()) {
            Err(e) => Err(e),
            Ok(prefix) => {
                let i = key_index(es, ks.last());
                if 0 <= i < es.len() {
                    match canon(es[i].1) {
                        Err(e) => Err(e),
                        Ok(t) => {
                            let member = json_string(ks.last()) + seq![':'] + t;
                            Ok(
                                if ks.len() == 1 {
                                    member
                                } else {
                                    prefix + seq![','] + member
                                },
                            )
                        },
                    }
                } else {
                    Err(CanonicalJsonError::NullForbidden)
                }
            },
        }
    }
}

/// Inserts `x` after every entry that is not above it, so that a list in
/// text order stays in text order.
fn insert_text(out: &mut Vec<String>, x: String)
    requires
        sorted_by(texts(old(out)@), text_order()),
    ensures
        sorted_by(texts(final(out)@), text_order()),
        texts(final(out)@).to_multiset() == texts(old(out)@).to_multiset().insert(x@),
{
    let ghost s = texts(out@);
    let mut p: usize = 0;
    let mut done = false;
    while !done && p < out.len()
        invariant
            s == texts(out@),
            p <= out@.len(),
            forall|k: int| 0 <= k < p ==> !lex_lt(x@, #[trigger] s[k]),
            done ==> p < out@.len() && lex_lt(x@, s[p as int]),
        decreases out@.len() - p + if done {
            0int
        } else {
            1int
        },
    {
        if str_less(x.as_str(), out[p].as_str()) {
            done = true;
        } else {
            p = p + 1;
        }
    }
    let ghost xv = x@;
    out.insert(p, x);
    proof {
        let n = texts(out@);
        assert(n =~= s.insert(p as int, xv));
        lemma_text_order_total();
        assert forall|i: int, j: int| 0 <= i < j < n.len() implies #[trigger] text_order()(n[i], n[j]) by {
            if j < p {
                assert(text_order()(s[i], s[j]));
            } else if j == p {
                assert(!lex_lt(xv, s[i]));
                crate::strmap::lemma_lex_total(s[i], xv);
            } else if i < p {
                if i < j - 1 {
                    assert(text_order()(s[i], s[j - 1]));
                }
            } else if i == p {
                assert(lex_lt(xv, s[p as int]));
                if p < j - 1 {
                    assert(text_order()(s[p as int], s[j - 1]));
                    if s[p as int] != s[j - 1] {
                        crate::strmap::lemma_lex_transitive(xv, s[p as int], s[j - 1]);
                    }
                }
            } else {
                assert(text_order()(s[i - 1], s[j - 1]));
            }
        }
        to_multiset_insert(s, p as int, xv);
    }
}

/// The keys of the non-null members in text order.
fn sorted_live_keys(es: &Vec<(String, JsonValue)>) -> (r: Vec<String>)
    ensures
        texts(r@) == live_keys(es@).sort_by(text_order()),
{
    let mut out: Vec<String> = Vec::new();
    let ghost live = live_keys(es@);
    proof {
        assert(es@.take(0) =~= Seq::<(String, JsonValue)>::empty());
        assert(texts(out@) =~= Seq::<Seq<char>>::empty());
    }
    let mut i: usize = 0;
    while i < es.len()
        invariant
            i <= es@.len(),
            sorted_by(texts(out@), text_order()),
            texts(out@).to_multiset() == live_keys(es@.take(i as int)).to_multiset(),
        decreases es@.len() - i,
    {
        proof {
            assert(es@.take(i + 1).drop_last() =~= es@.take(i as int));
        }
        let is_null = match &es[i].1 {
            JsonValue::Null => true,
            _ => false,
        };
        if !is_null {
            insert_text(&mut out, es[i].0.clone());
            proof {
                to_multiset_build(live_keys(es@.take(i as int)), es@[i as int].0@);
            }
        }
        i = i + 1;
    }
    proof {
        assert(es@.take(es@.len() as int) =~= es@);
        lemma_text_order_total();
        live.lemma_sort_by_ensures(text_order());
        lemma_sorted_unique(texts(out@), live.sort_by(text_order()), text_order());
    }
    out
}

/// Position of the first member with key `k`, if any.
pub(crate) fn find_key(es: &Vec<(String, JsonValue)>, k: &str) -> (r: Option<usize>)
    ensures
        match r {
            Some(i) => i as int == key_index(es@, k@) && i < es@.len(),
            None => key_index(es@, k@) == -1,
        },
{
    let mut i: usize = 0;
    proof {
        assert(es@.skip(0) =~= es@);
    }
    while i < es.len()
        invariant
            i <= es@.len(),
            forall|j: int| 0 <= j < i ==> (#[trigger] es@[j]).0@ != k@,
            key_index(es@, k@) == if key_index(es@.skip(i as int), k@) < 0 {
                -1
            } else {
                key_index(es@.skip(i as int), k@) + i
            },
        decreases es@.len() - i,
    {
        proof {
            assert(es@.skip(i as int)[0] == es@[i as int]);
            assert(es@.skip(i as int).drop_first() =~= es@.skip(i + 1));
        }
        if es[i].0 == k.to_owned() {
            return Some(i);
        }
        i = i + 1;
    }
    None
}

proof fn lemma_items_error_stays(s: Seq<JsonValue>, j: int, e: CanonicalJsonError)
    requires
        0 <= j <= s.len(),
        canon_items(s.take(j)) == Err::<Seq<char>, CanonicalJsonError>(e),
    ensures
        canon_items(s) == Err::<Seq<char>, CanonicalJsonError>(e),
    decreases s.len() - j,
{
    if j < s.len() {
        assert(s.take(j + 1).drop_last() =~= s.take(j));
        lemma_items_error_stays(s, j + 1, e);
    } else {
        assert(s.take(j) =~= s);
    }
}

proof fn lemma_members_error_stays(
    es: Seq<(String, JsonValue)>,
    ks: Seq<Seq<char>>,
    j: int,
    e: CanonicalJsonError,
)
    requires
        0 <= j <= ks.len(),
        canon_members(es, ks.take(j)) == Err::<Seq<char>, CanonicalJsonError>(e),
    ensures
        canon_members(es, ks) == Err::<Seq<char>, CanonicalJsonError>(e),
    decreases ks.len() - j,
{
    if j < ks.len() {
        assert(ks.take(j + 1).drop_last() =~= ks.take(j));
        lemma_members_error_stays(es, ks, j + 1, e);
    } else {
        assert(ks.take(j) =~= ks);
    }
}

/// Appends the canonical text of `v`, or returns why it has none (the
/// first failure in writing order).
pub fn write_value(v: &JsonValue, out: &mut Vec<char>) -> (r: Result<(), CanonicalJsonError>)
    ensures
        match canon(*v) {
            Ok(t) => r is Ok && final(out)@ == old(out)@ + t,
            Err(e) => r == Err::<(), CanonicalJsonError>(e),
        },
    decreases v,
{
    match v {
        JsonValue::Null => Err(CanonicalJsonError::NullForbidden),
        JsonValue::Bool(b) => {
            if *b {
                push_str(out, "true");
            } else {
                push_str(out, "false");
            }
            Ok(())
        },
        JsonValue::Number(JsonNumber::Int(i)) => {
            push_signed(*i, out);
            Ok(())
        },
        JsonValue::Number(JsonNumber::UInt(u)) => {
            push_decimal(*u, out);
            Ok(())
        },
        JsonValue::Number(JsonNumber::Other(t)) => Err(CanonicalJsonError::FloatForbidden(t.clone())),
        JsonValue::String(t) => {
            write_json_string(t.as_str(), out);
            Ok(())
        },
        JsonValue::Array(items) => {
            out.push('[');
            let ghost start = out@;
            let mut i: usize = 0;
            proof {
                assert(items@.take(0) =~= Seq::<JsonValue>::empty());
            }
            while i < items.len()
                invariant
                    *v == JsonValue::Array(*items),
                    i <= items@.len(),
                    canon_items(items@.take(i as int)) is Ok,
                    out@ == start + canon_items(items@.take(i as int))->Ok_0,
                decreases items@.len() - i,
            {
                proof {
                    assert(items@.take(i + 1).drop_last() =~= items@.take(i as int));
                    assert(items@.take(i + 1)[i as int] == items@[i as int]);
                }
                if i > 0 {
                    out.push(',');
                }
                match write_value(&items[i], out) {
                    Err(e) => {
                        proof {
                            lemma_items_error_stays(items@, i + 1, e);
                        }
                        return Err(e);
                    },
                    Ok(()) => {},
                }
                i = i + 1;
            }
            out.push(']');
            proof {
                assert(items@.take(items@.len() as int) =~= items@);
                assert(out@ =~= old(out)@ + canon(*v)->Ok_0);
            }
            Ok(())
        },
        JsonValue::Object(es) => {
            out.push('{');
            let ghost start = out@;
            let keys = sorted_live_keys(es);
            let ghost ks = texts(keys@);
            proof {
                assert(ks.take(0) =~= Seq::<Seq<char>>::empty());
            }
            let mut j: usize = 0;
            while j < keys.len()
                invariant
                    *v == JsonValue::Object(*es),
                    ks == texts(keys@),
                    ks == live_keys(es@).sort_by(text_order()),
                    j <= keys@.len(),
                    canon_members(es@, ks.take(j as int)) is Ok,
                    out@ == start + canon_members(es@, ks.take(j as int))->Ok_0,
                decreases keys@.len() - j,
            {
                proof {
                    assert(ks.take(j + 1).drop_last() =~= ks.take(j as int));
                    assert(ks.take(j + 1).last() == keys@[j as int]@);
                }
                let ghost before = out@;
                if j > 0 {
                    out.push(',');
                }
                write_json_string(keys[j].as_str(), out);
                out.push(':');
                match find_key(es, keys[j].as_str()) {
                    None => {
                        proof {
                            lemma_members_error_stays(es@, ks, j + 1, CanonicalJsonError::NullForbidden);
                        }
                        return Err(CanonicalJsonError::NullForbidden);
                    },
                    Some(idx) => {
                        match write_value(&es[idx].1, out) {
                            Err(e) => {
                                proof {
                                    lemma_members_error_stays(es@, ks, j + 1, e);
                                }
                                return Err(e);
                            },
                            Ok(()) => {},
                        }
                    },
                }
                proof {
                    let prefix = canon_members(es@, ks.take(j as int))->Ok_0;
                    let member = json_string(keys@[j as int]@) + seq![':'] + canon(
                        es@[key_index(es@, keys@[j as int]@)].1,
                    )->Ok_0;
                    if j == 0 {
                        assert(out@ =~= start + member);
                    } else {
                        assert(out@ =~= start + (prefix + seq![','] + member));
                    }
                }
                j = j + 1;
            }
            out.push('}');
            proof {
                assert(ks.take(ks.len() as int) =~= ks);
                assert(out@ =~= old(out)@ + canon(*v)->Ok_0);
            }
            Ok(())
        },
    }
}

/// The canonical text of a value.
pub fn to_canonical_string(v: &JsonValue) -> (r: Result<String, CanonicalJsonError>)
    ensures
        match canon(*v) {
            Ok(t) => r is Ok && r->Ok_0@ == t,
            Err(e) => r == Err::<String, CanonicalJsonError>(e),
        },
{
    let mut out: Vec<char> = Vec::new();
    match write_value(v, &mut out) {
        Err(e) => Err(e),
        Ok(()) => {
            proof {
                assert(out@ =~= canon(*v)->Ok_0);
            }
            Ok(string_from_chars(out.as_slice()))
        },
    }
}

/// The hexadecimal BLAKE3 digest of `bytes`.
pub uninterp spec fn blake3_hex_text(bytes: Seq<u8>) -> Seq<char>;

/// `c` is a lowercase hexadecimal digit.
pub open spec fn is_lower_hex(c: char) -> bool {
    ('0' <= c && c <= '9') || ('a' <= c && c <= 'f')
}

/// Hashes `bytes` with `blake3::hash` and writes the digest with
/// `Hash::to_hex`.  Claimed: the text is [`blake3_hex_text`] of the bytes
/// and, as `to_hex` writes two digits per byte of the 32-byte digest from
/// the table `0123456789abcdef`, it is 64 lowercase hexadecimal digits.
/// Which digits they are is not stated.
#[verifier::external_body]
fn blake3_hex(bytes: &[u8]) -> (h: String)
    ensures
        h@ == blake3_hex_text(bytes@),
        h@.len() == 64,
        forall|i: int| 0 <= i < 64 ==> is_lower_hex(#[trigger] h@[i]),
{
    blake3::hash(bytes).to_hex().to_string()
}

/// The BLAKE3 digest of the UTF-8 bytes of the canonical text of `v`, in
/// lowercase hexadecimal.
pub fn canonical_hash(v: &JsonValue) -> (r: Result<String, CanonicalJsonError>)
    ensures
        match canon(*v) {
            Ok(t) => r is Ok && r->Ok_0@ == blake3_hex_text(encode_utf8(t)) && r->Ok_0@.len() == 64 && forall|i: int|
                0 <= i < 64 ==> is_lower_hex(#[trigger] r->Ok_0@[i]),
            Err(e) => r == Err::<String, CanonicalJsonError>(e),
        },
{
    match to_canonical_string(v) {
        Err(e) => Err(e),
        Ok(text) => {
            let bytes = text.as_str().as_bytes();
            Ok(blake3_hex(bytes))
        },
    }
}

/// The members of an object written `{"_placeholder": true}`: one member,
/// `_placeholder`, set to true.
pub open spec fn is_placeholder_marker(ms: Seq<(String, JsonValue)>) -> bool {
    ms.len() == 1 && ms[0].0@ == "_placeholder"@ && ms[0].1 == JsonValue::Bool(true)
}

/// The path of the `i`-th item of the array at `path`: `path[i]`.
pub open spec fn item_path(path: Seq<char>, i: nat) -> Seq<char> {
    path + seq!['['] + decimal(i) + seq![']']
}

/// The path of member `key` of the object at `path`: `path.key`.
pub open spec fn member_path(path: Seq<char>, key: Seq<char>) -> Seq<char> {
    path + seq!['.'] + key
}

/// The paths, in document order, of the placeholder markers in `v`, the
/// value found at `path`.  A marker is reported once and not looked into.
pub open spec fn placeholder_paths(v: JsonValue, path: Seq<char>) -> Seq<Seq<char>>
    decreases v, 0nat,
{
    match v {
        JsonValue::Object(ms) => if is_placeholder_marker(ms@) {
            seq![path]
        } else {
            member_placeholder_paths(ms@, path)
        },
        JsonValue::Array(items) => item_placeholder_paths(items@, path),
        _ => Seq::empty(),
    }
}

/// The placeholder paths of the items of the array at `path`, in order.
pub open spec fn item_placeholder_paths(items: Seq<JsonValue>, path: Seq<char>) -> Seq<Seq<char>>
    decreases items, 0nat,
{
    if items.len() == 0 {
        Seq::empty()
    } else {
        item_placeholder_paths(items.drop_last(), path) + placeholder_paths(
            items[items.len() - 1],
            item_path(path, (items.len() - 1) as nat),
        )
    }
}

/// The placeholder paths of the members of the object at `path`, in
/// member order.
pub open spec fn member_placeholder_paths(ms: Seq<(String, JsonValue)>, path: Seq<char>) -> Seq<Seq<char>>
    decreases ms, 0nat,
{
    if ms.len() == 0 {
        Seq::empty()
    } else {
        member_placeholder_paths(ms.drop_last(), path) + placeholder_paths(
            ms[ms.len() - 1].1,
            member_path(path, ms[ms.len() - 1].0@),
        )
    }
}

/// Builds `path` followed by `[i]`.
fn item_path_string(path: &str, i: usize) -> (r: String)
    ensures
        r@ == item_path(path@, i as nat),
{
    let mut v: Vec<char> = Vec::new();
    push_str(&mut v, path);
    v.push('[');
    push_decimal(i as u64, &mut v);
    v.push(']');
    proof {
        assert(v@ =~= item_path(path@, i as nat));
    }
    string_from_chars(v.as_slice())
}

/// Builds `path` followed by `.key`.
fn member_path_string(path: &str, key: &str) -> (r: String)
    ensures
        r@ == member_path(path@, key@),
{
    let mut v: Vec<char> = Vec::new();
    push_str(&mut v, path);
    v.push('.');
    push_str(&mut v, key);
    proof {
        assert(v@ =~= member_path(path@, key@));
    }
    string_from_chars(v.as_slice())
}

/// Whether an object's members are exactly a placeholder marker.
fn is_marker(ms: &Vec<(String, JsonValue)>) -> (b: bool)
    ensures
        b == is_placeholder_marker(ms@),
{
    if ms.len() != 1 {
        return false;
    }
    let marker = "_placeholder".to_owned();
    if ms[0].0 != marker {
        return false;
    }
    match &ms[0].1 {
        JsonValue::Bool(b) => *b,
        _ => false,
    }
}

/// Appends to `out`, in document order, the path of every placeholder
/// marker in `v`, the value found at `path`.  Object members extend the
/// path with `.key`, array items with `[index]`.
pub fn scan_placeholders(v: &JsonValue, path: &str, out: &mut Vec<String>)
    ensures
        texts(final(out)@) == texts(old(out)@) + placeholder_paths(*v, path@),
    decreases v,
{
    match v {
        JsonValue::Object(ms) => {
            if is_marker(ms) {
                out.push(path.to_owned());
                proof {
                    assert(texts(out@) =~= texts(old(out)@) + placeholder_paths(*v, path@));
                }
                return;
            }
            let mut i: usize = 0;
            proof {
                assert(texts(out@) =~= texts(old(out)@) + member_placeholder_paths(ms@.take(0), path@));
            }
            while i < ms.len()
                invariant
                    *v == JsonValue::Object(*ms),
                    decreases_to!(*v => *ms),
                    i <= ms@.len(),
                    texts(out@) == texts(old(out)@) + member_placeholder_paths(ms@.take(i as int), path@),
                decreases ms@.len() - i,
            {
                proof {
                    assert(ms@.take(i + 1).drop_last() =~= ms@.take(i as int));
                    assert(ms@.take(i + 1)[i as int] == ms@[i as int]);
                }
                let next = member_path_string(path, ms[i].0.as_str());
                scan_placeholders(&ms[i].1, next.as_str(), out);
                proof {
                    assert(texts(out@) =~= texts(old(out)@) + member_placeholder_paths(ms@.take(i + 1), path@));
                }
                i = i + 1;
            }
            proof {
                assert(ms@.take(ms@.len() as int) =~= ms@);
            }
        },
        JsonValue::Array(items) => {
            let mut i: usize = 0;
            proof {
                assert(texts(out@) =~= texts(old(out)@) + item_placeholder_paths(items@.take(0), path@));
            }
            while i < items.len()
                invariant
                    *v == JsonValue::Array(*items),
                    decreases_to!(*v => *items),
                    i <= items@.len(),
                    texts(out@) == texts(old(out)@) + item_placeholder_paths(items@.take(i as int), path@),
                decreases items@.len() - i,
            {
                proof {
                    assert(items@.take(i + 1).drop_last() =~= items@.take(i as int));
                    assert(items@.take(i + 1)[i as int] == items@[i as int]);
                }
                let next = item_path_string(path, i);
                scan_placeholders(&items[i], next.as_str(), out);
                proof {
                    assert(texts(out@) =~= texts(old(out)@) + item_placeholder_paths(items@.take(i + 1), path@));
                }
                i = i + 1;
            }
            proof {
                assert(items@.take(items@.len() as int) =~= items@);
            }
        },
        _ => {
            proof {
                assert(texts(out@) =~= texts(old(out)@) + placeholder_paths(*v, path@));
            }
        },
    }
}

} // verus!
